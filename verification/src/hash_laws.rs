//! What is hashed, and how it is laid out.
use crate::sha256;
use vstd::prelude::*;

verus! {

/// The number that bytes stand for, the most significant first.
pub open spec fn number_of(bytes: Seq<u8>) -> nat
    decreases bytes.len(),
{
    if bytes.len() == 0 {
        0
    } else {
        number_of(bytes.drop_last()) * 256 + bytes.last() as nat
    }
}

proof fn eight_bytes(bits: nat)
    requires
        bits < 0x1_0000_0000_0000_0000,
    ensures
        number_of(sha256::length_bytes(bits)) == bits,
{
    let s = sha256::length_bytes(bits);
    let b7 = s.drop_last();
    let b6 = b7.drop_last();
    let b5 = b6.drop_last();
    let b4 = b5.drop_last();
    let b3 = b4.drop_last();
    let b2 = b3.drop_last();
    let b1 = b2.drop_last();
    assert(number_of(b1.drop_last()) == 0);
    assert(number_of(b1) == bits / 0x100_0000_0000_0000);
    assert(number_of(b2) == bits / 0x1_0000_0000_0000);
    assert(number_of(b3) == bits / 0x100_0000_0000);
    assert(number_of(b4) == bits / 0x1_0000_0000);
    assert(number_of(b5) == bits / 0x100_0000);
    assert(number_of(b6) == bits / 0x1_0000);
    assert(number_of(b7) == bits / 0x100);
}

proof fn tail_is_short(bits: nat)
    ensures
        sha256::length_bytes(bits).len() == 8,
{
}

proof fn gap_fills_up(n: nat)
    ensures
        (n + 9 + sha256::gap(n)) % 64 == 0,
        sha256::gap(n) < 64,
{
}

/// A message is padded to whole blocks: it comes first, then one set bit, as few zeros
/// as will do, and its length in bits as a number of eight bytes.
pub proof fn messages_are_padded_to_whole_blocks(message: Seq<u8>)
    requires
        8 * message.len() < 0x1_0000_0000_0000_0000,
    ensures
        ({
            let all = sha256::padded(message);
            let n = message.len() as int;
            let end = all.len() - 8;
            &&& all.len() % 64 == 0
            &&& n + 9 <= all.len() < n + 9 + 64
            &&& all.take(n) == message
            &&& all[n] == 0x80
            &&& forall|i: int| n < i < end ==> #[trigger] all[i] == 0
            &&& number_of(all.skip(end)) == 8 * n
        }),
{
    let all = sha256::padded(message);
    let n = message.len() as int;
    let end = all.len() - 8;
    let tail = sha256::length_bytes(8 * message.len());
    let zeros = Seq::new(sha256::gap(message.len()), |i: int| 0u8);
    let front = message + seq![0x80u8] + zeros;
    eight_bytes(8 * message.len());
    gap_fills_up(message.len());
    assert(tail.len() == 8) by {
        tail_is_short(8 * message.len());
    }
    assert(all == front + tail);
    assert(front.len() == n + 1 + zeros.len());
    assert(all.take(n) =~= message);
    assert(all.skip(end) =~= tail);
    assert(all[n] == front[n]);
    assert forall|i: int| n < i < end implies #[trigger] all[i] == 0 by {
        assert(all[i] == front[i]);
        assert(front[i] == zeros[i - n - 1]);
    }
}

/// A hash is 32 bytes long.
pub proof fn hashes_have_one_length(message: Seq<u8>)
    ensures
        sha256::hash(message).len() == 32,
{
}

} // verus!
