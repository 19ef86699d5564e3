//! The SHA-256 hash of a message.

use vstd::prelude::*;

verus! {

// ── Words ────────────────────────────────────────────────────────────────

/// A word turned right by `n` bits.
pub open spec fn rotated(x: u32, n: u32) -> u32 {
    (x >> n) | (x << ((32 - n) as u32))
}

/// The four bytes from `at` on as a word, the highest first.
pub open spec fn word(bytes: Seq<u8>, at: int) -> u32 {
    (bytes[at] * 0x100_0000 + bytes[at + 1] * 0x1_0000 + bytes[at + 2] * 0x100 + bytes[at + 3]) as u32
}

/// The bytes of a word, the highest first.
pub open spec fn word_bytes(x: u32) -> Seq<u8> {
    seq![
        (x / 0x100_0000) as u8,
        (x / 0x1_0000 % 0x100) as u8,
        (x / 0x100 % 0x100) as u8,
        (x % 0x100) as u8,
    ]
}

fn rotate(x: u32, n: u32) -> (r: u32)
    requires
        0 < n < 32,
    ensures
        r == rotated(x, n),
{
    (x >> n) | (x << (32 - n))
}

fn get_word(bytes: &Vec<u8>, at: usize) -> (r: u32)
    requires
        at + 4 <= bytes.len(),
    ensures
        r == word(bytes@, at as int),
{
    bytes[at] as u32 * 0x100_0000 + bytes[at + 1] as u32 * 0x1_0000 + bytes[at + 2] as u32 * 0x100
        + bytes[at + 3] as u32
}

fn put_word(out: &mut Vec<u8>, x: u32)
    ensures
        final(out)@ == old(out)@ + word_bytes(x),
{
    out.push((x / 0x100_0000) as u8);
    out.push((x / 0x1_0000 % 0x100) as u8);
    out.push((x / 0x100 % 0x100) as u8);
    out.push((x % 0x100) as u8);
    assert(out@ =~= old(out)@ + word_bytes(x));
}

// ── Padding ──────────────────────────────────────────────────────────────

/// How many zero bytes stand between the end mark of a message and its length.
pub open spec fn gap(len: nat) -> nat {
    ((119 - len % 64) % 64) as nat
}

/// The low 64 bits of a number as bytes, the highest first.
pub open spec fn length_bytes(bits: nat) -> Seq<u8> {
    seq![
        (bits / 0x100_0000_0000_0000 % 0x100) as u8,
        (bits / 0x1_0000_0000_0000 % 0x100) as u8,
        (bits / 0x100_0000_0000 % 0x100) as u8,
        (bits / 0x1_0000_0000 % 0x100) as u8,
        (bits / 0x100_0000 % 0x100) as u8,
        (bits / 0x1_0000 % 0x100) as u8,
        (bits / 0x100 % 0x100) as u8,
        (bits % 0x100) as u8,
    ]
}

/// A message filled up to whole blocks of 64 bytes: an end mark, zeros, and its
/// length in bits.
pub open spec fn padded(message: Seq<u8>) -> Seq<u8> {
    message + seq![0x80u8] + Seq::new(gap(message.len()), |i: int| 0u8) + length_bytes(
        8 * message.len(),
    )
}

proof fn whole_blocks(len: int)
    requires
        0 <= len,
    ensures
        (len + 1 + (119 - len % 64) % 64 + 8) % 64 == 0,
{
}

fn put_length(out: &mut Vec<u8>, len: usize)
    ensures
        final(out)@ == old(out)@ + length_bytes(8 * len as nat),
{
    let bits: u128 = len as u128 * 8;
    out.push((bits / 0x100_0000_0000_0000 % 0x100) as u8);
    out.push((bits / 0x1_0000_0000_0000 % 0x100) as u8);
    out.push((bits / 0x100_0000_0000 % 0x100) as u8);
    out.push((bits / 0x1_0000_0000 % 0x100) as u8);
    out.push((bits / 0x100_0000 % 0x100) as u8);
    out.push((bits / 0x1_0000 % 0x100) as u8);
    out.push((bits / 0x100 % 0x100) as u8);
    out.push((bits % 0x100) as u8);
    assert(out@ =~= old(out)@ + length_bytes(8 * len as nat));
}

fn pad(message: &[u8]) -> (r: Vec<u8>)
    ensures
        r@ == padded(message@),
        r.len() % 64 == 0,
{
    let len: usize = message.len();
    let mut out: Vec<u8> = Vec::new();
    let mut i: usize = 0;
    while i < len
        invariant
            i <= len,
            len == message.len(),
            out@ == message@.take(i as int),
        decreases len - i,
    {
        out.push(message[i]);
        assert(message@.take(i + 1) =~= message@.take(i as int).push(message@[i as int]));
        i += 1;
    }
    assert(message@.take(len as int) =~= message@);
    out.push(0x80);
    let zeros: usize = (119 - len % 64) % 64;
    let mut k: usize = 0;
    while k < zeros
        invariant
            k <= zeros,
            out@ == message@ + seq![0x80u8] + Seq::new(k as nat, |i: int| 0u8),
        decreases zeros - k,
    {
        out.push(0);
        k += 1;
        assert(out@ =~= message@ + seq![0x80u8] + Seq::new(k as nat, |i: int| 0u8));
    }
    put_length(&mut out, len);
    proof {
        whole_blocks(len as int);
    }
    assert(out@ =~= padded(message@));
    out
}

// ── Blocks ───────────────────────────────────────────────────────────────

/// The word that round `t` mixes in, for the block that starts at `at`.
pub open spec fn scheduled(bytes: Seq<u8>, at: int, t: nat) -> u32
    decreases t,
{
    if t < 16 {
        word(bytes, at + 4 * t)
    } else {
        let early = scheduled(bytes, at, (t - 15) as nat);
        let late = scheduled(bytes, at, (t - 2) as nat);
        scheduled(bytes, at, (t - 16) as nat).wrapping_add(
            rotated(early, 7) ^ rotated(early, 18) ^ (early >> 3u32),
        ).wrapping_add(scheduled(bytes, at, (t - 7) as nat)).wrapping_add(
            rotated(late, 17) ^ rotated(late, 19) ^ (late >> 10u32),
        )
    }
}

/// The eight words that are mixed.
#[derive(Clone, Copy)]
pub struct Mix {
    pub a: u32,
    pub b: u32,
    pub c: u32,
    pub d: u32,
    pub e: u32,
    pub f: u32,
    pub g: u32,
    pub h: u32,
}

/// One round, with its constant and its word.
pub open spec fn mixed(s: Mix, k: u32, w: u32) -> Mix {
    let high = rotated(s.e, 6) ^ rotated(s.e, 11) ^ rotated(s.e, 25);
    let choice = (s.e & s.f) ^ (!s.e & s.g);
    let first = s.h.wrapping_add(high).wrapping_add(choice).wrapping_add(k).wrapping_add(w);
    let low = rotated(s.a, 2) ^ rotated(s.a, 13) ^ rotated(s.a, 22);
    let majority = (s.a & s.b) ^ (s.a & s.c) ^ (s.b & s.c);
    Mix {
        a: first.wrapping_add(low.wrapping_add(majority)),
        b: s.a,
        c: s.b,
        d: s.c,
        e: s.d.wrapping_add(first),
        f: s.e,
        g: s.f,
        h: s.g,
    }
}

/// The constants of the rounds.
pub const ROUNDS: [u32; 64] = [
    0x428a2f98, 0x71374491, 0xb5c0fbcf, 0xe9b5dba5, 0x3956c25b, 0x59f111f1, 0x923f82a4, 0xab1c5ed5,
    0xd807aa98, 0x12835b01, 0x243185be, 0x550c7dc3, 0x72be5d74, 0x80deb1fe, 0x9bdc06a7, 0xc19bf174,
    0xe49b69c1, 0xefbe4786, 0x0fc19dc6, 0x240ca1cc, 0x2de92c6f, 0x4a7484aa, 0x5cb0a9dc, 0x76f988da,
    0x983e5152, 0xa831c66d, 0xb00327c8, 0xbf597fc7, 0xc6e00bf3, 0xd5a79147, 0x06ca6351, 0x14292967,
    0x27b70a85, 0x2e1b2138, 0x4d2c6dfc, 0x53380d13, 0x650a7354, 0x766a0abb, 0x81c2c92e, 0x92722c85,
    0xa2bfe8a1, 0xa81a664b, 0xc24b8b70, 0xc76c51a3, 0xd192e819, 0xd6990624, 0xf40e3585, 0x106aa070,
    0x19a4c116, 0x1e376c08, 0x2748774c, 0x34b0bcb5, 0x391c0cb3, 0x4ed8aa4a, 0x5b9cca4f, 0x682e6ff3,
    0x748f82ee, 0x78a5636f, 0x84c87814, 0x8cc70208, 0x90befffa, 0xa4506ceb, 0xbef9a3f7, 0xc67178f2,
];

/// The first `t` rounds on the block that starts at `at`.
pub open spec fn rounds(s: Mix, bytes: Seq<u8>, at: int, t: nat) -> Mix
    decreases t,
{
    if t == 0 {
        s
    } else {
        let last = (t - 1) as nat;
        mixed(rounds(s, bytes, at, last), ROUNDS[last as int], scheduled(bytes, at, last))
    }
}

/// Two mixes added word by word.
pub open spec fn summed(x: Mix, y: Mix) -> Mix {
    Mix {
        a: x.a.wrapping_add(y.a),
        b: x.b.wrapping_add(y.b),
        c: x.c.wrapping_add(y.c),
        d: x.d.wrapping_add(y.d),
        e: x.e.wrapping_add(y.e),
        f: x.f.wrapping_add(y.f),
        g: x.g.wrapping_add(y.g),
        h: x.h.wrapping_add(y.h),
    }
}

/// The mix that hashing starts from.
pub open spec fn initial() -> Mix {
    Mix {
        a: 0x6a09e667,
        b: 0xbb67ae85,
        c: 0x3c6ef372,
        d: 0xa54ff53a,
        e: 0x510e527f,
        f: 0x9b05688c,
        g: 0x1f83d9ab,
        h: 0x5be0cd19,
    }
}

/// The mix after the first `n` blocks.
pub open spec fn absorbed(bytes: Seq<u8>, n: nat) -> Mix
    decreases n,
{
    if n == 0 {
        initial()
    } else {
        let before = absorbed(bytes, (n - 1) as nat);
        summed(before, rounds(before, bytes, 64 * (n - 1), 64))
    }
}

/// The words of a mix, as bytes.
pub open spec fn mix_bytes(s: Mix) -> Seq<u8> {
    word_bytes(s.a) + word_bytes(s.b) + word_bytes(s.c) + word_bytes(s.d) + word_bytes(s.e)
        + word_bytes(s.f) + word_bytes(s.g) + word_bytes(s.h)
}

/// The SHA-256 hash of a message, 32 bytes.
pub open spec fn hash(message: Seq<u8>) -> Seq<u8> {
    let bytes = padded(message);
    mix_bytes(absorbed(bytes, bytes.len() / 64))
}

fn schedule(bytes: &Vec<u8>, at: usize) -> (r: Vec<u32>)
    requires
        at + 64 <= bytes.len(),
    ensures
        r.len() == 64,
        forall|j: int| 0 <= j < 64 ==> #[trigger] r@[j] == scheduled(bytes@, at as int, j as nat),
{
    let mut out: Vec<u32> = Vec::new();
    let mut t: usize = 0;
    while t < 64
        invariant
            t <= 64,
            out.len() == t,
            at + 64 <= bytes.len(),
            forall|j: int|
                0 <= j < t ==> #[trigger] out@[j] == scheduled(bytes@, at as int, j as nat),
        decreases 64 - t,
    {
        let w: u32 = if t < 16 {
            get_word(bytes, at + 4 * t)
        } else {
            let early: u32 = out[t - 15];
            let late: u32 = out[t - 2];
            out[t - 16].wrapping_add(rotate(early, 7) ^ rotate(early, 18) ^ (early >> 3u32)).wrapping_add(
                out[t - 7],
            ).wrapping_add(rotate(late, 17) ^ rotate(late, 19) ^ (late >> 10u32))
        };
        out.push(w);
        t += 1;
    }
    out
}

fn mix(s: Mix, k: u32, w: u32) -> (r: Mix)
    ensures
        r == mixed(s, k, w),
{
    let high: u32 = rotate(s.e, 6) ^ rotate(s.e, 11) ^ rotate(s.e, 25);
    let choice: u32 = (s.e & s.f) ^ (!s.e & s.g);
    let first: u32 = s.h.wrapping_add(high).wrapping_add(choice).wrapping_add(k).wrapping_add(w);
    let low: u32 = rotate(s.a, 2) ^ rotate(s.a, 13) ^ rotate(s.a, 22);
    let majority: u32 = (s.a & s.b) ^ (s.a & s.c) ^ (s.b & s.c);
    Mix {
        a: first.wrapping_add(low.wrapping_add(majority)),
        b: s.a,
        c: s.b,
        d: s.c,
        e: s.d.wrapping_add(first),
        f: s.e,
        g: s.f,
        h: s.g,
    }
}

fn absorb(s: Mix, bytes: &Vec<u8>, at: usize) -> (r: Mix)
    requires
        at + 64 <= bytes.len(),
    ensures
        r == summed(s, rounds(s, bytes@, at as int, 64)),
{
    let words = schedule(bytes, at);
    let mut m = s;
    let mut t: usize = 0;
    while t < 64
        invariant
            t <= 64,
            words.len() == 64,
            forall|j: int|
                0 <= j < 64 ==> #[trigger] words@[j] == scheduled(bytes@, at as int, j as nat),
            m == rounds(s, bytes@, at as int, t as nat),
        decreases 64 - t,
    {
        m = mix(m, ROUNDS[t], words[t]);
        t += 1;
    }
    Mix {
        a: s.a.wrapping_add(m.a),
        b: s.b.wrapping_add(m.b),
        c: s.c.wrapping_add(m.c),
        d: s.d.wrapping_add(m.d),
        e: s.e.wrapping_add(m.e),
        f: s.f.wrapping_add(m.f),
        g: s.g.wrapping_add(m.g),
        h: s.h.wrapping_add(m.h),
    }
}

/// The SHA-256 hash of a message.
pub fn sha256(message: &[u8]) -> (r: Vec<u8>)
    ensures
        r@ == hash(message@),
        r.len() == 32,
{
    let bytes = pad(message);
    let mut s = Mix {
        a: 0x6a09e667,
        b: 0xbb67ae85,
        c: 0x3c6ef372,
        d: 0xa54ff53a,
        e: 0x510e527f,
        f: 0x9b05688c,
        g: 0x1f83d9ab,
        h: 0x5be0cd19,
    };
    let ghost mut n: nat = 0;
    let mut at: usize = 0;
    while at < bytes.len()
        invariant
            at <= bytes.len(),
            bytes.len() % 64 == 0,
            at == 64 * n,
            s == absorbed(bytes@, n),
        decreases bytes.len() - at,
    {
        s = absorb(s, &bytes, at);
        at += 64;
        proof {
            n = n + 1;
        }
    }
    let mut out: Vec<u8> = Vec::new();
    put_word(&mut out, s.a);
    put_word(&mut out, s.b);
    put_word(&mut out, s.c);
    put_word(&mut out, s.d);
    put_word(&mut out, s.e);
    put_word(&mut out, s.f);
    put_word(&mut out, s.g);
    put_word(&mut out, s.h);
    assert(out@ =~= mix_bytes(s));
    out
}

} // verus!
