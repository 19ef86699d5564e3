//! How values are described in contracts: by their deep views, which hold
//! sequences, options and integers in place of vectors and strings.
use vstd::prelude::*;

verus! {

/// Values that can be copied without changing what they hold.
pub trait Dup: DeepView + Sized {
    /// A copy that holds the same as `self`.
    fn dup(&self) -> (r: Self)
        ensures
            r.deep_view() == self.deep_view(),
    ;
}

impl Dup for String {
    fn dup(&self) -> (r: Self) {
        self.clone()
    }
}

impl<T: Dup> Dup for Option<T> {
    fn dup(&self) -> (r: Self) {
        match self {
            Some(x) => Some(x.dup()),
            None => None,
        }
    }
}

impl<A: Dup, B: Dup> Dup for (A, B) {
    fn dup(&self) -> (r: Self) {
        (self.0.dup(), self.1.dup())
    }
}

impl<T: Dup> Dup for Vec<T> {
    fn dup(&self) -> (r: Self) {
        let mut out: Vec<T> = Vec::new();
        let mut i: usize = 0;
        while i < self.len()
            invariant
                i <= self.len(),
                out.len() == i,
                forall|j: int| 0 <= j < i ==> (#[trigger] out@[j]).deep_view() == self@[j].deep_view(),
            decreases self.len() - i,
        {
            out.push(self[i].dup());
            i += 1;
        }
        assert(out.deep_view() =~= self.deep_view());
        out
    }
}

/// What a result holds.
pub open spec fn outcome<T: DeepView, E: DeepView>(r: Result<T, E>) -> Result<T::V, E::V> {
    match r {
        Ok(x) => Ok(x.deep_view()),
        Err(e) => Err(e.deep_view()),
    }
}

/// What a result without a value holds.
pub open spec fn verdict<E: DeepView>(r: Result<(), E>) -> Result<(), E::V> {
    match r {
        Ok(_) => Ok(()),
        Err(e) => Err(e.deep_view()),
    }
}

/// Appends one element.
pub fn put<T: DeepView>(list: &mut Vec<T>, x: T)
    ensures
        final(list)@ == old(list)@.push(x),
        final(list).deep_view() == old(list).deep_view().push(x.deep_view()),
{
    list.push(x);
    assert(list.deep_view() =~= old(list).deep_view().push(x.deep_view()));
}

/// Appends every element of `more`.
pub fn put_all<T: DeepView>(list: &mut Vec<T>, more: Vec<T>)
    ensures
        final(list).deep_view() == old(list).deep_view() + more.deep_view(),
{
    let mut rest = more;
    list.append(&mut rest);
    assert(list.deep_view() =~= old(list).deep_view() + more.deep_view());
}

/// A list of one element.
pub fn single<T: DeepView>(x: T) -> (r: Vec<T>)
    ensures
        r.deep_view() == seq![x.deep_view()],
{
    let mut r: Vec<T> = Vec::new();
    r.push(x);
    assert(r.deep_view() =~= seq![x.deep_view()]);
    r
}

/// A list of no element.
pub fn none<T: DeepView>() -> (r: Vec<T>)
    ensures
        r@ == Seq::<T>::empty(),
        r.deep_view() == Seq::<T::V>::empty(),
{
    let r: Vec<T> = Vec::new();
    assert(r.deep_view() =~= Seq::<T::V>::empty());
    r
}

} // verus!
