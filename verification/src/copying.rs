//! Copies that are known to keep the view of what they copy.

use vstd::prelude::*;

use crate::text;

verus! {

/// A type whose values can be copied without a change to their view.
pub trait Duplicate: View + Sized {
    /// A copy of the value.
    fn duplicate(&self) -> (r: Self)
        ensures
            r@ == self@,
    ;
}

impl Duplicate for String {
    fn duplicate(&self) -> (r: Self) {
        self.clone()
    }
}

impl Duplicate for i64 {
    fn duplicate(&self) -> (r: Self) {
        *self
    }
}

/// A copy of a list.
pub fn duplicate_all<T: Duplicate>(list: &Vec<T>) -> (r: Vec<T>)
    ensures
        text::views(r@) == text::views(list@),
        r@.len() == list@.len(),
{
    let mut out: Vec<T> = Vec::new();
    let mut i: usize = 0;
    while i < list.len()
        invariant
            i <= list.len(),
            out@.len() == i,
            forall|k: int| 0 <= k < i ==> #[trigger] out@[k]@ == list@[k]@,
        decreases list.len() - i,
    {
        out.push(list[i].duplicate());
        i = i + 1;
    }
    assert(text::views(out@) =~= text::views(list@));
    out
}

/// A copy of an optional value.
pub fn duplicate_opt<T: Duplicate>(value: &Option<T>) -> (r: Option<T>)
    ensures
        text::opt_view(r) == text::opt_view(*value),
{
    match value {
        Some(x) => Some(x.duplicate()),
        None => None,
    }
}

} // verus!
