//! Copies that are known to keep a value's view.

use crate::ids::{
    AreaId, CapsuleId, MemoryId, ProjectId, RelationId, ThreadId, TopicId, TurnId, VersionId,
    WorkspaceId,
};
use vstd::prelude::*;

verus! {

/// The views of the elements of a sequence.
pub open spec fn seq_view<T: View>(s: Seq<T>) -> Seq<T::V> {
    Seq::new(s.len(), |i: int| s[i]@)
}

/// The view of an optional value.
pub open spec fn opt_view<T: View>(o: Option<T>) -> Option<T::V> {
    match o {
        Some(x) => Some(x@),
        None => None,
    }
}

/// The view of an optional list of texts.
pub open spec fn opt_seq_view(o: Option<Vec<String>>) -> Option<Seq<Seq<char>>> {
    match o {
        Some(v) => Some(seq_view(v@)),
        None => None,
    }
}

/// A type whose values can be copied with their view intact.
pub trait Dup: View + Sized {
    /// A copy with the same view.
    fn dup(&self) -> (r: Self)
        ensures
            r@ == self@,
    ;
}

impl Dup for String {
    fn dup(&self) -> (r: Self) {
        self.clone()
    }
}

impl Dup for TurnId {
    fn dup(&self) -> (r: Self) {
        self.clone()
    }
}

impl Dup for ThreadId {
    fn dup(&self) -> (r: Self) {
        self.clone()
    }
}

impl Dup for MemoryId {
    fn dup(&self) -> (r: Self) {
        self.clone()
    }
}

impl Dup for CapsuleId {
    fn dup(&self) -> (r: Self) {
        self.clone()
    }
}

impl Dup for WorkspaceId {
    fn dup(&self) -> (r: Self) {
        self.clone()
    }
}

impl Dup for ProjectId {
    fn dup(&self) -> (r: Self) {
        self.clone()
    }
}

impl Dup for AreaId {
    fn dup(&self) -> (r: Self) {
        self.clone()
    }
}

impl Dup for TopicId {
    fn dup(&self) -> (r: Self) {
        self.clone()
    }
}

impl Dup for RelationId {
    fn dup(&self) -> (r: Self) {
        self.clone()
    }
}

impl Dup for VersionId {
    fn dup(&self) -> (r: Self) {
        self.clone()
    }
}

/// A copy of a list, element by element.
pub fn dup_vec<T: Dup>(v: &Vec<T>) -> (r: Vec<T>)
    ensures
        seq_view(r@) == seq_view(v@),
{
    let mut out: Vec<T> = Vec::new();
    let mut i: usize = 0;
    while i < v.len()
        invariant
            i <= v.len(),
            seq_view(out@) == seq_view(v@.take(i as int)),
        decreases v.len() - i,
    {
        let ghost before = out@;
        let x = v[i].dup();
        out.push(x);
        proof {
            assert(seq_view(out@) =~= seq_view(before).push(x@));
            assert(seq_view(v@.take(i + 1)) =~= seq_view(v@.take(i as int)).push(v@[i as int]@));
        }
        i += 1;
    }
    assert(v@.take(v.len() as int) =~= v@);
    out
}

/// A copy of an optional value.
pub fn dup_opt<T: Dup>(o: &Option<T>) -> (r: Option<T>)
    ensures
        opt_view(r) == opt_view(*o),
{
    match o {
        Some(x) => Some(x.dup()),
        None => None,
    }
}

/// A copy of an optional list of texts.
pub fn dup_opt_vec(o: &Option<Vec<String>>) -> (r: Option<Vec<String>>)
    ensures
        opt_seq_view(r) == opt_seq_view(*o),
{
    match o {
        Some(v) => Some(dup_vec(v)),
        None => None,
    }
}

} // verus!
