//! Collision layers: which class an entity belongs to and which classes it
//! is willing to collide with.
use vstd::prelude::*;

verus! {

/// Two 8-bit masks. `src` holds the entity's own class (conventionally one
/// bit per class); `dst` holds the classes it may collide with. The relation
/// between two tags is deliberately not symmetric.
#[derive(Clone, Copy, Debug, PartialEq, Eq, Structural)]
pub struct CollisionTag {
    pub src: u8,
    pub dst: u8,
}

/// `a` accepts collisions from `b`'s class.
pub open spec fn accepts(a: CollisionTag, b: CollisionTag) -> bool {
    a.dst & b.src != 0
}

/// A pair may interact when either side grants permission.
pub open spec fn permits(a: CollisionTag, b: CollisionTag) -> bool {
    accepts(b, a) || accepts(a, b)
}

impl CollisionTag {
    pub fn new(src: u8, dst: u8) -> (r: CollisionTag)
        ensures
            r.src == src,
            r.dst == dst,
    {
        CollisionTag { src, dst }
    }
}

/// Whether the layers of `a` and `b` let them interact.
pub fn tags_permit(a: &CollisionTag, b: &CollisionTag) -> (r: bool)
    ensures
        r == permits(*a, *b),
{
    (b.dst & a.src) != 0 || (a.dst & b.src) != 0
}

/// The permission test does not depend on the order of the pair, although
/// each direction of it alone does.
pub proof fn lemma_permits_symmetric(a: CollisionTag, b: CollisionTag)
    ensures
        permits(a, b) == permits(b, a),
{
}

} // verus!
