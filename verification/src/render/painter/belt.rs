//! The append-only vector of the `vec_belt` crate, as the painter uses it:
//! one for quads and one for requests.
use crate::render::painter::vertex::{RequestKey, Vertex};
use vec_belt::VecBelt;
use vstd::prelude::*;

verus! {

/// The append-only vector of the `vec_belt` crate.
#[verifier::external_type_specification]
#[verifier::external_body]
#[verifier::reject_recursive_types(T)]
pub struct ExVecBelt<T>(VecBelt<T>);

/// The quads that a belt holds, in order.
pub uninterp spec fn quad_belt(b: VecBelt<[Vertex; 4]>) -> Seq<[Vertex; 4]>;

/// The requests that a belt holds, in order.
pub uninterp spec fn request_belt(b: VecBelt<(usize, RequestKey)>) -> Seq<(usize, RequestKey)>;

/// The most items a belt is given here: it keeps the belt's length clear of
/// its lock bit and its allocations within what a layout may describe.
pub open spec fn belt_limit() -> int {
    (usize::MAX / 256) as int
}

/// `VecBelt::new` for quads: an empty belt with room for `initial` quads.
#[verifier::external_body]
pub(crate) fn quad_belt_new(initial: usize) -> (b: VecBelt<[Vertex; 4]>)
    requires
        initial <= belt_limit(),
    ensures
        quad_belt(b) == Seq::<[Vertex; 4]>::empty(),
{
    VecBelt::new(initial)
}

/// `VecBelt::append` for quads: the quads go after those already there, and
/// the result is the position of the first of them.
#[verifier::external_body]
pub(crate) fn quad_belt_append(b: &mut VecBelt<[Vertex; 4]>, items: Vec<[Vertex; 4]>) -> (first: usize)
    requires
        quad_belt(*old(b)).len() + items@.len() <= belt_limit(),
    ensures
        first == quad_belt(*old(b)).len(),
        quad_belt(*final(b)) == quad_belt(*old(b)) + items@,
{
    b.append(items)
}

/// `VecBelt::clear` for quads: hands out every quad, in order, and leaves
/// the belt empty.
#[verifier::external_body]
pub(crate) fn quad_belt_take(b: &mut VecBelt<[Vertex; 4]>) -> (items: Vec<[Vertex; 4]>)
    ensures
        items@ == quad_belt(*old(b)),
        quad_belt(*final(b)) == Seq::<[Vertex; 4]>::empty(),
{
    b.clear(|slice| slice.into_iter().collect())
}

/// `VecBelt::len` for quads: the number of quads the belt holds.
#[verifier::external_body]
pub(crate) fn quad_belt_len(b: &VecBelt<[Vertex; 4]>) -> (n: usize)
    ensures
        n == quad_belt(*b).len(),
{
    b.len()
}

/// `VecBelt::len` for requests: the number of requests the belt holds.
#[verifier::external_body]
pub(crate) fn request_belt_len(b: &VecBelt<(usize, RequestKey)>) -> (n: usize)
    ensures
        n == request_belt(*b).len(),
{
    b.len()
}

/// `VecBelt::new` for requests: an empty belt with room for `initial`
/// requests.
#[verifier::external_body]
pub(crate) fn request_belt_new(initial: usize) -> (b: VecBelt<(usize, RequestKey)>)
    requires
        initial <= belt_limit(),
    ensures
        request_belt(b) == Seq::<(usize, RequestKey)>::empty(),
{
    VecBelt::new(initial)
}

/// `VecBelt::append` for requests: the requests go after those already
/// there, and the result is the position of the first of them.
#[verifier::external_body]
pub(crate) fn request_belt_append(b: &mut VecBelt<(usize, RequestKey)>, items: Vec<(usize, RequestKey)>) -> (first: usize)
    requires
        request_belt(*old(b)).len() + items@.len() <= belt_limit(),
    ensures
        first == request_belt(*old(b)).len(),
        request_belt(*final(b)) == request_belt(*old(b)) + items@,
{
    b.append(items)
}

/// `VecBelt::clear` for requests: hands out every request, in order, and
/// leaves the belt empty.
#[verifier::external_body]
pub(crate) fn request_belt_take(b: &mut VecBelt<(usize, RequestKey)>) -> (items: Vec<(usize, RequestKey)>)
    ensures
        items@ == request_belt(*old(b)),
        request_belt(*final(b)) == Seq::<(usize, RequestKey)>::empty(),
{
    b.clear(|slice| slice.into_iter().collect())
}

} // verus!
