//! The rectangle packer of the `guillotiere` crate, as the atlas uses it.
//!
//! A rectangle is written `(min_x, min_y, max_x, max_y)`.
use guillotiere::{size2, SimpleAtlasAllocator};
use vstd::multiset::Multiset;
use vstd::prelude::*;

verus! {

/// The packer of the `guillotiere` crate.
#[verifier::external_type_specification]
#[verifier::external_body]
pub struct ExSimpleAtlasAllocator(SimpleAtlasAllocator);

/// The free rectangles that a packer keeps (its `free_rects` lists, all
/// three read together).
pub uninterp spec fn free_rects(packer: SimpleAtlasAllocator) -> Multiset<(i32, i32, i32, i32)>;

/// The `(width, height)` that a packer was made with.
pub uninterp spec fn packer_size(packer: SimpleAtlasAllocator) -> (i32, i32);

/// Two rectangles share no area.
pub open spec fn rects_disjoint(a: (i32, i32, i32, i32), b: (i32, i32, i32, i32)) -> bool {
    a.2 <= b.0 || b.2 <= a.0 || a.3 <= b.1 || b.3 <= a.1
}

/// A rectangle lies within `[0, width] x [0, height]`.
pub open spec fn rect_within(r: (i32, i32, i32, i32), width: int, height: int) -> bool {
    0 <= r.0 <= r.2 <= width && 0 <= r.1 <= r.3 <= height
}

/// A rectangle is at least `width` wide and `height` high.
pub open spec fn rect_fits(r: (i32, i32, i32, i32), width: int, height: int) -> bool {
    r.2 - r.0 >= width && r.3 - r.1 >= height
}

/// The rectangle of `width` x `height` at the corner of `f`.
pub open spec fn corner_rect(f: (i32, i32, i32, i32), width: i32, height: i32) -> (i32, i32, i32, i32) {
    (f.0, f.1, (f.0 + width) as i32, (f.1 + height) as i32)
}

/// A rectangle's area, saturating at `i32::MAX` where it does not fit an `i32`.
pub open spec fn safe_area(r: (i32, i32, i32, i32)) -> int {
    let a = (r.2 - r.0) * (r.3 - r.1);
    if i32::MIN <= a <= i32::MAX { a } else { i32::MAX as int }
}

/// A rectangle as a free rectangle, when it is at least one unit wide and high.
pub open spec fn kept_free(r: (i32, i32, i32, i32)) -> Multiset<(i32, i32, i32, i32)> {
    if r.2 - r.0 >= 1 && r.3 - r.1 >= 1 { Multiset::singleton(r) } else { Multiset::empty() }
}

/// What is left free of `f` after `width` x `height` is taken at its corner:
/// nothing on an exact fit; otherwise the strip to the right of the taken
/// rectangle and the strip below it, the larger of the two running the
/// whole length of `f`.
pub open spec fn guillotine_pieces(f: (i32, i32, i32, i32), width: i32, height: i32) -> Multiset<(i32, i32, i32, i32)> {
    if width == f.2 - f.0 && height == f.3 - f.1 {
        Multiset::empty()
    } else {
        let right = ((f.0 + width) as i32, f.1, f.2, (f.1 + height) as i32);
        let bottom = (f.0, (f.1 + height) as i32, (f.0 + width) as i32, f.3);
        if safe_area(right) > safe_area(bottom) {
            kept_free(((f.0 + width) as i32, f.1, f.2, f.3)).add(kept_free(bottom))
        } else {
            kept_free((f.0, (f.1 + height) as i32, f.2, f.3)).add(kept_free(right))
        }
    }
}

/// `SimpleAtlasAllocator::new` with the default options: a packer of the
/// given size whose one free rectangle is the whole size.
#[verifier::external_body]
pub(crate) fn packer_new(width: i32, height: i32) -> (p: SimpleAtlasAllocator)
    requires
        0 <= width,
        0 <= height,
    ensures
        packer_size(p) == (width, height),
        free_rects(p) == Multiset::singleton((0i32, 0i32, width, height)),
{
    SimpleAtlasAllocator::new(size2(width, height))
}

/// `SimpleAtlasAllocator::allocate` on a packer made with the default options
/// (alignment 1).
///
/// A request of positive size is served exactly when some free rectangle is
/// at least that large; it is then placed at the corner of such a free
/// rectangle, which gives way to what is left of it beside the request.
/// Which of several large enough free rectangles it takes is left unsaid: the
/// crate picks one by its size buckets and fit scores.
#[verifier::external_body]
pub(crate) fn packer_allocate(p: &mut SimpleAtlasAllocator, width: i32, height: i32) -> (r: Option<
    (i32, i32, i32, i32),
>)
    requires
        0 <= packer_size(*old(p)).0,
        0 <= packer_size(*old(p)).1,
        forall|f: (i32, i32, i32, i32)| #[trigger]
            free_rects(*old(p)).count(f) > 0 ==> rect_within(
                f,
                packer_size(*old(p)).0 as int,
                packer_size(*old(p)).1 as int,
            ),
    ensures
        packer_size(*final(p)) == packer_size(*old(p)),
        r is Some <==> (0 < width && 0 < height && exists|f: (i32, i32, i32, i32)| #[trigger]
            free_rects(*old(p)).count(f) > 0 && rect_fits(f, width as int, height as int)),
        match r {
            Some(rect) => exists|f: (i32, i32, i32, i32)| #[trigger]
                free_rects(*old(p)).count(f) > 0 && rect_fits(f, width as int, height as int) && rect
                    == corner_rect(f, width, height) && free_rects(*final(p)) == free_rects(
                    *old(p),
                ).remove(f).add(guillotine_pieces(f, width, height)),
            None => free_rects(*final(p)) == free_rects(*old(p)),
        },
{
    p.allocate(size2(width, height)).map(|b| (b.min.x, b.min.y, b.max.x, b.max.y))
}

} // verus!
