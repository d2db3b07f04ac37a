//! Atlas pages: square textures into which sprites are packed, each sprite
//! padded by one texel on every side.
use crate::render::atlas::packer::{
    corner_rect, free_rects, guillotine_pieces, packer_allocate, packer_new, packer_size, rect_fits,
    rect_within, rects_disjoint,
};
use crate::math::{URect, UVec2, urects_disjoint};
use guillotiere::SimpleAtlasAllocator;
use vstd::multiset::Multiset;
use vstd::prelude::*;

verus! {

/// The largest side of an atlas page, whatever the device allows.
pub const MAX_PAGE_SIZE: u32 = 8192;

/// The region that a padded packed rectangle leaves for the sprite: one texel
/// less on every side.
pub open spec fn inset(r: (i32, i32, i32, i32)) -> URect {
    URect {
        min: UVec2 { x: (r.0 + 1) as u32, y: (r.1 + 1) as u32 },
        max: UVec2 { x: (r.2 - 1) as u32, y: (r.3 - 1) as u32 },
    }
}

/// What a page is: its texture (by the asset index of the image, in bit form)
/// and the texture's size in texels.
#[derive(Clone, Copy, Debug, PartialEq, Eq, Structural)]
pub struct PageInfo {
    pub texture: u64,
    pub texture_size: UVec2,
}

/// Where a sprite was packed: its page and its texel rectangle there.
#[derive(Clone, Copy, Debug, PartialEq, Eq, Structural)]
pub struct AtlasInfo {
    pub page: PageInfo,
    pub rect: URect,
}

impl AtlasInfo {
    /// The sprite's texel bounds, `min` then `max`; divided by the page's
    /// texture size they are the sprite's UVs.
    pub fn uvs(&self) -> (r: [UVec2; 2])
        ensures
            r@ == seq![self.rect.min, self.rect.max],
    {
        [self.rect.min, self.rect.max]
    }

    /// The sprite's four corners in texels, in the order the painter's quad
    /// vertices take them: `(min x, max y)`, `(max x, max y)`,
    /// `(max x, min y)`, `(min x, min y)`; divided by the page's texture
    /// size they are the corners' UVs.
    pub fn uv_corners(&self) -> (r: [UVec2; 4])
        ensures
            r@ == seq![
                UVec2 { x: self.rect.min.x, y: self.rect.max.y },
                UVec2 { x: self.rect.max.x, y: self.rect.max.y },
                UVec2 { x: self.rect.max.x, y: self.rect.min.y },
                UVec2 { x: self.rect.min.x, y: self.rect.min.y },
            ],
    {
        let uvs = self.uvs();
        let uv0 = uvs[0];
        let uv1 = uvs[1];
        [UVec2 { x: uv0.x, y: uv1.y }, UVec2 { x: uv1.x, y: uv1.y }, UVec2 { x: uv1.x, y: uv0.y }, UVec2 { x: uv0.x, y: uv0.y }]
    }
}

/// Sprite pixels waiting to be written into a page texture.
pub struct AtlasWrite {
    pub page: u64,
    pub data: Vec<u8>,
    pub rect: URect,
}

/// Rectangle `a` lies inside rectangle `f`.
pub open spec fn rect_inside(a: (i32, i32, i32, i32), f: (i32, i32, i32, i32)) -> bool {
    f.0 <= a.0 <= a.2 <= f.2 && f.1 <= a.1 <= a.3 <= f.3
}

/// What a page's packer and the rectangles it handed out keep to, in a page
/// of `width` x `height`: every free rectangle lies in the page and occurs
/// once, the packed rectangles lie in the page and leave room for a texel of
/// padding, and no two of all these rectangles overlap.
pub open spec fn packing_inv(
    free: Multiset<(i32, i32, i32, i32)>,
    packed: Set<(i32, i32, i32, i32)>,
    width: int,
    height: int,
) -> bool {
    &&& forall|f: (i32, i32, i32, i32)| #[trigger] free.count(f) > 0 ==> rect_within(f, width, height) && free.count(f)
        == 1
    &&& forall|f: (i32, i32, i32, i32), g: (i32, i32, i32, i32)|
        #[trigger] free.count(f) > 0 && #[trigger] free.count(g) > 0 && f != g ==> rects_disjoint(f, g)
    &&& forall|r: (i32, i32, i32, i32)| #[trigger]
        packed.contains(r) ==> rect_within(r, width, height) && r.2 - r.0 >= 2 && r.3 - r.1 >= 2
    &&& forall|r: (i32, i32, i32, i32), q: (i32, i32, i32, i32)|
        #[trigger] packed.contains(r) && #[trigger] packed.contains(q) && r != q ==> rects_disjoint(r, q)
    &&& forall|r: (i32, i32, i32, i32), f: (i32, i32, i32, i32)|
        #[trigger] packed.contains(r) && #[trigger] free.count(f) > 0 ==> rects_disjoint(r, f)
}

/// `after` is page `before` with a sprite of `size` texels packed at the
/// corner of its free rectangle `f`, padded by a texel on every side: the
/// padded rectangle joins what is packed, the sprite gets the region `rect`
/// inside it, and `f` gives way to what the packer leaves free of it.
pub open spec fn carved(before: AtlasPage, after: AtlasPage, f: (i32, i32, i32, i32), size: UVec2, rect: URect) -> bool {
    let c = corner_rect(f, (size.x + 2) as i32, (size.y + 2) as i32);
    &&& before.free().count(f) > 0
    &&& rect_fits(f, size.x + 2, size.y + 2)
    &&& rect == inset(c)
    &&& !before.packed().contains(c)
    &&& after.packed() == before.packed().insert(c)
    &&& after.free() == before.free().remove(f).add(guillotine_pieces(f, (size.x + 2) as i32, (size.y + 2) as i32))
    &&& after.spec_info() == before.spec_info()
}

/// A page: its packer, what it is, and the padded rectangles packed so far.
pub struct AtlasPage {
    packer: SimpleAtlasAllocator,
    info: PageInfo,
    packed: Ghost<Set<(i32, i32, i32, i32)>>,
}

impl AtlasPage {
    pub closed spec fn spec_info(&self) -> PageInfo {
        self.info
    }

    /// The padded rectangles packed so far.
    pub closed spec fn packed(&self) -> Set<(i32, i32, i32, i32)> {
        self.packed@
    }

    /// The free rectangles of the page's packer.
    pub closed spec fn free(&self) -> Multiset<(i32, i32, i32, i32)> {
        free_rects(self.packer)
    }

    /// Whether a sprite of `size` texels, padded by a texel on every side,
    /// fits some free rectangle of the page.
    pub open spec fn has_room(&self, size: UVec2) -> bool {
        exists|f: (i32, i32, i32, i32)| #[trigger] self.free().count(f) > 0 && rect_fits(f, size.x + 2, size.y + 2)
    }

    /// The regions handed out to sprites so far.
    pub open spec fn regions(&self) -> Set<URect> {
        self.packed().map(|r: (i32, i32, i32, i32)| inset(r))
    }

    /// The packer matches the texture, and what it packed and what it keeps
    /// free lie inside the texture without overlap.
    pub closed spec fn wf(&self) -> bool {
        let (w, h) = (self.info.texture_size.x, self.info.texture_size.y);
        &&& w <= MAX_PAGE_SIZE && h <= MAX_PAGE_SIZE
        &&& w == h
        &&& packer_size(self.packer) == (w as i32, h as i32)
        &&& packing_inv(self.free(), self.packed(), w as int, h as int)
    }

    pub fn info(&self) -> (i: PageInfo)
        ensures
            i == self.spec_info(),
    {
        self.info
    }

    /// An empty page of `size` x `size` texels whose texture is `texture`:
    /// the whole page is free.
    pub fn new(texture: u64, size: u32) -> (page: AtlasPage)
        requires
            size <= MAX_PAGE_SIZE,
        ensures
            page.wf(),
            page.spec_info() == (PageInfo { texture, texture_size: UVec2 { x: size, y: size } }),
            page.packed() == Set::<(i32, i32, i32, i32)>::empty(),
            page.free() == Multiset::singleton((0i32, 0i32, size as i32, size as i32)),
    {
        let packer = packer_new(size as i32, size as i32);
        let page = AtlasPage {
            packer,
            info: PageInfo { texture, texture_size: UVec2 { x: size, y: size } },
            packed: Ghost(Set::empty()),
        };
        proof {
            broadcast use vstd::multiset::group_multiset_axioms;

            let f0 = (0i32, 0i32, size as i32, size as i32);
            assert forall|f: (i32, i32, i32, i32)| #[trigger] page.free().count(f) > 0 implies f == f0 by {}
        }
        page
    }

    /// Packs a sprite of `size` texels with one texel of padding around it,
    /// which succeeds exactly when some free rectangle of the page is large
    /// enough: the padded rectangle is placed at the corner of one such free
    /// rectangle and the sprite's pixels are queued for writing into the
    /// region it got. Otherwise they are handed back and nothing changes.
    pub fn try_pack(&mut self, requests: &mut Vec<AtlasWrite>, data: Vec<u8>, size: UVec2) -> (r:
        Result<AtlasInfo, Vec<u8>>)
        requires
            old(self).wf(),
            size.x <= MAX_PAGE_SIZE,
            size.y <= MAX_PAGE_SIZE,
        ensures
            final(self).wf(),
            final(self).spec_info() == old(self).spec_info(),
            r is Ok <==> old(self).has_room(size),
            match r {
                Ok(info) => {
                    &&& info.page == old(self).spec_info()
                    &&& info.rect.spec_size() == (size.x as int, size.y as int)
                    &&& exists|f: (i32, i32, i32, i32)| #[trigger] carved(*old(self), *final(self), f, size, info.rect)
                    &&& final(self).regions() == old(self).regions().insert(info.rect)
                    &&& final(requests)@ == old(requests)@.push(
                        AtlasWrite { page: old(self).spec_info().texture, data, rect: info.rect },
                    )
                },
                Err(back) => {
                    &&& back == data
                    &&& final(self).packed() == old(self).packed()
                    &&& final(self).free() == old(self).free()
                    &&& final(requests)@ == old(requests)@
                },
            },
    {
        let width = size.x as i32 + 2;
        let height = size.y as i32 + 2;
        let ghost old_free = self.free();
        let ghost old_packed = self.packed();
        match packer_allocate(&mut self.packer, width, height) {
            Some(p) => {
                proof {
                    let f = choose|f: (i32, i32, i32, i32)| #[trigger]
                        old_free.count(f) > 0 && rect_fits(f, width as int, height as int) && p
                            == corner_rect(f, width, height) && free_rects(self.packer) == old_free.remove(f).add(
                            guillotine_pieces(f, width, height),
                        );
                    lemma_carve(
                        old_free,
                        old_packed,
                        f,
                        width,
                        height,
                        self.info.texture_size.x as int,
                        self.info.texture_size.y as int,
                    );
                    assert(old_free.count(f) > 0 && rect_fits(f, size.x + 2, size.y + 2));
                }
                self.packed = Ghost(self.packed@.insert(p));
                let rect = URect {
                    min: UVec2 { x: p.0 as u32 + 1, y: p.1 as u32 + 1 },
                    max: UVec2 { x: p.2 as u32 - 1, y: p.3 as u32 - 1 },
                };
                assert(rect == inset(p));
                proof {
                    let f = choose|f: (i32, i32, i32, i32)| #[trigger]
                        old_free.count(f) > 0 && rect_fits(f, width as int, height as int) && p
                            == corner_rect(f, width, height) && free_rects(self.packer) == old_free.remove(f).add(
                            guillotine_pieces(f, width, height),
                        );
                    assert(width == (size.x + 2) as i32 && height == (size.y + 2) as i32);
                    assert(carved(*old(self), *self, f, size, rect));
                    let np = self.packed();
                    let op = old(self).packed();
                    assert forall|x: URect| #[trigger] self.regions().contains(x) == old(self).regions().insert(rect).contains(x) by {
                        if self.regions().contains(x) {
                            let y = choose|y: (i32, i32, i32, i32)| np.contains(y) && inset(y) == x;
                            if y != p {
                                assert(op.contains(y));
                            }
                        }
                        if old(self).regions().contains(x) {
                            let y = choose|y: (i32, i32, i32, i32)| op.contains(y) && inset(y) == x;
                            assert(np.contains(y));
                        }
                        if x == rect {
                            assert(np.contains(p));
                        }
                    }
                    assert(self.regions() =~= old(self).regions().insert(rect));
                }
                requests.push(AtlasWrite { page: self.info.texture, data, rect });
                Ok(AtlasInfo { page: self.info, rect })
            },
            None => {
                proof {
                    if exists|f: (i32, i32, i32, i32)| #[trigger]
                        old_free.count(f) > 0 && rect_fits(f, size.x + 2, size.y + 2) {
                        let f = choose|f: (i32, i32, i32, i32)| #[trigger]
                            old_free.count(f) > 0 && rect_fits(f, size.x + 2, size.y + 2);
                        assert(rect_fits(f, width as int, height as int));
                    }
                }
                Err(data)
            },
        }
    }
}

/// Carving `width` x `height` out of the corner of the free rectangle `f`
/// keeps the packing invariant, with the carved rectangle packed.
proof fn lemma_carve(
    free: Multiset<(i32, i32, i32, i32)>,
    packed: Set<(i32, i32, i32, i32)>,
    f: (i32, i32, i32, i32),
    width: i32,
    height: i32,
    w: int,
    h: int,
)
    requires
        packing_inv(free, packed, w, h),
        free.count(f) > 0,
        rect_fits(f, width as int, height as int),
        width >= 2,
        height >= 2,
    ensures
        packing_inv(
            free.remove(f).add(guillotine_pieces(f, width, height)),
            packed.insert(corner_rect(f, width, height)),
            w,
            h,
        ),
        !packed.contains(corner_rect(f, width, height)),
{
    broadcast use vstd::multiset::group_multiset_axioms;

    let c = corner_rect(f, width, height);
    let pieces = guillotine_pieces(f, width, height);
    let nf = free.remove(f).add(pieces);
    let np = packed.insert(c);
    lemma_pieces(f, width, height);
    assert(rect_within(f, w, h));
    assert(rect_inside(c, f));
    if packed.contains(c) {
        assert(rects_disjoint(c, f));
    }
    assert forall|x: (i32, i32, i32, i32)| #[trigger] nf.count(x) > 0 implies rect_within(x, w, h) && nf.count(x) == 1 by {
        if pieces.count(x) > 0 {
            if x != f && free.count(x) > 0 {
                assert(rects_disjoint(x, f));
            }
        }
    }
    assert forall|x: (i32, i32, i32, i32), y: (i32, i32, i32, i32)|
        #[trigger] nf.count(x) > 0 && #[trigger] nf.count(y) > 0 && x != y implies rects_disjoint(x, y) by {
        if pieces.count(x) > 0 && pieces.count(y) == 0 {
            assert(free.count(y) > 0 && y != f);
            assert(rects_disjoint(f, y));
        } else if pieces.count(y) > 0 && pieces.count(x) == 0 {
            assert(free.count(x) > 0 && x != f);
            assert(rects_disjoint(f, x));
        } else if pieces.count(x) == 0 && pieces.count(y) == 0 {
            assert(free.count(x) > 0 && free.count(y) > 0);
        }
    }
    assert forall|r: (i32, i32, i32, i32)| #[trigger] np.contains(r) implies rect_within(r, w, h) && r.2 - r.0 >= 2
        && r.3 - r.1 >= 2 by {
        if r != c {
            assert(packed.contains(r));
        }
    }
    assert forall|r: (i32, i32, i32, i32), q: (i32, i32, i32, i32)|
        #[trigger] np.contains(r) && #[trigger] np.contains(q) && r != q implies rects_disjoint(r, q) by {
        if r == c {
            assert(packed.contains(q));
            assert(rects_disjoint(q, f));
        } else if q == c {
            assert(packed.contains(r));
            assert(rects_disjoint(r, f));
        } else {
            assert(packed.contains(r) && packed.contains(q));
        }
    }
    assert forall|r: (i32, i32, i32, i32), x: (i32, i32, i32, i32)|
        #[trigger] np.contains(r) && #[trigger] nf.count(x) > 0 implies rects_disjoint(r, x) by {
        if r == c {
            if pieces.count(x) == 0 {
                assert(free.count(x) > 0 && x != f);
                assert(rects_disjoint(f, x));
            }
        } else {
            assert(packed.contains(r));
            if pieces.count(x) > 0 {
                assert(rects_disjoint(r, f));
            } else {
                assert(free.count(x) > 0);
            }
        }
    }
}

/// What is left of `f` beside the carved corner: at most two rectangles,
/// each inside `f`, at least a unit wide and high, once each, apart from
/// each other and from the carved corner.
proof fn lemma_pieces(f: (i32, i32, i32, i32), width: i32, height: i32)
    requires
        rect_fits(f, width as int, height as int),
        width >= 1,
        height >= 1,
        f.0 <= f.2,
        f.1 <= f.3,
    ensures
        rect_inside(corner_rect(f, width, height), f),
        forall|x: (i32, i32, i32, i32)| #[trigger] guillotine_pieces(f, width, height).count(x) > 0 ==> {
            &&& rect_inside(x, f)
            &&& x.0 < x.2 && x.1 < x.3
            &&& guillotine_pieces(f, width, height).count(x) == 1
            &&& rects_disjoint(x, corner_rect(f, width, height))
        },
        forall|x: (i32, i32, i32, i32), y: (i32, i32, i32, i32)|
            #[trigger] guillotine_pieces(f, width, height).count(x) > 0 && #[trigger] guillotine_pieces(
                f,
                width,
                height,
            ).count(y) > 0 && x != y ==> rects_disjoint(x, y),
{
    broadcast use vstd::multiset::group_multiset_axioms;

    let xw = (f.0 + width) as i32;
    let yh = (f.1 + height) as i32;
    assert(xw == f.0 + width);
    assert(yh == f.1 + height);
}

/// Any two different regions handed out by a page, each grown by the texel
/// of padding around it, share no texel, and every grown region lies inside
/// the page's texture.
pub proof fn lemma_page_regions_disjoint(page: AtlasPage, a: URect, b: URect)
    requires
        page.wf(),
        page.regions().contains(a),
        page.regions().contains(b),
    ensures
        1 <= a.min.x <= a.max.x,
        a.max.x + 1 <= page.spec_info().texture_size.x,
        1 <= a.min.y <= a.max.y,
        a.max.y + 1 <= page.spec_info().texture_size.y,
        a != b ==> grown_disjoint(a, b),
        a != b ==> urects_disjoint(a, b),
{
    let p = choose|p: (i32, i32, i32, i32)| page.packed().contains(p) && inset(p) == a;
    let q = choose|q: (i32, i32, i32, i32)| page.packed().contains(q) && inset(q) == b;
    assert(page.packed().contains(p));
    assert(page.packed().contains(q));
    if a != b {
        assert(p != q);
        assert(rects_disjoint(p, q));
    }
}

/// Across all pages: two different regions of one page, each grown by the
/// texel of padding around it, share no texel, and lie inside the page's
/// texture. [`AtlasPages::new`] is well formed and every operation on pages
/// keeps it so, so this holds after any sequence of requests.
pub proof fn lemma_pages_regions_disjoint(pages: AtlasPages, k: int, a: URect, b: URect)
    requires
        pages.wf(),
        0 <= k < pages.spec_pages().len(),
        pages.spec_pages()[k].regions().contains(a),
        pages.spec_pages()[k].regions().contains(b),
    ensures
        1 <= a.min.x <= a.max.x,
        a.max.x + 1 <= pages.spec_pages()[k].spec_info().texture_size.x,
        1 <= a.min.y <= a.max.y,
        a.max.y + 1 <= pages.spec_pages()[k].spec_info().texture_size.y,
        a != b ==> grown_disjoint(a, b),
{
    lemma_page_regions_disjoint(pages.spec_pages()[k], a, b);
}

/// Per texture: two different regions handed out into one texture, each
/// grown by the texel of padding around it, share no texel and lie inside
/// that texture, which is square. Pages never share a texture, so the two
/// regions come from one page.
pub proof fn lemma_texture_regions_disjoint(pages: AtlasPages, k1: int, k2: int, a: URect, b: URect)
    requires
        pages.wf(),
        0 <= k1 < pages.spec_pages().len(),
        0 <= k2 < pages.spec_pages().len(),
        pages.spec_pages()[k1].spec_info().texture == pages.spec_pages()[k2].spec_info().texture,
        pages.spec_pages()[k1].regions().contains(a),
        pages.spec_pages()[k2].regions().contains(b),
    ensures
        k1 == k2,
        pages.spec_pages()[k1].spec_info().texture_size.x == pages.spec_pages()[k1].spec_info().texture_size.y,
        1 <= a.min.x <= a.max.x,
        a.max.x + 1 <= pages.spec_pages()[k1].spec_info().texture_size.x,
        1 <= a.min.y <= a.max.y,
        a.max.y + 1 <= pages.spec_pages()[k1].spec_info().texture_size.y,
        a != b ==> grown_disjoint(a, b),
{
    assert(pages.spec_pages()[k1].wf());
    lemma_page_regions_disjoint(pages.spec_pages()[k1], a, b);
}

/// No two answers into one texture overlap: of two different answers that
/// the pages hold, into the same texture, each region grown by the texel of
/// padding around it shares no texel with the other and lies inside that
/// square texture. Every answer the pages give is held from then on (see the
/// `holds_answer` clauses of [`AtlasPages::handle_atlas_request`],
/// [`AtlasPages::try_pack`] and [`AtlasPages::add_page_and_pack`]), so this
/// holds of all answers sent since [`AtlasPages::new`].
pub proof fn lemma_answers_disjoint(pages: AtlasPages, a: AtlasInfo, b: AtlasInfo)
    requires
        pages.wf(),
        holds_answer(pages.spec_pages(), a),
        holds_answer(pages.spec_pages(), b),
        a.page.texture == b.page.texture,
        a != b,
    ensures
        a.page == b.page,
        a.page.texture_size.x == a.page.texture_size.y,
        1 <= a.rect.min.x <= a.rect.max.x,
        a.rect.max.x + 1 <= a.page.texture_size.x,
        1 <= a.rect.min.y <= a.rect.max.y,
        a.rect.max.y + 1 <= a.page.texture_size.y,
        grown_disjoint(a.rect, b.rect),
{
    let ps = pages.spec_pages();
    let ka = choose|k: int| 0 <= k < ps.len() && #[trigger] ps[k].spec_info() == a.page && ps[k].regions().contains(a.rect);
    let kb = choose|k: int| 0 <= k < ps.len() && #[trigger] ps[k].spec_info() == b.page && ps[k].regions().contains(b.rect);
    lemma_texture_regions_disjoint(pages, ka, kb, a.rect, b.rect);
}

/// Two texel rectangles, each grown by one texel on every side, share no
/// texel.
pub open spec fn grown_disjoint(a: URect, b: URect) -> bool {
    a.max.x + 1 <= b.min.x - 1 || b.max.x + 1 <= a.min.x - 1 || a.max.y + 1 <= b.min.y - 1 || b.max.y + 1
        <= a.min.y - 1
}

/// Why a sprite could not be packed.
#[derive(Clone, Copy, Debug, PartialEq, Eq, Structural)]
pub enum AtlasError {
    /// The sprite is larger than a page may be.
    TooLarge { size: UVec2, max_size: u32 },
    /// The sprite has no pixel data in the 8-bit sRGB RGBA format.
    MissingData,
}

/// How a request was served.
pub enum AtlasPacking {
    /// The sprite went into an existing page.
    Packed(AtlasInfo),
    /// No page had room: a new page of `max_size` texels is needed, and the
    /// sprite's pixels are handed back for it.
    NeedsPage { data: Vec<u8>, max_size: u32 },
}

/// The side of new pages: what the device allows, at most [`MAX_PAGE_SIZE`].
pub open spec fn spec_page_size(device_limit: u32) -> u32 {
    if device_limit < MAX_PAGE_SIZE { device_limit } else { MAX_PAGE_SIZE }
}

/// Whether some page of `pages` has room for a sprite of `size` texels.
pub open spec fn some_page_has_room(pages: Seq<AtlasPage>, size: UVec2) -> bool {
    exists|k: int| 0 <= k < pages.len() && #[trigger] pages[k].has_room(size)
}

/// `info` tells of a sprite of `size` texels packed into page `k` of
/// `before`, the first page with room for it, at the corner of one of its
/// free rectangles; `after` is `before` with only that page changed.
pub open spec fn packed_into(before: Seq<AtlasPage>, after: Seq<AtlasPage>, k: int, info: AtlasInfo, size: UVec2) -> bool {
    &&& 0 <= k < before.len()
    &&& before[k].has_room(size)
    &&& forall|j: int| 0 <= j < k ==> !#[trigger] before[j].has_room(size)
    &&& info.page == before[k].spec_info()
    &&& info.rect.spec_size() == (size.x as int, size.y as int)
    &&& exists|f: (i32, i32, i32, i32)| #[trigger] carved(before[k], after[k], f, size, info.rect)
    &&& after[k].regions() == before[k].regions().insert(info.rect)
    &&& forall|j: int|
        0 <= j < before.len() && j != k ==> #[trigger] after[j].packed() == before[j].packed() && after[j].free()
            == before[j].free()
}

/// Some page of `pages` holds the answer `info`: it is the page that the
/// answer names, and the answer's region is one of that page's regions.
pub open spec fn holds_answer(pages: Seq<AtlasPage>, info: AtlasInfo) -> bool {
    exists|k: int| 0 <= k < pages.len() && #[trigger] pages[k].spec_info() == info.page && pages[k].regions().contains(
        info.rect,
    )
}

/// All atlas pages, in the order they were made.
pub struct AtlasPages {
    pages: Vec<AtlasPage>,
}

impl AtlasPages {
    pub closed spec fn spec_pages(&self) -> Seq<AtlasPage> {
        self.pages@
    }

    /// Every page is well formed, and no two pages share a texture.
    pub open spec fn wf(&self) -> bool {
        &&& forall|i: int| 0 <= i < self.spec_pages().len() ==> #[trigger] self.spec_pages()[i].wf()
        &&& forall|i: int, j: int|
            0 <= i < self.spec_pages().len() && 0 <= j < self.spec_pages().len() && i != j
                ==> #[trigger] self.spec_pages()[i].spec_info().texture != #[trigger] self.spec_pages()[j].spec_info().texture
    }

    /// Whether some page has the texture `texture`.
    pub fn has_texture(&self, texture: u64) -> (b: bool)
        ensures
            b == exists|i: int| 0 <= i < self.spec_pages().len() && #[trigger] self.spec_pages()[i].spec_info().texture
                == texture,
    {
        let mut i: usize = 0;
        while i < self.pages.len()
            invariant
                i <= self.pages@.len(),
                forall|j: int| 0 <= j < i ==> #[trigger] self.pages@[j].spec_info().texture != texture,
            decreases self.pages.len() - i,
        {
            if self.pages[i].info().texture == texture {
                assert(self.spec_pages()[i as int].spec_info().texture == texture);
                return true;
            }
            i = i + 1;
        }
        false
    }

    /// No pages.
    pub fn new() -> (pages: AtlasPages)
        ensures
            pages.wf(),
            pages.spec_pages() == Seq::<AtlasPage>::empty(),
    {
        AtlasPages { pages: Vec::new() }
    }

    pub fn len(&self) -> (n: usize)
        ensures
            n == self.spec_pages().len(),
    {
        self.pages.len()
    }

    /// What page `i` is.
    pub fn page_info(&self, i: usize) -> (info: PageInfo)
        requires
            i < self.spec_pages().len(),
        ensures
            info == self.spec_pages()[i as int].spec_info(),
    {
        self.pages[i].info()
    }

    /// Packs a sprite into the first page, in order, with room for it.
    /// Pages without room are left as they were. When no page has room, the
    /// pixels are handed back and nothing changes.
    pub fn try_pack(&mut self, requests: &mut Vec<AtlasWrite>, data: Vec<u8>, size: UVec2) -> (r: Result<
        AtlasInfo,
        Vec<u8>,
    >)
        requires
            old(self).wf(),
            size.x <= MAX_PAGE_SIZE,
            size.y <= MAX_PAGE_SIZE,
        ensures
            final(self).wf(),
            final(self).spec_pages().len() == old(self).spec_pages().len(),
            forall|i: int|
                0 <= i < old(self).spec_pages().len() ==> #[trigger] final(self).spec_pages()[i].spec_info()
                    == old(self).spec_pages()[i].spec_info(),
            r is Ok <==> some_page_has_room(old(self).spec_pages(), size),
            r matches Ok(info) ==> holds_answer(final(self).spec_pages(), info),
            forall|x: AtlasInfo| holds_answer(old(self).spec_pages(), x) ==> #[trigger] holds_answer(
                final(self).spec_pages(),
                x,
            ),
            match r {
                Ok(info) => {
                    &&& exists|k: int| #[trigger] packed_into(old(self).spec_pages(), final(self).spec_pages(), k, info, size)
                    &&& final(requests)@ == old(requests)@.push(
                            AtlasWrite { page: info.page.texture, data, rect: info.rect },
                    )
                },
                Err(back) => {
                    &&& back == data
                    &&& forall|j: int|
                        0 <= j < old(self).spec_pages().len() ==> #[trigger] final(self).spec_pages()[j].packed()
                            == old(self).spec_pages()[j].packed() && final(self).spec_pages()[j].free()
                            == old(self).spec_pages()[j].free()
                    &&& final(requests)@ == old(requests)@
                },
            },
    {
        let mut pending = data;
        let mut i: usize = 0;
        while i < self.pages.len()
            invariant
                i <= self.pages@.len(),
                self.pages@.len() == old(self).pages@.len(),
                size.x <= MAX_PAGE_SIZE,
                size.y <= MAX_PAGE_SIZE,
                self.wf(),
                pending == data,
                requests@ == old(requests)@,
                forall|j: int|
                    0 <= j < self.pages@.len() ==> #[trigger] self.pages@[j].spec_info()
                        == old(self).pages@[j].spec_info(),
                forall|j: int|
                    0 <= j < self.pages@.len() ==> #[trigger] self.pages@[j].packed()
                        == old(self).pages@[j].packed() && self.pages@[j].free() == old(self).pages@[j].free(),
                forall|j: int| 0 <= j < i ==> !#[trigger] old(self).pages@[j].has_room(size),
            decreases self.pages.len() - i,
        {
            let ghost before = self.pages@;
            assert(self.spec_pages()[i as int].wf());
            let result = self.pages[i].try_pack(requests, pending, size);
            proof {
                assert forall|j: int| 0 <= j < self.pages@.len() && j != i implies #[trigger] self.pages@[j]
                    == before[j] by {}
                assert(self.pages@[i as int].wf());
                assert(self.wf()) by {
                    assert forall|j: int| 0 <= j < self.spec_pages().len() implies #[trigger] self.spec_pages()[j].wf() by {
                        if j != i {
                            assert(self.pages@[j] == before[j]);
                            assert(before[j].wf());
                        }
                    }
                }
                assert(before[i as int].free() == old(self).pages@[i as int].free());
                assert(before[i as int].has_room(size) == old(self).pages@[i as int].has_room(size));
            }
            match result {
                Ok(info) => {
                    proof {
                        let k = i as int;
                        let olds = old(self).spec_pages();
                        let news = self.pages@;
                        assert(olds[k].has_room(size));
                        let f = choose|f: (i32, i32, i32, i32)| #[trigger] carved(before[k], news[k], f, size, info.rect);
                        assert(olds[k].free().count(f) > 0);
                        assert(carved(olds[k], news[k], f, size, info.rect));
                        assert forall|j: int| 0 <= j < olds.len() && j != k implies
                            #[trigger] news[j].packed() == olds[j].packed() && news[j].free() == olds[j].free() by {
                            assert(news[j] == before[j]);
                        }
                        assert(packed_into(olds, news, k, info, size));
                        assert(news[k].regions().contains(info.rect));
                        assert(holds_answer(news, info));
                        assert forall|x: AtlasInfo| holds_answer(olds, x) implies #[trigger] holds_answer(news, x) by {
                            let j = choose|j: int| 0 <= j < olds.len() && #[trigger] olds[j].spec_info() == x.page
                                && olds[j].regions().contains(x.rect);
                            if j != k {
                                assert(news[j].packed() == olds[j].packed());
                                assert(news[j].regions() == olds[j].regions());
                            }
                            assert(news[j].spec_info() == x.page);
                            assert(news[j].regions().contains(x.rect));
                        }
                    }
                    return Ok(info);
                },
                Err(back) => {
                    pending = back;
                },
            }
            i = i + 1;
        }
        proof {
            if some_page_has_room(old(self).spec_pages(), size) {
                let k = choose|k: int| 0 <= k < old(self).spec_pages().len() && #[trigger] old(self).spec_pages()[k].has_room(size);
                assert(!old(self).pages@[k].has_room(size));
            }
            let olds = old(self).spec_pages();
            let news = self.spec_pages();
            assert forall|x: AtlasInfo| holds_answer(olds, x) implies #[trigger] holds_answer(news, x) by {
                let j = choose|j: int| 0 <= j < olds.len() && #[trigger] olds[j].spec_info() == x.page
                    && olds[j].regions().contains(x.rect);
                assert(news[j].packed() == olds[j].packed());
                assert(news[j].regions() == olds[j].regions());
                assert(news[j].spec_info() == x.page);
            }
        }
        Err(pending)
    }

    /// Makes a page of `max_size` texels whose texture is `texture`, packs
    /// the sprite into it, and adds it after the others. On an empty page the
    /// sprite's padded rectangle sits at the origin, so the sprite lands one
    /// texel in from the corner.
    pub fn add_page_and_pack(
        &mut self,
        requests: &mut Vec<AtlasWrite>,
        texture: u64,
        max_size: u32,
        data: Vec<u8>,
        size: UVec2,
    ) -> (info: AtlasInfo)
        requires
            old(self).wf(),
            max_size <= MAX_PAGE_SIZE,
            size.x + 2 <= max_size,
            size.y + 2 <= max_size,
            forall|i: int| 0 <= i < old(self).spec_pages().len() ==> #[trigger] old(self).spec_pages()[i].spec_info().texture
                != texture,
        ensures
            final(self).wf(),
            final(self).spec_pages().len() == old(self).spec_pages().len() + 1,
            forall|i: int|
                0 <= i < old(self).spec_pages().len() ==> #[trigger] final(self).spec_pages()[i]
                    == old(self).spec_pages()[i],
            info.page == (PageInfo { texture, texture_size: UVec2 { x: max_size, y: max_size } }),
            final(self).spec_pages().last().spec_info() == info.page,
            final(self).spec_pages().last().packed() == set![
                (0i32, 0i32, (size.x + 2) as i32, (size.y + 2) as i32),
            ],
            final(self).spec_pages().last().free() == guillotine_pieces(
                (0i32, 0i32, max_size as i32, max_size as i32),
                (size.x + 2) as i32,
                (size.y + 2) as i32,
            ),
            final(self).spec_pages().last().regions() == set![info.rect],
            holds_answer(final(self).spec_pages(), info),
            forall|x: AtlasInfo| holds_answer(old(self).spec_pages(), x) ==> #[trigger] holds_answer(
                final(self).spec_pages(),
                x,
            ),
            info.rect == (URect {
                min: UVec2 { x: 1, y: 1 },
                max: UVec2 { x: (size.x + 1) as u32, y: (size.y + 1) as u32 },
            }),
            final(requests)@ == old(requests)@.push(
                AtlasWrite { page: texture, data, rect: info.rect },
            ),
    {
        let mut page = AtlasPage::new(texture, max_size);
        let ghost fresh = page;
        let packed = page.try_pack(requests, data, size);
        match packed {
            Ok(info) => {
                proof {
                    broadcast use vstd::multiset::group_multiset_axioms;

                    let f0 = (0i32, 0i32, max_size as i32, max_size as i32);
                    let f = choose|f: (i32, i32, i32, i32)| #[trigger] carved(fresh, page, f, size, info.rect);
                    assert(fresh.free().count(f) > 0);
                    assert(f == f0);
                    assert(page.free() =~= guillotine_pieces(f0, (size.x + 2) as i32, (size.y + 2) as i32));
                    assert(fresh.regions() =~= Set::<URect>::empty()) by {
                        assert forall|x: URect| !#[trigger] fresh.regions().contains(x) by {}
                    }
                    assert(page.regions() =~= set![info.rect]);
                    let p0 = (0i32, 0i32, (size.x + 2) as i32, (size.y + 2) as i32);
                    let p = choose|p: (i32, i32, i32, i32)|
                        !Set::<(i32, i32, i32, i32)>::empty().contains(p) && info.rect == inset(p)
                            && #[trigger] page.packed() == Set::<(i32, i32, i32, i32)>::empty().insert(p);
                    assert(page.packed().contains(p));
                    assert(p == p0);
                }
                self.pages.push(page);
                proof {
                    assert forall|j: int| 0 <= j < self.spec_pages().len() implies #[trigger] self.spec_pages()[j].wf() by {
                        if j < old(self).spec_pages().len() {
                            assert(self.pages@[j] == old(self).pages@[j]);
                        }
                    }
                    let n = old(self).spec_pages().len() as int;
                    assert forall|i: int, j: int|
                        0 <= i < self.spec_pages().len() && 0 <= j < self.spec_pages().len() && i != j
                            implies #[trigger] self.spec_pages()[i].spec_info().texture != #[trigger] self.spec_pages()[j].spec_info().texture by {
                        if i < n {
                            assert(self.pages@[i] == old(self).pages@[i]);
                        }
                        if j < n {
                            assert(self.pages@[j] == old(self).pages@[j]);
                        }
                    }
                    assert(self.spec_pages()[n].regions().contains(info.rect));
                    assert(holds_answer(self.spec_pages(), info));
                    assert forall|x: AtlasInfo| holds_answer(old(self).spec_pages(), x) implies #[trigger] holds_answer(
                        self.spec_pages(),
                        x,
                    ) by {
                        let k = choose|k: int| 0 <= k < old(self).spec_pages().len() && #[trigger] old(self).spec_pages()[k].spec_info()
                            == x.page && old(self).spec_pages()[k].regions().contains(x.rect);
                        assert(self.pages@[k] == old(self).pages@[k]);
                    }
                }
                info
            },
            Err(_) => {
                proof {
                    assert(false);
                }
                AtlasInfo { page: page.info(), rect: URect { min: UVec2 { x: 0, y: 0 }, max: UVec2 { x: 0, y: 0 } } }
            },
        }
    }

    /// Serves one sprite request: checks it against the page size that the
    /// device allows, checks that it has pixels in the expected format, then
    /// packs it into an existing page where one takes it.
    pub fn handle_atlas_request(
        &mut self,
        requests: &mut Vec<AtlasWrite>,
        device_limit: u32,
        size: UVec2,
        data: Option<Vec<u8>>,
        rgba8_srgb: bool,
    ) -> (r: Result<AtlasPacking, AtlasError>)
        requires
            old(self).wf(),
        ensures
            final(self).wf(),
            final(self).spec_pages().len() == old(self).spec_pages().len(),
            forall|i: int|
                0 <= i < old(self).spec_pages().len() ==> #[trigger] final(self).spec_pages()[i].spec_info()
                    == old(self).spec_pages()[i].spec_info(),
            size.x > spec_page_size(device_limit) || size.y > spec_page_size(device_limit) ==> r == Err::<AtlasPacking, AtlasError>(
                AtlasError::TooLarge { size, max_size: spec_page_size(device_limit) },
            ),
            size.x <= spec_page_size(device_limit) && size.y <= spec_page_size(device_limit) && !(
            data is Some && rgba8_srgb) ==> r == Err::<AtlasPacking, AtlasError>(AtlasError::MissingData),
            r is Ok <==> (size.x <= spec_page_size(device_limit) && size.y <= spec_page_size(device_limit)
                && data is Some && rgba8_srgb),
            r matches Ok(AtlasPacking::Packed(_)) <==> (r is Ok && some_page_has_room(old(self).spec_pages(), size)),
            r matches Ok(AtlasPacking::Packed(info)) ==> holds_answer(final(self).spec_pages(), info),
            forall|x: AtlasInfo| holds_answer(old(self).spec_pages(), x) ==> #[trigger] holds_answer(
                final(self).spec_pages(),
                x,
            ),
            r is Err ==> *final(self) == *old(self) && final(requests)@ == old(requests)@,
            match r {
                Ok(AtlasPacking::Packed(info)) => {
                    &&& exists|k: int| #[trigger] packed_into(old(self).spec_pages(), final(self).spec_pages(), k, info, size)
                    &&& final(requests)@ == old(requests)@.push(
                            AtlasWrite { page: info.page.texture, data: data.unwrap(), rect: info.rect },
                    )
                },
                Ok(AtlasPacking::NeedsPage { data: back, max_size }) => {
                    &&& Some(back) == data
                    &&& rgba8_srgb
                    &&& max_size == spec_page_size(device_limit)
                    &&& size.x <= max_size && size.y <= max_size
                    &&& !some_page_has_room(old(self).spec_pages(), size)
                    &&& forall|j: int|
                        0 <= j < old(self).spec_pages().len() ==> #[trigger] final(self).spec_pages()[j].packed()
                            == old(self).spec_pages()[j].packed() && final(self).spec_pages()[j].free()
                            == old(self).spec_pages()[j].free()
                    &&& final(requests)@ == old(requests)@
                },
                Err(_) => true,
            },
    {
        let max_size = if device_limit < MAX_PAGE_SIZE { device_limit } else { MAX_PAGE_SIZE };
        if size.x > max_size || size.y > max_size {
            return Err(AtlasError::TooLarge { size, max_size });
        }
        let data = match data {
            Some(d) => {
                if !rgba8_srgb {
                    return Err(AtlasError::MissingData);
                }
                d
            },
            None => {
                return Err(AtlasError::MissingData);
            },
        };
        match self.try_pack(requests, data, size) {
            Ok(info) => Ok(AtlasPacking::Packed(info)),
            Err(back) => Ok(AtlasPacking::NeedsPage { data: back, max_size }),
        }
    }
}

/// A write whose page texture is on the GPU.
pub open spec fn page_ready(ready: Seq<u64>) -> spec_fn(AtlasWrite) -> bool {
    |w: AtlasWrite| ready.contains(w.page)
}

/// A write whose page texture is not on the GPU yet.
pub open spec fn page_waiting(ready: Seq<u64>) -> spec_fn(AtlasWrite) -> bool {
    |w: AtlasWrite| !ready.contains(w.page)
}

/// Splitting the queued writes loses and doubles none: every write goes to
/// the side that its page calls for, and the two sides hold as many writes
/// as were queued.
pub proof fn lemma_atlas_writes_partitioned(all: Seq<AtlasWrite>, ready: Seq<u64>)
    ensures
        all.filter(page_ready(ready)).len() + all.filter(page_waiting(ready)).len() == all.len(),
        forall|i: int| 0 <= i < all.len() && ready.contains(#[trigger] all[i].page) ==> all.filter(
            page_ready(ready),
        ).contains(all[i]),
        forall|i: int| 0 <= i < all.len() && !ready.contains(#[trigger] all[i].page) ==> all.filter(
            page_waiting(ready),
        ).contains(all[i]),
    decreases all.len(),
{
    let pr = page_ready(ready);
    let pw = page_waiting(ready);
    if all.len() > 0 {
        let rest = all.drop_last();
        lemma_atlas_writes_partitioned(rest, ready);
        assert(all == rest.push(all.last()));
        rest.lemma_filter_push(all.last(), pr);
        rest.lemma_filter_push(all.last(), pw);
    }
    assert forall|i: int| 0 <= i < all.len() && ready.contains(#[trigger] all[i].page) implies all.filter(
        pr,
    ).contains(all[i]) by {
        all.lemma_filter_contains(pr, i);
    }
    assert forall|i: int| 0 <= i < all.len() && !ready.contains(#[trigger] all[i].page) implies all.filter(
        pw,
    ).contains(all[i]) by {
        all.lemma_filter_contains(pw, i);
    }
}

/// Splits the queued sprite writes: those whose page texture is on the GPU
/// (its id is in `ready`) are returned, to be written now; the others stay
/// queued. Both keep their order.
pub fn prepare_atlas_requests(requests: &mut Vec<AtlasWrite>, ready: &Vec<u64>) -> (now: Vec<AtlasWrite>)
    ensures
        now@ == old(requests)@.filter(page_ready(ready@)),
        final(requests)@ == old(requests)@.filter(page_waiting(ready@)),
{
    let ghost all = requests@;
    let ghost p_now = page_ready(ready@);
    let ghost p_later = page_waiting(ready@);
    let mut pending: Vec<AtlasWrite> = Vec::new();
    std::mem::swap(&mut pending, requests);
    let mut now: Vec<AtlasWrite> = Vec::new();
    let mut taken: usize = 0;
    let total = pending.len();
    while pending.len() > 0
        invariant
            taken + pending@.len() == all.len(),
            all.len() == total,
            pending@ == all.subrange(taken as int, all.len() as int),
            p_now == page_ready(ready@),
            p_later == page_waiting(ready@),
            now@ == all.subrange(0, taken as int).filter(p_now),
            requests@ == all.subrange(0, taken as int).filter(p_later),
        decreases pending.len(),
    {
        let w = pending.remove(0);
        proof {
            assert(all.subrange(0, taken as int + 1) == all.subrange(0, taken as int).push(w));
            all.subrange(0, taken as int).lemma_filter_push(w, p_now);
            all.subrange(0, taken as int).lemma_filter_push(w, p_later);
        }
        if crate::entity_map::vec_contains(ready, w.page) {
            now.push(w);
        } else {
            requests.push(w);
        }
        taken = taken + 1;
        proof {
            assert(pending@ == all.subrange(taken as int, all.len() as int));
        }
    }
    proof {
        assert(all.subrange(0, taken as int) == all);
    }
    now
}

} // verus!
