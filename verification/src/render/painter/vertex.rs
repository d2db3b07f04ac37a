//! Painter vertices, and the quads and requests that painters record.
use crate::render::painter::belt::{
    belt_limit, quad_belt, quad_belt_append, quad_belt_len, quad_belt_new, quad_belt_take, request_belt,
    request_belt_append, request_belt_len, request_belt_new, request_belt_take,
};
use crate::render::painter::pipeline::Blending;
use vec_belt::VecBelt;
use vstd::prelude::*;
use vstd::wrapping::usize_specs::{wrapping_add, wrapping_mul};

verus! {

/// A painter vertex as it is laid out for the GPU, each component the bit
/// pattern of an `f32`.
#[derive(Clone, Copy, Debug)]
pub struct Vertex {
    pub position: [u32; 2],
    pub color: [u32; 4],
    pub uv: [u32; 2],
}

impl Vertex {
    pub fn new(position: [u32; 2], color: [u32; 4], uv: [u32; 2]) -> (v: Self)
        ensures
            v.position == position,
            v.color == color,
            v.uv == uv,
    {
        Vertex { position, color, uv }
    }
}

/// What the quads of one request share: the image (by id), the blending,
/// and the layer they are sorted by (the bit pattern of an `f32`).
#[derive(Clone, Copy, Debug)]
pub struct RequestKey {
    pub image: u64,
    pub blend: Blending,
    pub layer: u32,
}

impl Default for RequestKey {
    fn default() -> (k: Self)
        ensures
            k.image == 0,
            k.blend == Blending::Normal,
            k.layer == 0,
    {
        RequestKey { image: 0, blend: Blending::Normal, layer: 0 }
    }
}

/// A painter: the requests it made this frame, each the position of its
/// quad's first vertex and the request's key.
pub struct Painter {
    requests: VecBelt<(usize, RequestKey)>,
}

impl Painter {
    pub closed spec fn spec_requests(&self) -> Seq<(usize, RequestKey)> {
        request_belt(self.requests)
    }

    /// Hands out the requests made so far, in order, and forgets them.
    pub fn take_requests(&mut self) -> (r: Vec<(usize, RequestKey)>)
        ensures
            r@ == old(self).spec_requests(),
            final(self).spec_requests() == Seq::<(usize, RequestKey)>::empty(),
    {
        request_belt_take(&mut self.requests)
    }
}

impl Default for Painter {
    fn default() -> (p: Self)
        ensures
            p.spec_requests() == Seq::<(usize, RequestKey)>::empty(),
    {
        Painter { requests: request_belt_new(1) }
    }
}

/// The quads of all painters this frame.
pub struct PainterQuads {
    quads: VecBelt<[Vertex; 4]>,
}

/// The position of the first vertex of the `i`-th quad of a request whose
/// first quad begins at vertex `first`, with wrapping arithmetic.
pub open spec fn request_vertex(first: usize, i: int) -> usize {
    wrapping_add(first, wrapping_mul(i as usize, 4))
}

impl PainterQuads {
    pub closed spec fn spec_quads(&self) -> Seq<[Vertex; 4]> {
        quad_belt(self.quads)
    }

    /// Whether `count` more quads can be recorded for `painter`: the quads
    /// and the painter's requests stay within what a belt is given.
    pub fn can_request(&self, painter: &Painter, count: usize) -> (b: bool)
        ensures
            b == (self.spec_quads().len() + count <= belt_limit() && painter.spec_requests().len() + count
                <= belt_limit()),
    {
        let limit: usize = usize::MAX / 256;
        let quads = quad_belt_len(&self.quads);
        let requests = request_belt_len(&painter.requests);
        quads <= limit && count <= limit - quads && requests <= limit && count <= limit - requests
    }

    /// Records `quads`, all with one key, for `painter`: the quads go after
    /// all quads so far, and the painter gets one request per quad, naming
    /// the quad's first vertex.
    pub fn request(
        &mut self,
        painter: &mut Painter,
        image: u64,
        blend: Blending,
        layer: u32,
        quads: Vec<[Vertex; 4]>,
    )
        requires
            old(self).spec_quads().len() + quads@.len() <= belt_limit(),
            old(painter).spec_requests().len() + quads@.len() <= belt_limit(),
        ensures
            final(self).spec_quads() == old(self).spec_quads() + quads@,
            final(painter).spec_requests() == old(painter).spec_requests() + Seq::new(
                quads@.len(),
                |i: int|
                    (
                        request_vertex((old(self).spec_quads().len() * 4) as usize, i),
                        RequestKey { image, blend, layer },
                    ),
            ),
    {
        let len = quads.len();
        let key = RequestKey { image, blend, layer };
        let first = quad_belt_append(&mut self.quads, quads) * 4;
        let mut requests: Vec<(usize, RequestKey)> = Vec::new();
        let mut i: usize = 0;
        while i < len
            invariant
                i <= len,
                requests@ == Seq::new(i as nat, |j: int| (request_vertex(first, j), key)),
            decreases len - i,
        {
            requests.push((first.wrapping_add(i.wrapping_mul(4)), key));
            i = i + 1;
            proof {
                assert(requests@ == Seq::new(i as nat, |j: int| (request_vertex(first, j), key)));
            }
        }
        request_belt_append(&mut painter.requests, requests);
    }

    /// Hands out all quads so far, in order, and forgets them.
    pub fn take_quads(&mut self) -> (r: Vec<[Vertex; 4]>)
        ensures
            r@ == old(self).spec_quads(),
            final(self).spec_quads() == Seq::<[Vertex; 4]>::empty(),
    {
        quad_belt_take(&mut self.quads)
    }
}

impl Default for PainterQuads {
    fn default() -> (q: Self)
        ensures
            q.spec_quads() == Seq::<[Vertex; 4]>::empty(),
    {
        PainterQuads { quads: quad_belt_new(8192) }
    }
}

/// While the quads fit the address space four vertices each, the request
/// for the `i`-th quad of a call names vertex `4 * (first + i)`, where
/// `first` is the position of the call's first quad: the four vertices of
/// the quad it drew.
pub proof fn lemma_request_names_its_quad(first: nat, i: nat)
    requires
        (first + i + 1) * 4 <= usize::MAX,
    ensures
        request_vertex((first * 4) as usize, i as int) == 4 * (first + i),
{
    assert(wrapping_mul(i as usize, 4) == (i * 4) as usize) by {
        assert((i as usize) as nat * 4nat == i * 4);
        assert((i * 4) % (usize::MAX as nat + 1) == i * 4) by {
            vstd::arithmetic::div_mod::lemma_small_mod(i * 4, usize::MAX as nat + 1);
        }
    }
}

/// A painter's requests as the renderer holds them.
pub struct RenderPainter {
    pub requests: Vec<(usize, RequestKey)>,
}

/// `x` rounded up to a multiple of `a`.
pub open spec fn spec_next_multiple_of(x: int, a: int) -> int {
    if x % a == 0 { x } else { x + (a - x % a) }
}

/// The size of the vertex buffer for `needed` bytes of quads, when the
/// buffer of `current` bytes is too small: twice the old size or what is
/// needed, whichever is more, rounded up to `alignment`. `None` when the
/// buffer is big enough.
pub fn grown_vertex_buffer_size(current: u64, needed: u64, alignment: u64) -> (r: Option<u64>)
    requires
        0 < alignment,
        current * 2 + alignment <= u64::MAX,
        needed + alignment <= u64::MAX,
    ensures
        current >= needed ==> r is None,
        current < needed ==> r == Some(
            spec_next_multiple_of(if current * 2 >= needed { current * 2 } else { needed as int }, alignment as int) as u64,
        ),
{
    if current >= needed {
        return None;
    }
    let doubled = current * 2;
    let wanted = if doubled >= needed { doubled } else { needed };
    let rem = wanted % alignment;
    if rem == 0 {
        Some(wanted)
    } else {
        Some(wanted + (alignment - rem))
    }
}

} // verus!
