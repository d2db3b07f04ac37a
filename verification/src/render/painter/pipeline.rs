//! Pipeline keys of the painter, and the grouping of painter requests into
//! draw batches that share a texture.
use crate::render::painter::vertex::RequestKey;
use std::collections::HashMap;
use vstd::prelude::*;

verus! {

broadcast use vstd::std_specs::hash::group_hash_axioms;

/// How a painter request blends with what lies below it.
#[derive(Clone, Copy, Debug, PartialEq, Eq, Structural)]
pub enum Blending {
    Normal,
    Additive,
}

impl Default for Blending {
    fn default() -> (b: Self)
        ensures
            b == Blending::Normal,
    {
        Blending::Normal
    }
}

/// The painter's own bits of a pipeline key.
#[derive(Clone, Copy, Debug, PartialEq, Eq, Structural)]
pub struct PainterPipelineKey(pub u32);

impl PainterPipelineKey {
    pub const NONE: u32 = 0;
    pub const BLEND_ADDITIVE: u32 = 1;
    /// The bits that select the blending.
    pub const BLEND_BITS: u32 = 1;

    pub fn bits(self) -> (b: u32)
        ensures
            b == self.0,
    {
        self.0
    }

    pub fn from_blend(blend: Blending) -> (k: Self)
        ensures
            k.0 == match blend {
                Blending::Normal => Self::NONE,
                Blending::Additive => Self::BLEND_ADDITIVE,
            },
    {
        match blend {
            Blending::Normal => PainterPipelineKey(Self::NONE),
            Blending::Additive => PainterPipelineKey(Self::BLEND_ADDITIVE),
        }
    }

    /// Whether the key selects additive blending; alpha blending otherwise.
    pub fn is_additive(self) -> (b: bool)
        ensures
            b == (self.0 & Self::BLEND_BITS == Self::BLEND_ADDITIVE),
    {
        self.0 & Self::BLEND_BITS == Self::BLEND_ADDITIVE
    }
}

/// The full pipeline key: the sprite pipeline's key bits and the painter's.
#[derive(Clone, Copy, Debug)]
pub struct PainterPipelineKeys {
    pub sprite_key: u32,
    pub painter_key: PainterPipelineKey,
}

/// The sprite bits in the low half, the painter bits in the high half.
pub open spec fn spec_key_bits(sprite_key: u32, painter_key: u32) -> u64 {
    (sprite_key as u64 | ((painter_key as u64) << 32u64)) as u64
}

impl PainterPipelineKeys {
    pub fn to_bits(self) -> (b: u64)
        ensures
            b == spec_key_bits(self.sprite_key, self.painter_key.0),
    {
        self.sprite_key as u64 | ((self.painter_key.bits() as u64) << 32u64)
    }
}

/// Two keys are equal when their bits are.
pub proof fn lemma_key_bits_injective(a: PainterPipelineKeys, b: PainterPipelineKeys)
    ensures
        spec_key_bits(a.sprite_key, a.painter_key.0) == spec_key_bits(b.sprite_key, b.painter_key.0)
            <==> a.sprite_key == b.sprite_key && a.painter_key.0 == b.painter_key.0,
{
    let (x1, y1, x2, y2) = (a.sprite_key, a.painter_key.0, b.sprite_key, b.painter_key.0);
    assert(((x1 as u64 | ((y1 as u64) << 32u64)) == (x2 as u64 | ((y2 as u64) << 32u64))) <==> (x1 == x2
        && y1 == y2)) by (bit_vector);
}

impl PartialEq for PainterPipelineKeys {
    fn eq(&self, other: &Self) -> (r: bool) {
        self.to_bits() == other.to_bits()
    }
}

impl vstd::std_specs::cmp::PartialEqSpecImpl for PainterPipelineKeys {
    open spec fn obeys_eq_spec() -> bool {
        true
    }

    open spec fn eq_spec(&self, other: &Self) -> bool {
        spec_key_bits(self.sprite_key, self.painter_key.0) == spec_key_bits(other.sprite_key, other.painter_key.0)
    }
}

impl Eq for PainterPipelineKeys {}

/// The image id that stands for "no image" between batches.
pub const INVALID_IMAGE: u64 = 0xffff_ffff_ffff_ffff;

/// A run of indices drawn with one texture.
#[derive(Clone, Copy, Debug, PartialEq, Eq, Structural)]
pub struct PainterBatch {
    pub image: u64,
    /// The first index of the run.
    pub start: u32,
    /// One past the last index of the run.
    pub end: u32,
}

/// A queued painter item of a view, with what its painter request resolved
/// to: the request's first quad vertex and image, or `None` when the
/// painter or the request is gone; and whether that image is on the GPU.
#[derive(Clone, Copy, Debug)]
pub struct ResolvedItem {
    pub entity: u64,
    pub request: Option<(usize, u64)>,
    pub image_ready: bool,
}

/// The key of the batch of a painter entity in a view.
pub open spec fn batch_key(view: u64, entity: u64) -> u128 {
    (view * 0x1_0000_0000_0000_0000 + entity) as u128
}

/// The six indices of the two triangles of the quad whose first vertex is `q`.
pub open spec fn quad_indices(q: usize) -> Seq<u32> {
    seq![q as u32, (q + 1) as u32, (q + 2) as u32, (q + 2) as u32, (q + 3) as u32, q as u32]
}

/// Where batching stands.
pub struct BatchingState {
    /// The indices written so far.
    pub indices: Seq<u32>,
    /// The batches, by [`batch_key`].
    pub batches: Map<u128, PainterBatch>,
    /// The images whose texture bind group is needed, in order of use.
    pub bind_images: Seq<u64>,
    /// The number of indices written so far.
    pub index: int,
    /// Whether no item was drawn without a batch to draw it in.
    pub ok: bool,
    /// Per item of the current view: the number of items that its batch
    /// draws, counted on the item that starts the batch.
    pub ends: Seq<u32>,
    /// The image of the current batch, or the last image that had none.
    pub handle: u64,
    /// The position of the item that started the current batch.
    pub head: int,
    /// The painter entity whose batch is the current one.
    pub current: Option<u64>,
}

/// One item, at position `k` of `view`: an item whose request is gone ends
/// the current image; an item with a new image starts a batch when the
/// image is on the GPU and is skipped otherwise; every other item is drawn
/// into the current batch.
pub open spec fn batch_step(s: BatchingState, view: u64, k: int, item: ResolvedItem) -> BatchingState {
    match item.request {
        None => BatchingState { handle: INVALID_IMAGE, ..s },
        Some((q, image)) => if s.handle != image && !item.image_ready {
            BatchingState { handle: image, ..s }
        } else {
            let s1 = if s.handle != image {
                BatchingState {
                    handle: image,
                    bind_images: s.bind_images.push(image),
                    head: k,
                    current: Some(item.entity),
                    batches: s.batches.insert(
                        batch_key(view, item.entity),
                        PainterBatch { image, start: s.index as u32, end: s.index as u32 },
                    ),
                    ..s
                }
            } else {
                s
            };
            match s1.current {
                None => BatchingState { ok: false, ..s1 },
                Some(e) => {
                    let key = batch_key(view, e);
                    let b = s1.batches[key];
                    BatchingState {
                        indices: s1.indices + quad_indices(q),
                        ends: s1.ends.update(s1.head, (s1.ends[s1.head] + 1) as u32),
                        batches: s1.batches.insert(key, PainterBatch { end: (b.end + 6) as u32, ..b }),
                        index: s1.index + 6,
                        ..s1
                    }
                },
            }
        },
    }
}

/// The state after the first `n` items of a view.
pub open spec fn batch_items(s: BatchingState, view: u64, items: Seq<ResolvedItem>, n: int) -> BatchingState
    decreases n,
{
    if n <= 0 {
        s
    } else {
        batch_step(batch_items(s, view, items, n - 1), view, n - 1, items[n - 1])
    }
}

/// The state at the start of a view of `len` items.
pub open spec fn view_start(s: BatchingState, len: nat) -> BatchingState {
    BatchingState {
        ends: Seq::new(len, |i: int| 0u32),
        handle: INVALID_IMAGE,
        head: 0,
        current: None,
        ..s
    }
}

/// The state after a whole view.
pub open spec fn batch_view(s: BatchingState, view: u64, items: Seq<ResolvedItem>) -> BatchingState {
    batch_items(view_start(s, items.len()), view, items, items.len() as int)
}

/// The states after each of the first `n` views, and the batch ends of each.
pub open spec fn batch_views(views: Seq<(u64, Seq<ResolvedItem>)>, n: int) -> (BatchingState, Seq<Seq<u32>>)
    decreases n,
{
    if n <= 0 {
        (
            BatchingState {
                indices: Seq::empty(),
                batches: Map::empty(),
                bind_images: Seq::empty(),
                index: 0,
                ok: true,
                ends: Seq::empty(),
                handle: INVALID_IMAGE,
                head: 0,
                current: None,
            },
            Seq::empty(),
        )
    } else {
        let (s, ends) = batch_views(views, n - 1);
        let t = batch_view(s, views[n - 1].0, views[n - 1].1);
        (t, ends.push(t.ends))
    }
}

/// The number of items over all views.
pub open spec fn total_items(views: Seq<(u64, Seq<ResolvedItem>)>, n: int) -> int
    decreases n,
{
    if n <= 0 {
        0
    } else {
        total_items(views, n - 1) + views[n - 1].1.len()
    }
}

/// The index buffer contents of all drawn painter quads.
pub struct PainterIndices(pub Vec<u32>);

/// The draw batches, by [`batch_key`] of their view and painter entity.
pub struct PainterBatches(pub HashMap<u128, PainterBatch>);

/// What batching produced for a frame.
pub struct PreparedPainters {
    /// The indices of all drawn quads, view after view.
    pub indices: PainterIndices,
    pub batches: PainterBatches,
    /// Per view, per item: how many items the batch that the item starts
    /// draws (zero for items that start none).
    pub batch_ends: Vec<Vec<u32>>,
    /// The images whose texture bind group is needed, in order of use.
    pub bind_images: Vec<u64>,
}

/// An item was to be drawn while its view had no batch to draw it in.
#[derive(Clone, Copy, Debug, PartialEq, Eq, Structural)]
pub struct NoCurrentBatch;

/// Groups the queued painter items of each view into batches of
/// consecutive items that share an image, and writes their quads' indices.
#[verifier::rlimit(40)]
#[verifier::spinoff_prover]
pub fn prepare_painters(views: &Vec<(u64, Vec<ResolvedItem>)>) -> (r: Result<PreparedPainters, NoCurrentBatch>)
    requires
        total_drawn(views@.map_values(|v: (u64, Vec<ResolvedItem>)| (v.0, v.1@)), views@.len() as int) * 6 <= u32::MAX,
        forall|v: int, i: int|
            0 <= v < views@.len() && 0 <= i < views@[v].1@.len() && #[trigger] in_batch(views@[v].1@, i)
                ==> views@[v].1@[i].request.unwrap().0 + 3 <= usize::MAX,
    ensures
        ({
            let (s, ends) = batch_views(
                views@.map_values(|v: (u64, Vec<ResolvedItem>)| (v.0, v.1@)),
                views@.len() as int,
            );
            match r {
                Ok(p) => {
                    &&& s.ok
                    &&& p.indices.0@ == s.indices
                    &&& p.batches.0@ == s.batches
                    &&& p.bind_images@ == s.bind_images
                    &&& p.batch_ends@.len() == ends.len()
                    &&& forall|v: int| 0 <= v < ends.len() ==> #[trigger] p.batch_ends@[v]@ == ends[v]
                },
                Err(_) => !s.ok,
            }
        }),
        r is Ok <==> forall|v: int| 0 <= v < views@.len() ==> !view_fails(#[trigger] views@[v].1@),
        r matches Ok(p) ==> forall|v: int| 0 <= v < views@.len() ==> #[trigger] p.batch_ends@[v]@ == batch_counts(views@[v].1@),
{
    let ghost vs = views@.map_values(|v: (u64, Vec<ResolvedItem>)| (v.0, v.1@));
    let mut indices: Vec<u32> = Vec::new();
    let mut batches: HashMap<u128, PainterBatch> = HashMap::new();
    let mut batch_ends: Vec<Vec<u32>> = Vec::new();
    let mut bind_images: Vec<u64> = Vec::new();
    let mut index: u32 = 0;
    let mut v: usize = 0;
    while v < views.len()
        invariant
            v <= views@.len(),
            vs == views@.map_values(|v: (u64, Vec<ResolvedItem>)| (v.0, v.1@)),
            total_drawn(vs, vs.len() as int) * 6 <= u32::MAX,
            forall|v: int, i: int|
                0 <= v < views@.len() && 0 <= i < views@[v].1@.len() && #[trigger] in_batch(views@[v].1@, i)
                    ==> views@[v].1@[i].request.unwrap().0 + 3 <= usize::MAX,
            ({
                let (s, ends) = batch_views(vs, v as int);
                &&& s.ok
                &&& indices@ == s.indices
                &&& batches@ == s.batches
                &&& bind_images@ == s.bind_images
                &&& index as int == s.index
                &&& s.index == 6 * total_drawn(vs, v as int)
                &&& batch_ends@.len() == ends.len()
                &&& forall|w: int| 0 <= w < ends.len() ==> #[trigger] batch_ends@[w]@ == ends[w]
            }),
            batch_ends@.len() == v,
            forall|w: int| 0 <= w < v ==> !view_fails(#[trigger] views@[w].1@),
            forall|w: int| 0 <= w < v ==> #[trigger] batch_ends@[w]@ == batch_counts(views@[w].1@),
        decreases views.len() - v,
    {
        let view = views[v].0;
        let items = &views[v].1;
        let n = items.len();
        let ghost s0 = batch_views(vs, v as int).0;
        let ghost ends0 = batch_views(vs, v as int).1;
        proof {
            lemma_total_drawn_monotone(vs, v as int + 1, vs.len() as int);
            lemma_total_drawn_nonneg(vs, v as int);
            assert(vs[v as int] == (view, items@));
            assert(total_drawn(vs, v as int + 1) == total_drawn(vs, v as int) + drawn_before(items@, n as int));
        }
        let mut ends: Vec<u32> = Vec::new();
        let mut z: usize = 0;
        while z < n
            invariant
                z <= n,
                ends@ == Seq::new(z as nat, |i: int| 0u32),
            decreases n - z,
        {
            ends.push(0);
            z = z + 1;
            proof {
                assert(ends@ == Seq::new(z as nat, |i: int| 0u32));
            }
        }
        let mut handle: u64 = INVALID_IMAGE;
        let mut head: usize = 0;
        let mut current: Option<u64> = None;
        let mut cur_batch = PainterBatch { image: INVALID_IMAGE, start: 0, end: 0 };
        let mut i: usize = 0;
        proof {
            assert(batch_items(view_start(s0, n as nat), view, items@, 0) == view_start(s0, n as nat));
        }
        while i < n
            invariant
                i <= n,
                n == items@.len(),
                v < views@.len(),
                items@ == views@[v as int].1@,
                vs == views@.map_values(|v: (u64, Vec<ResolvedItem>)| (v.0, v.1@)),
                vs[v as int] == (view, items@),
                total_drawn(vs, v as int + 1) <= total_drawn(vs, vs.len() as int),
                total_drawn(vs, v as int + 1) == total_drawn(vs, v as int) + drawn_before(items@, n as int),
                total_drawn(vs, vs.len() as int) * 6 <= u32::MAX,
                forall|i: int| 0 <= i < items@.len() && #[trigger] in_batch(items@, i)
                    ==> items@[i].request.unwrap().0 + 3 <= usize::MAX,
                s0 == batch_views(vs, v as int).0,
                s0.index == 6 * total_drawn(vs, v as int),
                0 <= total_drawn(vs, v as int),
                ({
                    let st = batch_items(view_start(s0, n as nat), view, items@, i as int);
                    &&& st.ok
                    &&& indices@ == st.indices
                    &&& batches@ == st.batches
                    &&& bind_images@ == st.bind_images
                    &&& index as int == st.index
                    &&& ends@ == st.ends
                    &&& handle == st.handle
                    &&& head as int == st.head
                    &&& current == st.current
                    &&& (current matches Some(e) ==> {
                        &&& head < n
                        &&& st.batches.contains_key(batch_key(view, e))
                        &&& st.batches[batch_key(view, e)] == cur_batch
                        &&& cur_batch.end <= index
                    })
                }),
                batch_ends@.len() == ends0.len(),
                forall|w: int| 0 <= w < ends0.len() ==> #[trigger] batch_ends@[w]@ == ends0[w],
                ends0 == batch_views(vs, v as int).1,
                batch_ends@.len() == v,
                forall|w: int| 0 <= w < v ==> !view_fails(#[trigger] views@[w].1@),
                forall|w: int| 0 <= w < v ==> #[trigger] batch_ends@[w]@ == batch_counts(views@[w].1@),
            decreases n - i,
        {
            let item = items[i];
            let ghost st = batch_items(view_start(s0, n as nat), view, items@, i as int);
            proof {
                assert(batch_items(view_start(s0, n as nat), view, items@, i as int + 1) == batch_step(st, view, i as int, item));
                lemma_batching_prefix(view_start(s0, n as nat), view, items@, i as int);
                lemma_batching_prefix(view_start(s0, n as nat), view, items@, i as int + 1);
                lemma_drawn_before_monotone(items@, i as int + 1, n as int);
                lemma_batch_head_bound(items@, i as int - 1);
                if batch_head(items@, i as int - 1) >= 0 {
                    lemma_batch_size_bound(items@, batch_head(items@, i as int - 1), i as int);
                }
            }
            match item.request {
                None => {
                    handle = INVALID_IMAGE;
                },
                Some((q, image)) => {
                    if handle != image && !item.image_ready {
                        handle = image;
                    } else {
                        if handle != image {
                            handle = image;
                            bind_images.push(image);
                            head = i;
                            current = Some(item.entity);
                            cur_batch = PainterBatch { image, start: index, end: index };
                            batches.insert((view as u128) * 0x1_0000_0000_0000_0000u128 + (item.entity as u128), cur_batch);
                        }
                        match current {
                            None => {
                                proof {
                                    lemma_batch_items_not_ok(view_start(s0, n as nat), view, items@, i as int + 1, n as int);
                                    lemma_batch_views_not_ok(vs, v as int + 1, vs.len() as int);
                                    assert(is_drawn(items@, i as int) && batch_head(items@, i as int) < 0);
                                    assert(view_fails(views@[v as int].1@));
                                }
                                return Err(NoCurrentBatch);
                            },
                            Some(e) => {
                                proof {
                                    assert(in_batch(items@, i as int));
                                }
                                let ghost before = indices@;
                                indices.push(#[verifier::truncate] (q as u32));
                                indices.push(#[verifier::truncate] ((q + 1) as u32));
                                indices.push(#[verifier::truncate] ((q + 2) as u32));
                                indices.push(#[verifier::truncate] ((q + 2) as u32));
                                indices.push(#[verifier::truncate] ((q + 3) as u32));
                                indices.push(#[verifier::truncate] (q as u32));
                                proof {
                                    assert(indices@ == before + quad_indices(q));
                                }
                                let count = ends[head];
                                ends.set(head, count + 1);
                                cur_batch = PainterBatch { image: cur_batch.image, start: cur_batch.start, end: cur_batch.end + 6 };
                                batches.insert((view as u128) * 0x1_0000_0000_0000_0000u128 + (e as u128), cur_batch);
                                index = index + 6;
                            },
                        }
                    }
                },
            }
            i = i + 1;
        }
        proof {
            assert(batch_views(vs, v as int + 1).0 == batch_view(s0, view, items@));
            lemma_batching_prefix(view_start(s0, n as nat), view, items@, n as int);
            assert(ends@ =~= batch_counts(items@));
            if view_fails(items@) {
                let k = choose|k: int| 0 <= k < items@.len() && #[trigger] is_drawn(items@, k) && batch_head(items@, k) < 0;
                assert(false);
            }
        }
        let ghost before_ends = batch_ends@;
        batch_ends.push(ends);
        proof {
            assert forall|w: int| 0 <= w < v + 1 implies #[trigger] batch_ends@[w]@ == batch_counts(views@[w].1@) by {
                if w < v {
                    assert(batch_ends@[w] == before_ends[w]);
                }
            }
        }
        v = v + 1;
    }
    Ok(PreparedPainters { indices: PainterIndices(indices), batches: PainterBatches(batches), batch_ends, bind_images })
}

/// Whether the views can be batched within the limits of the index buffer:
/// six indices per drawn item fit a `u32`, and the last vertex of every
/// drawn quad fits a `usize`.
pub fn batching_fits(views: &Vec<(u64, Vec<ResolvedItem>)>) -> (b: bool)
    ensures
        b == (total_drawn(views@.map_values(|v: (u64, Vec<ResolvedItem>)| (v.0, v.1@)), views@.len() as int) * 6
            <= u32::MAX && forall|v: int, i: int|
            0 <= v < views@.len() && 0 <= i < views@[v].1@.len() && #[trigger] in_batch(views@[v].1@, i)
                ==> views@[v].1@[i].request.unwrap().0 + 3 <= usize::MAX),
{
    let ghost vs = views@.map_values(|v: (u64, Vec<ResolvedItem>)| (v.0, v.1@));
    let limit: u64 = 715_827_882;
    let mut total: u64 = 0;
    let mut v: usize = 0;
    while v < views.len()
        invariant
            v <= views@.len(),
            vs == views@.map_values(|v: (u64, Vec<ResolvedItem>)| (v.0, v.1@)),
            total == total_drawn(vs, v as int),
            total <= limit,
            limit == 715_827_882,
            forall|w: int, i: int|
                0 <= w < v && 0 <= i < views@[w].1@.len() && #[trigger] in_batch(views@[w].1@, i)
                    ==> views@[w].1@[i].request.unwrap().0 + 3 <= usize::MAX,
        decreases views.len() - v,
    {
        let items = &views[v].1;
        let ghost start = total as int;
        proof {
            assert(vs[v as int].1 == items@);
        }
        let mut prev: u64 = INVALID_IMAGE;
        let mut has_head = false;
        let mut k: usize = 0;
        while k < items.len()
            invariant
                k <= items@.len(),
                v < views@.len(),
                items@ == views@[v as int].1@,
                vs == views@.map_values(|v: (u64, Vec<ResolvedItem>)| (v.0, v.1@)),
                prev == prev_image(items@, k as int),
                has_head == (batch_head(items@, k as int - 1) >= 0),
                total == start + drawn_before(items@, k as int),
                start == total_drawn(vs, v as int),
                total <= limit,
                limit == 715_827_882,
                forall|i: int| 0 <= i < k && #[trigger] in_batch(items@, i) ==> items@[i].request.unwrap().0 + 3 <= usize::MAX,
            decreases items.len() - k,
        {
            let item = items[k];
            match item.request {
                None => {
                    prev = INVALID_IMAGE;
                },
                Some((q, image)) => {
                    let starts = image != prev && item.image_ready;
                    let drawn = image == prev || item.image_ready;
                    if starts {
                        has_head = true;
                    }
                    prev = image;
                    if drawn && has_head {
                        assert(in_batch(items@, k as int));
                        if q > usize::MAX - 3 {
                            return false;
                        }
                        if total >= limit {
                            proof {
                                lemma_drawn_before_monotone(items@, k as int + 1, items@.len() as int);
                                assert(total_drawn(vs, v as int + 1) == start + drawn_before(items@, items@.len() as int));
                                lemma_total_drawn_monotone(vs, v as int + 1, vs.len() as int);
                            }
                            return false;
                        }
                        total = total + 1;
                    }
                },
            }
            k = k + 1;
        }
        proof {
            assert(total_drawn(vs, v as int + 1) == start + drawn_before(items@, items@.len() as int));
            assert forall|w: int, i: int|
                0 <= w < v + 1 && 0 <= i < views@[w].1@.len() && #[trigger] in_batch(views@[w].1@, i)
                    implies views@[w].1@[i].request.unwrap().0 + 3 <= usize::MAX by {
                if w == v {
                    assert(views@[w].1@ == items@);
                }
            }
        }
        v = v + 1;
    }
    true
}

/// The number of items drawn into a batch over the first `n` views.
pub open spec fn total_drawn(views: Seq<(u64, Seq<ResolvedItem>)>, n: int) -> int
    decreases n,
{
    if n <= 0 {
        0
    } else {
        total_drawn(views, n - 1) + drawn_before(views[n - 1].1, views[n - 1].1.len() as int)
    }
}

proof fn lemma_total_drawn_monotone(vs: Seq<(u64, Seq<ResolvedItem>)>, a: int, b: int)
    requires
        0 <= a <= b,
    ensures
        0 <= total_drawn(vs, a) <= total_drawn(vs, b),
    decreases b - a,
{
    if a < b {
        lemma_total_drawn_monotone(vs, a, b - 1);
    } else {
        lemma_total_drawn_nonneg(vs, a);
    }
}

proof fn lemma_total_drawn_nonneg(vs: Seq<(u64, Seq<ResolvedItem>)>, a: int)
    ensures
        0 <= total_drawn(vs, a),
    decreases a,
{
    if a > 0 {
        lemma_total_drawn_nonneg(vs, a - 1);
    }
}

/// How one view is batched, item by item: an item whose request is gone is
/// skipped and ends the current image; an item whose image differs from the
/// one it follows starts a batch when the image is on the GPU and is
/// skipped otherwise; every other item is drawn into the batch last started.
/// Batching fails exactly when an item is to be drawn before any batch was
/// started. The indices are those of the drawn items' quads in order, six
/// per item; the item that starts a batch counts the items drawn into it;
/// and the batch of each painter entity covers the indices of the items
/// drawn into the last batch that the entity started.
pub proof fn lemma_view_batching(s: BatchingState, view: u64, items: Seq<ResolvedItem>)
    requires
        0 <= s.index,
        s.index + 6 * drawn_before(items, items.len() as int) <= u32::MAX,
    ensures
        batch_view(s, view, items).ok == (s.ok && !view_fails(items)),
        batch_view(s, view, items).indices == s.indices + drawn_quad_indices(items, items.len() as int),
        batch_view(s, view, items).index == s.index + 6 * drawn_before(items, items.len() as int),
        batch_view(s, view, items).ends == Seq::new(
            items.len(),
            |i: int| if starts_batch(items, i) { batch_size(items, i, items.len() as int) as u32 } else { 0u32 },
        ),
        forall|i: int|
            0 <= i < items.len() && starts_batch(items, i) && last_head_of_entity(items, i, items.len() as int)
                ==> #[trigger] batch_view(s, view, items).batches[batch_key(view, items[i].entity)] == started_batch(
                items,
                i,
                items.len() as int,
                s.index,
            ),
{
    let n = items.len() as int;
    let s0 = view_start(s, items.len());
    lemma_batching_prefix(s0, view, items, n);
    let bv = batch_view(s, view, items);
    assert(bv.ends =~= Seq::new(
        items.len(),
        |i: int| if starts_batch(items, i) { batch_size(items, i, n) as u32 } else { 0u32 },
    ));
    if view_fails(items) {
        let k = choose|k: int| 0 <= k < items.len() && #[trigger] is_drawn(items, k) && batch_head(items, k) < 0;
        assert(!bv.ok);
    }
}

/// The indices of the quads of the first `n` items of a view, in order.
pub open spec fn items_quad_indices(items: Seq<ResolvedItem>, n: int) -> Seq<u32>
    decreases n,
{
    if n <= 0 {
        Seq::empty()
    } else {
        items_quad_indices(items, n - 1) + quad_indices(items[n - 1].request.unwrap().0)
    }
}

/// The indices of the quads of all items of the first `n` views, in order.
pub open spec fn views_quad_indices(vs: Seq<(u64, Seq<ResolvedItem>)>, n: int) -> Seq<u32>
    decreases n,
{
    if n <= 0 {
        Seq::empty()
    } else {
        views_quad_indices(vs, n - 1) + items_quad_indices(vs[n - 1].1, vs[n - 1].1.len() as int)
    }
}

/// Every item's request was found, with a real image that is on the GPU.
pub open spec fn all_drawable(vs: Seq<(u64, Seq<ResolvedItem>)>) -> bool {
    forall|v: int, i: int|
        0 <= v < vs.len() && 0 <= i < vs[v].1.len() ==> {
            let item = #[trigger] vs[v].1[i];
            &&& item.request is Some
            &&& item.request.unwrap().1 != INVALID_IMAGE
            &&& item.image_ready
        }
}

/// When every request is found and every image is on the GPU, batching
/// succeeds and draws every item: the indices are the quads of all items,
/// view after view, in order, six per item.
pub proof fn lemma_all_drawable_draws_everything(vs: Seq<(u64, Seq<ResolvedItem>)>, n: int)
    requires
        0 <= n <= vs.len(),
        all_drawable(vs),
    ensures
        batch_views(vs, n).0.ok,
        batch_views(vs, n).0.indices == views_quad_indices(vs, n),
        batch_views(vs, n).0.index == 6 * total_items(vs, n),
    decreases n,
{
    if n > 0 {
        lemma_all_drawable_draws_everything(vs, n - 1);
        let s = batch_views(vs, n - 1).0;
        let items = vs[n - 1].1;
        assert forall|i: int| 0 <= i < items.len() implies {
            let item = #[trigger] items[i];
            &&& item.request is Some
            &&& item.request.unwrap().1 != INVALID_IMAGE
            &&& item.image_ready
        } by {
            assert(items[i] == vs[n - 1].1[i]);
        }
        lemma_items_drawable(view_start(s, items.len()), vs[n - 1].0, items, items.len() as int);
    }
}

/// The image that item `k` of a view follows: the image of the item before
/// it, or "no image" for the first item and after an item whose request is
/// gone.
pub open spec fn prev_image(items: Seq<ResolvedItem>, k: int) -> u64 {
    if k <= 0 || items[k - 1].request is None {
        INVALID_IMAGE
    } else {
        items[k - 1].request.unwrap().1
    }
}

/// Item `k` starts a batch: its image differs from the one it follows and
/// is on the GPU.
pub open spec fn starts_batch(items: Seq<ResolvedItem>, k: int) -> bool {
    &&& items[k].request is Some
    &&& items[k].request.unwrap().1 != prev_image(items, k)
    &&& items[k].image_ready
}

/// Item `k` is to be drawn: its request was found, and its image is the
/// one it follows or is on the GPU. Other items are skipped.
pub open spec fn is_drawn(items: Seq<ResolvedItem>, k: int) -> bool {
    &&& items[k].request is Some
    &&& (items[k].request.unwrap().1 == prev_image(items, k) || items[k].image_ready)
}

/// The last item at or before `k` that starts a batch, or -1 when none does.
pub open spec fn batch_head(items: Seq<ResolvedItem>, k: int) -> int
    decreases k + 1,
{
    if k < 0 {
        -1
    } else if starts_batch(items, k) {
        k
    } else {
        batch_head(items, k - 1)
    }
}

/// Item `k` is drawn into a batch: it is to be drawn and some item before
/// it or it itself started a batch.
pub open spec fn in_batch(items: Seq<ResolvedItem>, k: int) -> bool {
    is_drawn(items, k) && batch_head(items, k) >= 0
}

/// The number of items among the first `m` that are drawn into a batch.
pub open spec fn drawn_before(items: Seq<ResolvedItem>, m: int) -> nat
    decreases m,
{
    if m <= 0 {
        0
    } else {
        drawn_before(items, m - 1) + if in_batch(items, m - 1) { 1nat } else { 0nat }
    }
}

/// The indices of the quads of the items among the first `m` that are
/// drawn into a batch, in order.
pub open spec fn drawn_quad_indices(items: Seq<ResolvedItem>, m: int) -> Seq<u32>
    decreases m,
{
    if m <= 0 {
        Seq::empty()
    } else {
        drawn_quad_indices(items, m - 1) + if in_batch(items, m - 1) {
            quad_indices(items[m - 1].request.unwrap().0)
        } else {
            Seq::empty()
        }
    }
}

/// The number of items among the first `m` drawn into the batch that item
/// `i` started.
pub open spec fn batch_size(items: Seq<ResolvedItem>, i: int, m: int) -> nat
    decreases m,
{
    if m <= 0 {
        0
    } else {
        batch_size(items, i, m - 1) + if in_batch(items, m - 1) && batch_head(items, m - 1) == i {
            1nat
        } else {
            0nat
        }
    }
}

/// Per item of a view: the number of items drawn into the batch that it
/// starts, or zero for an item that starts none.
pub open spec fn batch_counts(items: Seq<ResolvedItem>) -> Seq<u32> {
    Seq::new(
        items.len(),
        |i: int| if starts_batch(items, i) { batch_size(items, i, items.len() as int) as u32 } else { 0u32 },
    )
}

/// Some item of the view is to be drawn before any batch was started.
pub open spec fn view_fails(items: Seq<ResolvedItem>) -> bool {
    exists|k: int| 0 <= k < items.len() && #[trigger] is_drawn(items, k) && batch_head(items, k) < 0
}

/// No item after `i`, among the first `m`, starts a batch with the same
/// painter entity.
pub open spec fn last_head_of_entity(items: Seq<ResolvedItem>, i: int, m: int) -> bool {
    forall|j: int| i < j < m && starts_batch(items, j) ==> #[trigger] items[j].entity != items[i].entity
}

/// The batch that item `i` started, after the first `m` items, when the
/// view's indices begin at `index`.
pub open spec fn started_batch(items: Seq<ResolvedItem>, i: int, m: int, index: int) -> PainterBatch {
    PainterBatch {
        image: items[i].request.unwrap().1,
        start: (index + 6 * drawn_before(items, i)) as u32,
        end: (index + 6 * (drawn_before(items, i) + batch_size(items, i, m))) as u32,
    }
}

proof fn lemma_drawn_before_monotone(items: Seq<ResolvedItem>, a: int, b: int)
    requires
        a <= b,
    ensures
        drawn_before(items, a) <= drawn_before(items, b),
    decreases b - a,
{
    if a < b {
        lemma_drawn_before_monotone(items, a, b - 1);
    }
}

proof fn lemma_batch_size_bound(items: Seq<ResolvedItem>, i: int, m: int)
    requires
        0 <= i <= m,
    ensures
        drawn_before(items, i) + batch_size(items, i, m) <= drawn_before(items, m),
    decreases m,
{
    if m > i {
        lemma_batch_size_bound(items, i, m - 1);
    } else {
        lemma_batch_size_zero(items, i, m);
    }
}

proof fn lemma_batch_size_zero(items: Seq<ResolvedItem>, i: int, m: int)
    requires
        0 <= m <= i,
    ensures
        batch_size(items, i, m) == 0,
    decreases m,
{
    if m > 0 {
        lemma_batch_size_zero(items, i, m - 1);
        assert(batch_head(items, m - 1) <= m - 1) by {
            lemma_batch_head_bound(items, m - 1);
        }
    }
}

proof fn lemma_batch_head_bound(items: Seq<ResolvedItem>, k: int)
    requires
        k >= -1,
    ensures
        batch_head(items, k) <= k,
        batch_head(items, k) >= 0 ==> starts_batch(items, batch_head(items, k)),
        forall|j: int| batch_head(items, k) < j <= k ==> !#[trigger] starts_batch(items, j),
    decreases k + 1,
{
    if k >= 0 && !starts_batch(items, k) {
        lemma_batch_head_bound(items, k - 1);
    }
}

/// The batching state after the first `m` items of a view, stated over
/// the items directly.
proof fn lemma_batching_prefix(s0: BatchingState, view: u64, items: Seq<ResolvedItem>, m: int)
    requires
        0 <= m <= items.len(),
        s0.ends == Seq::new(items.len(), |i: int| 0u32),
        s0.handle == INVALID_IMAGE,
        s0.current is None,
        0 <= s0.index,
        s0.index + 6 * drawn_before(items, items.len() as int) <= u32::MAX,
    ensures
        ({
            let st = batch_items(s0, view, items, m);
            let h = batch_head(items, m - 1);
            &&& st.handle == prev_image(items, m)
            &&& st.current == (if h >= 0 { Some(items[h].entity) } else { None::<u64> })
            &&& h >= 0 ==> st.head == h
            &&& st.ok == (s0.ok && forall|k: int| 0 <= k < m && #[trigger] is_drawn(items, k) ==> batch_head(items, k) >= 0)
            &&& st.indices == s0.indices + drawn_quad_indices(items, m)
            &&& st.index == s0.index + 6 * drawn_before(items, m)
            &&& st.ends.len() == items.len()
            &&& forall|i: int|
                0 <= i < items.len() ==> #[trigger] st.ends[i] == (if i < m && starts_batch(items, i) {
                    batch_size(items, i, m) as u32
                } else {
                    0u32
                })
            &&& forall|i: int|
                0 <= i < m && starts_batch(items, i) && last_head_of_entity(items, i, m) ==> #[trigger] st.batches[batch_key(
                    view,
                    items[i].entity,
                )] == started_batch(items, i, m, s0.index)
        }),
    decreases m,
{
    if m == 0 {
        assert(s0.indices + drawn_quad_indices(items, 0) == s0.indices);
        assert(batch_items(s0, view, items, 0) == s0);
    } else {
        let k = m - 1;
        lemma_batching_prefix(s0, view, items, k);
        let pre = batch_items(s0, view, items, k);
        let st = batch_items(s0, view, items, m);
        let hp = batch_head(items, k - 1);
        let h = batch_head(items, k);
        let item = items[k];
        lemma_drawn_before_monotone(items, m, items.len() as int);
        lemma_batch_head_bound(items, k - 1);
        assert(drawn_quad_indices(items, m) == drawn_quad_indices(items, k) + if in_batch(items, k) {
            quad_indices(item.request.unwrap().0)
        } else {
            Seq::empty()
        });
        assert forall|i: int| 0 <= i < k && starts_batch(items, i) implies drawn_before(items, i) + batch_size(items, i, m)
            <= drawn_before(items, m) by {
            lemma_batch_size_bound(items, i, m);
        }
        match item.request {
            None => {
                assert(!starts_batch(items, k) && !is_drawn(items, k));
                assert(h == hp);
                assert(st.indices == s0.indices + drawn_quad_indices(items, m));
            },
            Some((q, img)) => {
                if pre.handle != img && !item.image_ready {
                    assert(!starts_batch(items, k) && !is_drawn(items, k));
                    assert(h == hp);
                    assert(st.indices == s0.indices + drawn_quad_indices(items, m));
                } else if pre.handle != img {
                    assert(starts_batch(items, k));
                    assert(h == k);
                    assert(in_batch(items, k));
                    lemma_batch_size_zero(items, k, k);
                    lemma_batch_size_bound(items, k, m);
                    assert(st.indices == s0.indices + drawn_quad_indices(items, m));
                    assert forall|i: int|
                        0 <= i < m && starts_batch(items, i) && last_head_of_entity(items, i, m) implies #[trigger] st.batches[batch_key(
                        view,
                        items[i].entity,
                    )] == started_batch(items, i, m, s0.index) by {
                        if i < k {
                            assert(items[k].entity != items[i].entity);
                            lemma_batch_key_injective(view, item.entity, items[i].entity);
                        }
                    }
                    assert forall|i: int| 0 <= i < items.len() implies #[trigger] st.ends[i] == (if i < m && starts_batch(
                        items,
                        i,
                    ) {
                        batch_size(items, i, m) as u32
                    } else {
                        0u32
                    }) by {
                    }
                } else {
                    assert(!starts_batch(items, k) && is_drawn(items, k));
                    assert(h == hp);
                    if hp >= 0 {
                        assert(in_batch(items, k));
                        lemma_batch_size_bound(items, hp, k);
                        lemma_batch_size_bound(items, hp, m);
                        assert(st.indices == s0.indices + drawn_quad_indices(items, m));
                        assert forall|i: int|
                            0 <= i < m && starts_batch(items, i) && last_head_of_entity(items, i, m) implies #[trigger] st.batches[batch_key(
                            view,
                            items[i].entity,
                        )] == started_batch(items, i, m, s0.index) by {
                            if i != hp {
                                assert(i < hp);
                                assert(items[hp].entity != items[i].entity);
                                lemma_batch_key_injective(view, items[hp].entity, items[i].entity);
                            }
                        }
                        assert forall|i: int| 0 <= i < items.len() implies #[trigger] st.ends[i] == (if i < m
                            && starts_batch(items, i) {
                            batch_size(items, i, m) as u32
                        } else {
                            0u32
                        }) by {
                        }
                    } else {
                        assert(!in_batch(items, k));
                        assert(st.indices == s0.indices + drawn_quad_indices(items, m));
                    }
                }
            },
        }
    }
}

/// The image of an item's request.
pub open spec fn item_image(item: ResolvedItem) -> u64 {
    item.request.unwrap().1
}

/// Item `i` starts a run of consecutive items with one image.
pub open spec fn run_start(items: Seq<ResolvedItem>, i: int) -> bool {
    i == 0 || item_image(items[i - 1]) != item_image(items[i])
}

/// One past the last item of the run that item `i` belongs to.
pub open spec fn run_end(items: Seq<ResolvedItem>, i: int) -> int
    decreases items.len() - i,
{
    if i + 1 >= items.len() {
        items.len() as int
    } else if run_start(items, i + 1) {
        i + 1
    } else {
        run_end(items, i + 1)
    }
}

/// Every item of a view is drawable: its request was found, with a real
/// image that is on the GPU.
pub open spec fn items_drawable(items: Seq<ResolvedItem>) -> bool {
    forall|i: int| 0 <= i < items.len() ==> {
        let item = #[trigger] items[i];
        &&& item.request is Some
        &&& item.request.unwrap().1 != INVALID_IMAGE
        &&& item.image_ready
    }
}

/// Per item of a view: the length of the run it starts, or zero.
pub open spec fn run_lengths(items: Seq<ResolvedItem>) -> Seq<u32> {
    Seq::new(items.len(), |i: int| if run_start(items, i) { (run_end(items, i) - i) as u32 } else { 0u32 })
}

/// No run after item `i` starts with the same painter entity.
pub open spec fn last_run_of_entity(items: Seq<ResolvedItem>, i: int) -> bool {
    forall|j: int| i < j < items.len() && run_start(items, j) ==> #[trigger] items[j].entity != items[i].entity
}

/// When every item of a view is drawable, each maximal run of items with
/// one image is one batch: the item that starts it draws the whole run, and
/// its batch covers six indices per item of the run, from the run's first
/// quad on; the indices are those of every quad in order.
pub proof fn lemma_runs_are_batches(s: BatchingState, view: u64, items: Seq<ResolvedItem>)
    requires
        items_drawable(items),
        0 <= s.index,
        s.index + 6 * items.len() <= u32::MAX,
    ensures
        batch_view(s, view, items).ends == run_lengths(items),
        batch_view(s, view, items).indices == s.indices + items_quad_indices(items, items.len() as int),
        batch_view(s, view, items).index == s.index + 6 * items.len(),
        forall|i: int|
            0 <= i < items.len() && run_start(items, i) && last_run_of_entity(items, i) ==> #[trigger] batch_view(
                s,
                view,
                items,
            ).batches[batch_key(view, items[i].entity)] == (PainterBatch {
                image: item_image(items[i]),
                start: (s.index + 6 * i) as u32,
                end: (s.index + 6 * run_end(items, i)) as u32,
            }),
{
    let n = items.len() as int;
    let s0 = view_start(s, items.len());
    if n == 0 {
        assert(batch_view(s, view, items).ends =~= run_lengths(items));
        assert(s.indices + items_quad_indices(items, 0) == s.indices);
    } else {
        lemma_runs_prefix(s0, view, items, n);
        let st = batch_items(s0, view, items, n);
        lemma_run_end_reaches(items, st.head, n);
        assert(st.ends =~= run_lengths(items));
        assert forall|i: int|
            0 <= i < items.len() && run_start(items, i) && last_run_of_entity(items, i) implies #[trigger] st.batches[batch_key(
                view,
                items[i].entity,
            )] == (PainterBatch {
                image: item_image(items[i]),
                start: (s.index + 6 * i) as u32,
                end: (s.index + 6 * run_end(items, i)) as u32,
            }) by {
            if i == st.head {
            } else if i > st.head {
                assert(!run_start(items, i));
            }
        }
    }
}

/// A run that no later item up to `m` starts anew ends at `m`, when `m` is
/// the end of the view or starts a run.
proof fn lemma_run_end_reaches(items: Seq<ResolvedItem>, h: int, m: int)
    requires
        0 <= h < m <= items.len(),
        forall|j: int| h < j < m ==> !#[trigger] run_start(items, j),
        m == items.len() || run_start(items, m),
    ensures
        run_end(items, h) == m,
    decreases m - h,
{
    if h + 1 < m {
        assert(!run_start(items, h + 1));
        lemma_run_end_reaches(items, h + 1, m);
    }
}

/// Two painter entities of one view share a batch key only when they are
/// the same.
proof fn lemma_batch_key_injective(view: u64, a: u64, b: u64)
    ensures
        batch_key(view, a) == batch_key(view, b) <==> a == b,
{
    assert(view * 0x1_0000_0000_0000_0000 + a <= u128::MAX) by (nonlinear_arith)
        requires
            view <= u64::MAX,
            a <= u64::MAX,
    ;
    assert(view * 0x1_0000_0000_0000_0000 + b <= u128::MAX) by (nonlinear_arith)
        requires
            view <= u64::MAX,
            b <= u64::MAX,
    ;
}

/// The batching state after the first `m` items of a view of drawable items.
proof fn lemma_runs_prefix(s0: BatchingState, view: u64, items: Seq<ResolvedItem>, m: int)
    requires
        items_drawable(items),
        0 <= s0.index,
        s0.index + 6 * items.len() <= u32::MAX,
        s0.ends == Seq::new(items.len(), |i: int| 0u32),
        s0.handle == INVALID_IMAGE,
        1 <= m <= items.len(),
    ensures
        ({
            let st = batch_items(s0, view, items, m);
            &&& st.index == s0.index + 6 * m
            &&& st.indices == s0.indices + items_quad_indices(items, m)
            &&& 0 <= st.head < m
            &&& run_start(items, st.head)
            &&& forall|j: int| st.head < j < m ==> !#[trigger] run_start(items, j)
            &&& st.handle == item_image(items[m - 1])
            &&& st.current == Some(items[st.head].entity)
            &&& st.ends.len() == items.len()
            &&& forall|i: int|
                0 <= i < items.len() ==> #[trigger] st.ends[i] == (if i == st.head {
                    (m - st.head) as u32
                } else if i < m && run_start(items, i) {
                    (run_end(items, i) - i) as u32
                } else {
                    0u32
                })
            &&& st.batches[batch_key(view, items[st.head].entity)] == (PainterBatch {
                image: item_image(items[st.head]),
                start: (s0.index + 6 * st.head) as u32,
                end: (s0.index + 6 * m) as u32,
            })
            &&& forall|i: int|
                0 <= i < st.head && run_start(items, i) && (forall|j: int|
                    i < j < m && run_start(items, j) ==> #[trigger] items[j].entity != items[i].entity) ==> #[trigger] st.batches[batch_key(
                    view,
                    items[i].entity,
                )] == (PainterBatch {
                    image: item_image(items[i]),
                    start: (s0.index + 6 * i) as u32,
                    end: (s0.index + 6 * run_end(items, i)) as u32,
                })
        }),
    decreases m,
{
    let k = m - 1;
    let item = items[k];
    assert(item.request is Some && item.request.unwrap().1 != INVALID_IMAGE && item.image_ready);
    let img = item_image(item);
    if m == 1 {
        let pre = batch_items(s0, view, items, 0);
        assert(pre == s0);
        assert(items_quad_indices(items, 1) == items_quad_indices(items, 0) + quad_indices(item.request.unwrap().0));
        assert(s0.indices + items_quad_indices(items, 0) == s0.indices);
    } else {
        lemma_runs_prefix(s0, view, items, m - 1);
        let pre = batch_items(s0, view, items, m - 1);
        let h = pre.head;
        assert(items_quad_indices(items, m) == items_quad_indices(items, m - 1) + quad_indices(item.request.unwrap().0));
        if pre.handle != img {
            assert(run_start(items, k));
            lemma_run_end_reaches(items, h, k);
            let st = batch_items(s0, view, items, m);
            let e = item.entity;
            assert forall|i: int|
                0 <= i < k && run_start(items, i) && (forall|j: int|
                    i < j < m && run_start(items, j) ==> #[trigger] items[j].entity != items[i].entity) implies #[trigger] st.batches[batch_key(
                view,
                items[i].entity,
            )] == (PainterBatch {
                image: item_image(items[i]),
                start: (s0.index + 6 * i) as u32,
                end: (s0.index + 6 * run_end(items, i)) as u32,
            }) by {
                assert(items[k].entity != items[i].entity);
                lemma_batch_key_injective(view, e, items[i].entity);
                if i != h {
                    assert(i < h);
                }
            }
            assert forall|i: int| 0 <= i < items.len() implies #[trigger] st.ends[i] == (if i == k {
                (m - k) as u32
            } else if i < m && run_start(items, i) {
                (run_end(items, i) - i) as u32
            } else {
                0u32
            }) by {
                if i == h {
                    assert(pre.ends[i] == (k - h) as u32);
                }
            }
        } else {
            assert(!run_start(items, k));
            let st = batch_items(s0, view, items, m);
            assert forall|i: int|
                0 <= i < h && run_start(items, i) && (forall|j: int|
                    i < j < m && run_start(items, j) ==> #[trigger] items[j].entity != items[i].entity) implies #[trigger] st.batches[batch_key(
                view,
                items[i].entity,
            )] == (PainterBatch {
                image: item_image(items[i]),
                start: (s0.index + 6 * i) as u32,
                end: (s0.index + 6 * run_end(items, i)) as u32,
            }) by {
                assert(items[h].entity != items[i].entity);
                lemma_batch_key_injective(view, items[h].entity, items[i].entity);
            }
            assert forall|i: int| 0 <= i < items.len() implies #[trigger] st.ends[i] == (if i == h {
                (m - h) as u32
            } else if i < m && run_start(items, i) {
                (run_end(items, i) - i) as u32
            } else {
                0u32
            }) by {
            }
        }
    }
}

proof fn lemma_items_drawable(s: BatchingState, view: u64, items: Seq<ResolvedItem>, m: int)
    requires
        0 <= m <= items.len(),
        s.ok,
        s.handle != INVALID_IMAGE ==> s.current is Some,
        forall|i: int| 0 <= i < items.len() ==> {
            let item = #[trigger] items[i];
            &&& item.request is Some
            &&& item.request.unwrap().1 != INVALID_IMAGE
            &&& item.image_ready
        },
    ensures
        ({
            let t = batch_items(s, view, items, m);
            &&& t.ok
            &&& t.indices == s.indices + items_quad_indices(items, m)
            &&& t.index == s.index + 6 * m
            &&& t.handle != INVALID_IMAGE ==> t.current is Some
        }),
    decreases m,
{
    if m > 0 {
        lemma_items_drawable(s, view, items, m - 1);
        let t = batch_items(s, view, items, m - 1);
        let item = items[m - 1];
        assert(item.request is Some);
        assert(t.indices + quad_indices(item.request.unwrap().0) == s.indices + items_quad_indices(items, m));
    } else {
        assert(s.indices + items_quad_indices(items, 0) == s.indices);
    }
}

proof fn lemma_batch_items_not_ok(s: BatchingState, view: u64, items: Seq<ResolvedItem>, a: int, b: int)
    requires
        0 <= a <= b,
        !batch_items(s, view, items, a).ok,
    ensures
        !batch_items(s, view, items, b).ok,
    decreases b - a,
{
    if a < b {
        lemma_batch_items_not_ok(s, view, items, a, b - 1);
    }
}

proof fn lemma_batch_views_not_ok(vs: Seq<(u64, Seq<ResolvedItem>)>, a: int, b: int)
    requires
        0 < a <= b,
        !batch_views(vs, a).0.ok,
    ensures
        !batch_views(vs, b).0.ok,
    decreases b - a,
{
    if a < b {
        lemma_batch_views_not_ok(vs, a, b - 1);
        let s = batch_views(vs, b - 1).0;
        let items = vs[b - 1].1;
        assert(!view_start(s, items.len()).ok);
        lemma_batch_items_not_ok(view_start(s, items.len()), vs[b - 1].0, items, 0, items.len() as int);
    }
}

/// What happened to an image asset.
#[derive(Clone, Copy, Debug, PartialEq, Eq, Structural)]
pub enum ImageEventKind {
    Added,
    LoadedWithDependencies,
    Unused,
    Modified,
    Removed,
}

/// Whether an image event drops the texture bind group cached for the
/// image: an image no longer used, changed or removed needs a new one; an
/// image added or loaded keeps what it has.
pub fn drops_bind_group(event: ImageEventKind) -> (b: bool)
    ensures
        b == (event == ImageEventKind::Unused || event == ImageEventKind::Modified || event == ImageEventKind::Removed),
{
    match event {
        ImageEventKind::Added | ImageEventKind::LoadedWithDependencies => false,
        ImageEventKind::Unused | ImageEventKind::Modified | ImageEventKind::Removed => true,
    }
}

/// Which texture a batch is drawn with.
#[derive(Clone, Copy, Debug, PartialEq, Eq, Structural)]
pub enum TextureBinding {
    /// The fallback texture, for a batch of the default image.
    Fallback,
    /// The bind group made for this image.
    Image(u64),
    /// The item is not drawn: it has no batch, or its image has no bind
    /// group yet.
    Skip,
}

/// The texture for the batch of an item (`None` when the item has no
/// batch): the fallback for the default image, else the image's own bind
/// group when it has one (`bound`), else nothing.
pub fn texture_binding(batch: Option<PainterBatch>, default_image: u64, bound: bool) -> (r: TextureBinding)
    ensures
        r == match batch {
            None => TextureBinding::Skip,
            Some(b) => if b.image == default_image {
                TextureBinding::Fallback
            } else if bound {
                TextureBinding::Image(b.image)
            } else {
                TextureBinding::Skip
            },
        },
{
    match batch {
        None => TextureBinding::Skip,
        Some(b) => {
            if b.image == default_image {
                TextureBinding::Fallback
            } else if bound {
                TextureBinding::Image(b.image)
            } else {
                TextureBinding::Skip
            }
        },
    }
}

/// A painter request queued for drawing in a view.
#[derive(Clone, Copy, Debug)]
pub struct QueuedRequest {
    pub painter_key: PainterPipelineKey,
    /// The position of the request among its painter's requests.
    pub extracted_index: usize,
    /// The layer the request is sorted by (the bit pattern of an `f32`).
    pub layer: u32,
}

/// `q` queues the request `r` at position `i` of its painter.
pub open spec fn queued_for(q: QueuedRequest, i: int, r: (usize, RequestKey)) -> bool {
    &&& q.extracted_index == i
    &&& q.layer == r.1.layer
    &&& q.painter_key.0 == match r.1.blend {
        Blending::Normal => PainterPipelineKey::NONE,
        Blending::Additive => PainterPipelineKey::BLEND_ADDITIVE,
    }
}

/// Queues every request of a painter, in order, with the pipeline key of
/// its blending.
pub fn queue_painter_requests(requests: &Vec<(usize, RequestKey)>) -> (queued: Vec<QueuedRequest>)
    ensures
        queued@.len() == requests@.len(),
        forall|i: int| 0 <= i < requests@.len() ==> queued_for(#[trigger] queued@[i], i, requests@[i]),
{
    let mut queued: Vec<QueuedRequest> = Vec::new();
    let mut i: usize = 0;
    while i < requests.len()
        invariant
            i <= requests@.len(),
            queued@.len() == i,
            forall|j: int| 0 <= j < i ==> queued_for(#[trigger] queued@[j], j, requests@[j]),
        decreases requests@.len() - i,
    {
        let key = requests[i].1;
        let ghost before = queued@;
        let painter_key = PainterPipelineKey::from_blend(key.blend);
        queued.push(QueuedRequest { painter_key, extracted_index: i, layer: key.layer });
        proof {
            assert forall|j: int| 0 <= j < i + 1 implies queued_for(#[trigger] queued@[j], j, requests@[j]) by {
                if j < i {
                    assert(queued@[j] == before[j]);
                }
            }
        }
        i = i + 1;
    }
    queued
}

/// The tone mapping methods that the sprite pipeline key can name
/// (`Plain` for no tone mapping curve).
#[derive(Clone, Copy, Debug, PartialEq, Eq, Structural)]
pub enum TonemapMethod {
    Plain,
    Reinhard,
    ReinhardLuminance,
    AcesFitted,
    AgX,
    SomewhatBoringDisplayTransform,
    TonyMcMapface,
    BlenderFilmic,
}

/// How a view's painter items are shaded: whether the view is HDR, whether
/// tone mapping happens in the shader and with which method, and whether
/// to deband.
#[derive(Clone, Copy, Debug, PartialEq, Eq, Structural)]
pub struct SpriteShading {
    pub hdr: bool,
    pub tonemap_in_shader: bool,
    pub method: TonemapMethod,
    pub deband_dither: bool,
}

/// The shading of a view that is HDR or not, with its tone mapping (if it
/// has one; `Plain` for a view that asks for none) and whether it asks for
/// deband dithering: an HDR view is tone mapped later, so only a view that
/// is not HDR tone maps and debands in the shader.
pub fn view_sprite_shading(hdr: bool, tonemapping: Option<TonemapMethod>, deband_dither: bool) -> (s: SpriteShading)
    ensures
        s.hdr == hdr,
        s.tonemap_in_shader == (!hdr && tonemapping is Some),
        s.method == (if !hdr && tonemapping is Some { tonemapping.unwrap() } else { TonemapMethod::Plain }),
        s.deband_dither == (!hdr && deband_dither),
{
    if hdr {
        return SpriteShading { hdr, tonemap_in_shader: false, method: TonemapMethod::Plain, deband_dither: false };
    }
    match tonemapping {
        Some(method) => SpriteShading { hdr, tonemap_in_shader: true, method, deband_dither },
        None => SpriteShading { hdr, tonemap_in_shader: false, method: TonemapMethod::Plain, deband_dither },
    }
}

/// A shader definition of the painter pipeline.
#[derive(Clone, Copy, Debug, PartialEq, Eq, Structural)]
pub enum ShaderDef {
    TonemapInShader,
    /// The binding index of the tone mapping lookup texture.
    TonemappingLutTextureBindingIndex(u32),
    /// The binding index of the tone mapping lookup sampler.
    TonemappingLutSamplerBindingIndex(u32),
    /// The tone mapping method.
    Method(TonemapMethod),
    DebandDither,
}

/// The shader definitions for a sprite key that asks for tone mapping in
/// the shader (with `method`) and possibly for deband dithering; none
/// without tone mapping in the shader.
pub fn painter_shader_defs(tonemap_in_shader: bool, method: TonemapMethod, deband_dither: bool) -> (defs: Vec<ShaderDef>)
    ensures
        !tonemap_in_shader ==> defs@ == Seq::<ShaderDef>::empty(),
        tonemap_in_shader && !deband_dither ==> defs@ == seq![
            ShaderDef::TonemapInShader,
            ShaderDef::TonemappingLutTextureBindingIndex(1),
            ShaderDef::TonemappingLutSamplerBindingIndex(2),
            ShaderDef::Method(method),
        ],
        tonemap_in_shader && deband_dither ==> defs@ == seq![
            ShaderDef::TonemapInShader,
            ShaderDef::TonemappingLutTextureBindingIndex(1),
            ShaderDef::TonemappingLutSamplerBindingIndex(2),
            ShaderDef::Method(method),
            ShaderDef::DebandDither,
        ],
{
    let mut defs: Vec<ShaderDef> = Vec::new();
    if tonemap_in_shader {
        defs.push(ShaderDef::TonemapInShader);
        defs.push(ShaderDef::TonemappingLutTextureBindingIndex(1));
        defs.push(ShaderDef::TonemappingLutSamplerBindingIndex(2));
        defs.push(ShaderDef::Method(method));
        if deband_dither {
            defs.push(ShaderDef::DebandDither);
        }
    }
    defs
}

} // verus!
