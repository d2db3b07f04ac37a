//! A pool of cameras that render into images. Cameras in use are freed at
//! the start of each frame and handed out again before new ones are made;
//! every pooled camera owns one render image, which is rebuilt when the
//! primary camera's target changes size.
use crate::math::UVec2;
use vstd::prelude::*;

verus! {

/// The steps of a frame that work on pooled cameras, in the order they run.
#[derive(Clone, Copy, Debug, PartialEq, Eq, Structural)]
pub enum PooledCameraSystems {
    Free,
    Prepare,
    Obtain,
    UpdateImages,
}

/// The abstract state of a [`CameraPool`].
pub struct CameraPoolState<H> {
    pub needs_resize: bool,
    /// The render image of every pooled camera, in the order the cameras
    /// were made.
    pub images: Seq<H>,
    /// The images from this position on are to be rebuilt.
    pub dirty_image: nat,
    /// Cameras in use this frame.
    pub allocated: Seq<u64>,
    /// Cameras free to be handed out.
    pub free: Seq<u64>,
}

/// Pooled cameras, named by their entity bits, and their render images.
pub struct CameraPool<H> {
    needs_resize: bool,
    images: Vec<H>,
    dirty_image: usize,
    allocated: Vec<u64>,
    free: Vec<u64>,
}

impl<H> View for CameraPool<H> {
    type V = CameraPoolState<H>;

    closed spec fn view(&self) -> CameraPoolState<H> {
        CameraPoolState {
            needs_resize: self.needs_resize,
            images: self.images@,
            dirty_image: self.dirty_image as nat,
            allocated: self.allocated@,
            free: self.free@,
        }
    }
}

/// Every pooled camera is either in use or free, never both and never
/// twice, and owns exactly one image; the dirty images are a suffix.
pub open spec fn pool_wf<H>(s: CameraPoolState<H>) -> bool {
    &&& s.dirty_image <= s.images.len()
    &&& s.images.len() == s.allocated.len() + s.free.len()
    &&& (s.allocated + s.free).no_duplicates()
}

/// The images to rebuild for a target of `size` (none without a target),
/// as a range of positions, and the state afterwards.
pub open spec fn spec_dirty_images<H>(s: CameraPoolState<H>, size: Option<UVec2>) -> (Option<(nat, nat)>, CameraPoolState<H>) {
    match size {
        None => (None, s),
        Some(_) => {
            let start = if s.needs_resize { 0 } else { s.dirty_image };
            (
                Some((start, s.images.len())),
                CameraPoolState { needs_resize: false, dirty_image: s.images.len(), ..s },
            )
        },
    }
}

/// The state after the primary camera's target was found to be `size`
/// (none without a target), when it was `last` before: a change of size
/// calls for a resize.
pub open spec fn spec_primary_update<H>(s: CameraPoolState<H>, last: UVec2, size: Option<UVec2>) -> (CameraPoolState<H>, UVec2) {
    match size {
        None => (s, last),
        Some(now) => (CameraPoolState { needs_resize: s.needs_resize || now != last, ..s }, now),
    }
}

/// The state after every camera in use is freed.
pub open spec fn spec_free_all<H>(s: CameraPoolState<H>) -> CameraPoolState<H> {
    CameraPoolState { allocated: Seq::empty(), free: s.free + s.allocated, ..s }
}

/// The camera handed out by [`CameraPool::obtain`] and the state after it:
/// the free camera freed last, or none.
pub open spec fn spec_obtain<H>(s: CameraPoolState<H>) -> (Option<u64>, CameraPoolState<H>) {
    if s.free.len() == 0 {
        (None, s)
    } else {
        (Some(s.free.last()), CameraPoolState { free: s.free.drop_last(), allocated: s.allocated.push(s.free.last()), ..s })
    }
}

impl<H> CameraPool<H> {
    pub open spec fn wf(&self) -> bool {
        pool_wf(self@)
    }

    pub fn needs_resize(&self) -> (b: bool)
        ensures
            b == self@.needs_resize,
    {
        self.needs_resize
    }

    /// The cameras in use this frame.
    pub fn in_use(&self) -> (v: &Vec<u64>)
        ensures
            v@ == self@.allocated,
    {
        &self.allocated
    }

    /// The cameras free to be handed out.
    pub fn free_cameras(&self) -> (v: &Vec<u64>)
        ensures
            v@ == self@.free,
    {
        &self.free
    }

    /// The position from which images are to be rebuilt.
    pub fn dirty_image(&self) -> (d: usize)
        ensures
            d == self@.dirty_image,
    {
        self.dirty_image
    }

    /// The render images, one per pooled camera.
    pub fn images(&self) -> (v: &Vec<H>)
        ensures
            v@ == self@.images,
    {
        &self.images
    }

    /// Hands out a free camera, which is then in use; `None` when no camera
    /// is free, and a new one has to be made and [`register`](Self::register)ed.
    pub fn obtain(&mut self) -> (r: Option<u64>)
        requires
            old(self).wf(),
        ensures
            final(self).wf(),
            final(self)@.images == old(self)@.images,
            final(self)@.dirty_image == old(self)@.dirty_image,
            final(self)@.needs_resize == old(self)@.needs_resize,
            (r, final(self)@) == spec_obtain(old(self)@),
            old(self)@.free.len() == 0 ==> r is None && final(self)@ == old(self)@,
            old(self)@.free.len() > 0 ==> {
                &&& r == Some(old(self)@.free.last())
                &&& final(self)@.free == old(self)@.free.drop_last()
                &&& final(self)@.allocated == old(self)@.allocated.push(old(self)@.free.last())
            },
    {
        match self.free.pop() {
            Some(e) => {
                let ghost a = old(self).allocated@;
                let ghost f = old(self).free@;
                self.allocated.push(e);
                proof {
                    assert(f == f.drop_last().push(e));
                    assert forall|i: int, j: int|
                        0 <= i < (a.push(e) + f.drop_last()).len() && 0 <= j < (a.push(e) + f.drop_last()).len() && i != j
                        implies (a.push(e) + f.drop_last())[i] != (a.push(e) + f.drop_last())[j] by {
                        let m = |k: int| if k < a.len() { k } else if k == a.len() { (a + f).len() - 1 } else { k - 1 };
                        assert((a.push(e) + f.drop_last())[i] == (a + f)[m(i)]);
                        assert((a.push(e) + f.drop_last())[j] == (a + f)[m(j)]);
                    }
                }
                Some(e)
            },
            None => None,
        }
    }

    /// Takes in a camera just made, with its render image; it is in use.
    pub fn register(&mut self, entity: u64, image: H)
        requires
            old(self).wf(),
            !(old(self)@.allocated + old(self)@.free).contains(entity),
        ensures
            final(self).wf(),
            final(self)@.allocated == old(self)@.allocated.push(entity),
            final(self)@.free == old(self)@.free,
            final(self)@.images == old(self)@.images.push(image),
            final(self)@.dirty_image == old(self)@.dirty_image,
            final(self)@.needs_resize == old(self)@.needs_resize,
    {
        let ghost a = old(self).allocated@;
        let ghost f = old(self).free@;
        self.allocated.push(entity);
        self.images.push(image);
        proof {
            assert forall|i: int, j: int|
                0 <= i < (a.push(entity) + f).len() && 0 <= j < (a.push(entity) + f).len() && i != j
                implies (a.push(entity) + f)[i] != (a.push(entity) + f)[j] by {
                let m = |k: int| if k < a.len() { k } else if k == a.len() { -1 } else { k - 1 };
                if i != a.len() as int {
                    assert((a.push(entity) + f)[i] == (a + f)[m(i)]);
                }
                if j != a.len() as int {
                    assert((a.push(entity) + f)[j] == (a + f)[m(j)]);
                }
            }
        }
    }
}

/// An empty pool.
pub fn init_camera_pool<H>() -> (pool: CameraPool<H>)
    ensures
        pool.wf(),
        !pool@.needs_resize,
        pool@.images == Seq::<H>::empty(),
        pool@.dirty_image == 0,
        pool@.allocated == Seq::<u64>::empty(),
        pool@.free == Seq::<u64>::empty(),
{
    CameraPool { needs_resize: false, images: Vec::new(), dirty_image: 0, allocated: Vec::new(), free: Vec::new() }
}

/// Frees every camera in use: they join the free ones, in order. The
/// result is the cameras freed, to be switched off.
pub fn free_pooled_cameras<H>(pool: &mut CameraPool<H>) -> (freed: Vec<u64>)
    requires
        old(pool).wf(),
    ensures
        final(pool).wf(),
        freed@ == old(pool)@.allocated,
        final(pool)@ == spec_free_all(old(pool)@),
        final(pool)@.allocated == Seq::<u64>::empty(),
        final(pool)@.free == old(pool)@.free + old(pool)@.allocated,
        final(pool)@.images == old(pool)@.images,
        final(pool)@.dirty_image == old(pool)@.dirty_image,
        final(pool)@.needs_resize == old(pool)@.needs_resize,
{
    let mut freed: Vec<u64> = Vec::new();
    let mut i: usize = 0;
    while i < pool.allocated.len()
        invariant
            i <= pool.allocated@.len(),
            pool.allocated@ == old(pool).allocated@,
            pool.free@ == old(pool).free@,
            pool.images@ == old(pool).images@,
            pool.dirty_image == old(pool).dirty_image,
            pool.needs_resize == old(pool).needs_resize,
            freed@ == old(pool).allocated@.subrange(0, i as int),
        decreases pool.allocated.len() - i,
    {
        freed.push(pool.allocated[i]);
        i = i + 1;
        proof {
            assert(freed@ == old(pool).allocated@.subrange(0, i as int));
        }
    }
    let ghost a = old(pool).allocated@;
    let ghost f = old(pool).free@;
    pool.free.append(&mut pool.allocated);
    proof {
        assert(freed@ == a);
        assert forall|x: int, y: int|
            0 <= x < (Seq::<u64>::empty() + (f + a)).len() && 0 <= y < (Seq::<u64>::empty() + (f + a)).len() && x != y
            implies (Seq::<u64>::empty() + (f + a))[x] != (Seq::<u64>::empty() + (f + a))[y] by {
            let m = |k: int| if k < f.len() { k + a.len() } else { k - f.len() };
            assert((Seq::<u64>::empty() + (f + a))[x] == (a + f)[m(x)]);
            assert((Seq::<u64>::empty() + (f + a))[y] == (a + f)[m(y)]);
        }
    }
    freed
}

/// The images to rebuild this frame, as the positions `(start, end)` in
/// [`CameraPool::images`]: all of them after a resize, else those made since
/// the last rebuild; none without a render target. Afterwards no image is
/// dirty.
pub fn update_pooled_dirty_images<H>(pool: &mut CameraPool<H>, size: Option<UVec2>) -> (r: Option<(usize, usize)>)
    requires
        old(pool).wf(),
    ensures
        final(pool).wf(),
        ({
            let (range, after) = spec_dirty_images(old(pool)@, size);
            &&& final(pool)@ == after
            &&& match r {
                Some((start, end)) => range == Some((start as nat, end as nat)),
                None => range is None,
            }
        }),
{
    if size.is_none() {
        return None;
    }
    if pool.needs_resize {
        pool.needs_resize = false;
        pool.dirty_image = 0;
    }
    let start = pool.dirty_image;
    let end = pool.images.len();
    pool.dirty_image = end;
    Some((start, end))
}

/// Notes the size of the primary camera's render target (none when it has
/// no target): when it differs from the size last seen, every pooled image
/// needs a resize.
pub fn update_primary_camera<H>(pool: &mut CameraPool<H>, last_size: &mut UVec2, size: Option<UVec2>)
    requires
        old(pool).wf(),
    ensures
        final(pool).wf(),
        (final(pool)@, *final(last_size)) == spec_primary_update(old(pool)@, *old(last_size), size),
{
    match size {
        None => {},
        Some(now) => {
            let previous = *last_size;
            *last_size = now;
            if previous != now {
                pool.needs_resize = true;
            }
        },
    }
}

/// After the primary camera's target changes size, the next image update
/// rebuilds every pooled image, and leaves none dirty.
pub proof fn lemma_resize_rebuilds_all<H>(pool: CameraPoolState<H>, last: UVec2, now: UVec2)
    requires
        pool_wf(pool),
        now != last,
    ensures
        ({
            let (after, seen) = spec_primary_update(pool, last, Some(now));
            let (range, rebuilt) = spec_dirty_images(after, Some(now));
            &&& seen == now
            &&& range == Some((0nat, pool.images.len()))
            &&& rebuilt.dirty_image == rebuilt.images.len()
            &&& !rebuilt.needs_resize
        }),
{
}

/// After the cameras in use are freed at the start of a frame, obtaining
/// cameras hands back those same cameras, the last one freed first, before
/// any new camera is made: the `k`-th camera obtained is the `k`-th from the
/// end of those that were in use.
pub proof fn lemma_obtain_after_free<H>(s: CameraPoolState<H>, k: nat)
    requires
        pool_wf(s),
        k < s.allocated.len(),
    ensures
        obtained_after(spec_free_all(s), k).0 == Some(s.allocated[s.allocated.len() - 1 - k]),
    decreases k,
{
    let f = spec_free_all(s);
    if k > 0 {
        lemma_obtain_after_free(s, (k - 1) as nat);
        lemma_obtained_after_free(s, (k - 1) as nat);
    }
    lemma_obtained_after_free(s, k);
}

/// The camera handed out by the `k`-th obtain from state `s` (counting from
/// zero), and the state before it.
pub open spec fn obtained_after<H>(s: CameraPoolState<H>, k: nat) -> (Option<u64>, CameraPoolState<H>)
    decreases k,
{
    if k == 0 {
        (spec_obtain(s).0, s)
    } else {
        let before = spec_obtain(obtained_after(s, (k - 1) as nat).1).1;
        (spec_obtain(before).0, before)
    }
}

proof fn lemma_obtained_after_free<H>(s: CameraPoolState<H>, k: nat)
    requires
        k < s.allocated.len(),
    ensures
        obtained_after(spec_free_all(s), k).1.free == s.free + s.allocated.subrange(0, s.allocated.len() - k),
    decreases k,
{
    if k > 0 {
        lemma_obtained_after_free(s, (k - 1) as nat);
        let prev = obtained_after(spec_free_all(s), (k - 1) as nat).1;
        assert((s.free + s.allocated.subrange(0, s.allocated.len() - (k - 1))).drop_last()
            == s.free + s.allocated.subrange(0, s.allocated.len() - k));
    } else {
        assert(s.allocated.subrange(0, s.allocated.len() as int) == s.allocated);
    }
}

} // verus!
