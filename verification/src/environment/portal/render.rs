//! The order in which portal visions are rendered: breadth first, level by
//! level of portals seen through portals, within the render limits.
use crate::entity_map::EntityMap;
use crate::gfx::LAYER_PORTAL_RESERVE;
use vstd::prelude::*;

verus! {

/// How deep and how many portal visions are rendered.
#[derive(Clone, Copy, Debug, PartialEq, Eq, Structural)]
pub struct PortalRenderLimits {
    /// The number of levels of portals seen through portals.
    pub max_depth: usize,
    /// Maximum additional renders *after* the top-level portals have rendered.
    pub max_render: usize,
}

/// One portal vision to render.
pub struct VisionTask<T> {
    /// The portal, as the caller described it.
    pub item: T,
    /// The layer that the portal itself is seen in.
    pub layer: usize,
    /// The layer that this vision's camera renders into.
    pub next_layer: usize,
    /// How many portals deep the vision lies.
    pub depth: usize,
    /// The order of the vision's camera: deeper visions render first.
    pub camera_order: isize,
    /// The render layer of the vision's mesh.
    pub vision_layer: usize,
    /// The render layer that the vision's camera sees, besides the scene's
    /// layer 0.
    pub camera_layer: usize,
}

/// The abstract state of a [`VisionQueue`].
pub struct VisionQueueState<T> {
    /// Portals of the current level still to render, each with its layer.
    pub pending: Seq<(T, usize)>,
    /// Portals found for the next level, each with its layer.
    pub next_level: Seq<(T, usize)>,
    pub depth: nat,
    /// Visions rendered so far.
    pub count: nat,
    /// The last layer handed out.
    pub next_layer: nat,
    pub stopped: bool,
    /// A task was handed out and its result not reported yet.
    pub awaiting: bool,
    /// The number of top-level portals.
    pub mandatory: nat,
    pub max_depth: nat,
    pub max_render: nat,
}

/// The task for `item`, seen in `layer`, rendered into `next_layer` at `depth`.
pub open spec fn spec_task<T>(item: T, layer: usize, next_layer: usize, depth: usize) -> VisionTask<T> {
    VisionTask {
        item,
        layer,
        next_layer,
        depth,
        camera_order: -(depth + 1) as isize,
        vision_layer: (LAYER_PORTAL_RESERVE + layer) as usize,
        camera_layer: (LAYER_PORTAL_RESERVE + next_layer) as usize,
    }
}

/// Whether the render limit stops rendering after `count` visions: only
/// once every top-level portal was rendered, and `max_render` more besides.
pub open spec fn limit_reached(count: nat, mandatory: nat, max_render: nat) -> bool {
    count >= mandatory && count - mandatory >= max_render
}

/// Hands out portal visions in breadth-first order: first the top-level
/// portals, then the portals seen through them, level by level, until the
/// depth limit or the render limit is reached or no portal is left.
pub struct VisionQueue<T> {
    pending: Vec<(T, usize)>,
    next_level: Vec<(T, usize)>,
    depth: usize,
    count: usize,
    next_layer: usize,
    stopped: bool,
    awaiting: bool,
    mandatory: usize,
    limits: PortalRenderLimits,
}

impl<T> View for VisionQueue<T> {
    type V = VisionQueueState<T>;

    closed spec fn view(&self) -> VisionQueueState<T> {
        VisionQueueState {
            pending: self.pending@,
            next_level: self.next_level@,
            depth: self.depth as nat,
            count: self.count as nat,
            next_layer: self.next_layer as nat,
            stopped: self.stopped,
            awaiting: self.awaiting,
            mandatory: self.mandatory as nat,
            max_depth: self.limits.max_depth as nat,
            max_render: self.limits.max_render as nat,
        }
    }
}

impl<T> VisionQueue<T> {
    /// Layers are handed out one per vision; the depth stays below the limit
    /// while rendering goes on.
    pub closed spec fn wf(&self) -> bool {
        &&& self.next_layer == self.count + if self.awaiting { 1int } else { 0int }
        &&& !self.stopped ==> self.depth < self.limits.max_depth
        &&& self.depth <= self.count
        &&& self.next_level@.len() > 0 ==> self.depth < self.count
        &&& self.depth == 0 ==> self.count + self.pending@.len() + (if self.awaiting { 1int } else { 0int })
            == self.mandatory
        &&& self.depth > 0 ==> self.count >= self.mandatory
        &&& self.stopped && self.limits.max_depth > 0 ==> self.count >= self.mandatory
        &&& self.awaiting ==> !self.stopped
        &&& self.count > 0 && !self.stopped ==> !limit_reached(
            self.count as nat,
            self.mandatory as nat,
            self.limits.max_render as nat,
        )
        &&& self.count <= self.mandatory + self.limits.max_render
        &&& self.mandatory == 0 ==> !self.awaiting && self.count == 0 && self.pending@.len() == 0
            && self.next_level@.len() == 0
        &&& forall|i: int| 0 <= i < self.pending@.len() ==> #[trigger] self.pending@[i].1 <= self.next_layer
        &&& forall|i: int| 0 <= i < self.next_level@.len() ==> #[trigger] self.next_level@[i].1 <= self.next_layer
    }

    /// A queue of the top-level portals, all seen in layer 0.
    pub fn new(initial: Vec<T>, limits: PortalRenderLimits) -> (q: Self)
        ensures
            q.wf(),
            q@.pending == initial@.map_values(|x: T| (x, 0usize)),
            q@.next_level == Seq::<(T, usize)>::empty(),
            q@.depth == 0,
            q@.count == 0,
            q@.next_layer == 0,
            q@.stopped == (limits.max_depth == 0),
            !q@.awaiting,
            q@.mandatory == initial@.len(),
            q@.max_depth == limits.max_depth,
            q@.max_render == limits.max_render,
    {
        let mandatory = initial.len();
        let mut pending: Vec<(T, usize)> = Vec::new();
        let mut rest = initial;
        let ghost all = rest@;
        let mut taken: usize = 0;
        while rest.len() > 0
            invariant
                taken + rest@.len() == all.len(),
                all.len() <= usize::MAX,
                rest@ == all.subrange(taken as int, all.len() as int),
                pending@ == all.subrange(0, taken as int).map_values(|x: T| (x, 0usize)),
            decreases rest.len(),
        {
            let x = rest.remove(0);
            proof {
                assert(all.subrange(0, taken as int + 1) == all.subrange(0, taken as int).push(x));
            }
            pending.push((x, 0));
            taken = taken + 1;
            proof {
                assert(pending@ == all.subrange(0, taken as int).map_values(|x: T| (x, 0usize)));
                assert(rest@ == all.subrange(taken as int, all.len() as int));
            }
        }
        assert(all.subrange(0, taken as int) == all);
        VisionQueue {
            pending,
            next_level: Vec::new(),
            depth: 0,
            count: 0,
            next_layer: 0,
            stopped: limits.max_depth == 0,
            awaiting: false,
            mandatory,
            limits,
        }
    }

    /// The next vision to render, or `None` when rendering is over. When the
    /// current level is used up, the portals found for the next level become
    /// the current level, one level deeper, unless there are none or the
    /// depth limit is reached.
    pub fn next_task(&mut self) -> (r: Option<VisionTask<T>>)
        requires
            old(self).wf(),
            !old(self)@.awaiting,
            old(self)@.next_layer + LAYER_PORTAL_RESERVE < isize::MAX,
        ensures
            final(self).wf(),
            final(self)@.mandatory == old(self)@.mandatory,
            final(self)@.max_depth == old(self)@.max_depth,
            final(self)@.max_render == old(self)@.max_render,
            final(self)@.count == old(self)@.count,
            r matches Some(t) ==> t.depth == final(self)@.depth && t.next_layer == final(self)@.next_layer
                && t.camera_order == -(final(self)@.depth + 1),
            r matches Some(t) ==> t.vision_layer == LAYER_PORTAL_RESERVE + t.layer && t.camera_layer
                == LAYER_PORTAL_RESERVE + t.next_layer && t.layer < t.next_layer,
            old(self)@.stopped ==> r is None && final(self)@ == old(self)@,
            !old(self)@.stopped && old(self)@.pending.len() > 0 ==> {
                &&& r == Some(spec_task(
                    old(self)@.pending[0].0,
                    old(self)@.pending[0].1,
                    (old(self)@.next_layer + 1) as usize,
                    old(self)@.depth as usize,
                ))
                &&& final(self)@.pending == old(self)@.pending.drop_first()
                &&& final(self)@.next_level == old(self)@.next_level
                &&& final(self)@.depth == old(self)@.depth
                &&& final(self)@.next_layer == old(self)@.next_layer + 1
                &&& !final(self)@.stopped && final(self)@.awaiting
            },
            !old(self)@.stopped && old(self)@.pending.len() == 0 && (old(self)@.next_level.len() == 0
                || old(self)@.depth + 1 >= old(self)@.max_depth) ==> {
                &&& r is None
                &&& final(self)@.stopped && !final(self)@.awaiting
                &&& final(self)@.next_layer == old(self)@.next_layer
            },
            !old(self)@.stopped && old(self)@.pending.len() == 0 && old(self)@.next_level.len() > 0
                && old(self)@.depth + 1 < old(self)@.max_depth ==> {
                &&& r == Some(spec_task(
                    old(self)@.next_level[0].0,
                    old(self)@.next_level[0].1,
                    (old(self)@.next_layer + 1) as usize,
                    (old(self)@.depth + 1) as usize,
                ))
                &&& final(self)@.pending == old(self)@.next_level.drop_first()
                &&& final(self)@.next_level == Seq::<(T, usize)>::empty()
                &&& final(self)@.depth == old(self)@.depth + 1
                &&& final(self)@.next_layer == old(self)@.next_layer + 1
                &&& !final(self)@.stopped && final(self)@.awaiting
            },
    {
        if self.stopped {
            return None;
        }
        if self.pending.len() == 0 {
            if self.next_level.len() == 0 || self.depth + 1 >= self.limits.max_depth {
                self.stopped = true;
                return None;
            }
            self.depth = self.depth + 1;
            self.pending.append(&mut self.next_level);
        }
        let (item, layer) = self.pending.remove(0);
        self.next_layer = self.next_layer + 1;
        self.awaiting = true;
        let depth = self.depth;
        let next_layer = self.next_layer;
        Some(VisionTask {
            item,
            layer,
            next_layer,
            depth,
            camera_order: -(depth as isize + 1),
            vision_layer: LAYER_PORTAL_RESERVE + layer,
            camera_layer: LAYER_PORTAL_RESERVE + next_layer,
        })
    }

    /// Reports that the vision last handed out was rendered and that
    /// `found` portals are seen through it: they join the next level, seen
    /// in the layer that the vision rendered into. Rendering stops once the
    /// visions beyond the top-level ones reach the render limit.
    pub fn complete(&mut self, found: Vec<T>)
        requires
            old(self).wf(),
            old(self)@.awaiting,
        ensures
            final(self).wf(),
            final(self)@.pending == old(self)@.pending,
            final(self)@.next_level == old(self)@.next_level + found@.map_values(
                |x: T| (x, old(self)@.next_layer as usize),
            ),
            final(self)@.depth == old(self)@.depth,
            final(self)@.count == old(self)@.count + 1,
            final(self)@.next_layer == old(self)@.next_layer,
            final(self)@.stopped == limit_reached(
                old(self)@.count + 1,
                old(self)@.mandatory,
                old(self)@.max_render,
            ),
            !final(self)@.awaiting,
            final(self)@.mandatory == old(self)@.mandatory,
            final(self)@.max_depth == old(self)@.max_depth,
            final(self)@.max_render == old(self)@.max_render,
    {
        let layer = self.next_layer;
        let mut rest = found;
        let total = rest.len();
        let ghost all = rest@;
        let ghost start = self.next_level@;
        let mut taken: usize = 0;
        while rest.len() > 0
            invariant
                taken + rest@.len() == all.len(),
                all.len() == total,
                rest@ == all.subrange(taken as int, all.len() as int),
                self.next_level@ == start + all.subrange(0, taken as int).map_values(|x: T| (x, layer)),
                self.pending@ == old(self).pending@,
                self.depth == old(self).depth,
                self.count == old(self).count,
                self.next_layer == old(self).next_layer,
                self.stopped == old(self).stopped,
                self.awaiting == old(self).awaiting,
                self.mandatory == old(self).mandatory,
                self.limits == old(self).limits,
                layer == old(self).next_layer,
            decreases rest.len(),
        {
            let x = rest.remove(0);
            proof {
                assert(all.subrange(0, taken as int + 1) == all.subrange(0, taken as int).push(x));
            }
            self.next_level.push((x, layer));
            taken = taken + 1;
            proof {
                assert(self.next_level@ == start + all.subrange(0, taken as int).map_values(|x: T| (x, layer)));
                assert(rest@ == all.subrange(taken as int, all.len() as int));
            }
        }
        assert(all.subrange(0, taken as int) == all);
        self.count = self.count + 1;
        self.awaiting = false;
        self.stopped = self.count >= self.mandatory && self.count - self.mandatory >= self.limits.max_render;
    }
}

/// A portal's vision is drawn in the layer that the camera which saw the
/// portal renders: the vision of a portal found through a vision (so seen in
/// the layer that vision rendered into) lies in that vision's camera layer,
/// whatever the depths; and a task's own camera never renders the layer its
/// vision lies in.
pub proof fn lemma_vision_in_finders_camera<T>(
    parent: T,
    layer: usize,
    parent_next: usize,
    parent_depth: usize,
    child: T,
    child_next: usize,
    child_depth: usize,
)
    requires
        LAYER_PORTAL_RESERVE + child_next <= usize::MAX,
        LAYER_PORTAL_RESERVE + parent_next <= usize::MAX,
        LAYER_PORTAL_RESERVE + layer <= usize::MAX,
        layer < parent_next,
    ensures
        spec_task(child, parent_next, child_next, child_depth).vision_layer == spec_task(
            parent,
            layer,
            parent_next,
            parent_depth,
        ).camera_layer,
        spec_task(parent, layer, parent_next, parent_depth).vision_layer == LAYER_PORTAL_RESERVE + layer,
        spec_task(parent, layer, parent_next, parent_depth).vision_layer != spec_task(
            parent,
            layer,
            parent_next,
            parent_depth,
        ).camera_layer,
{
}

/// The render limit counts only the visions after the top-level ones: never
/// more than the top-level portals plus `max_render` are rendered, and once
/// rendering is over (with a depth limit of at least one) every top-level
/// portal was rendered.
pub proof fn lemma_vision_budget<T>(q: VisionQueue<T>)
    requires
        q.wf(),
    ensures
        q@.count <= q@.mandatory + q@.max_render,
        q@.stopped && q@.max_depth >= 1 ==> q@.count >= q@.mandatory,
        q@.count < q@.mandatory ==> !limit_reached(q@.count, q@.mandatory, q@.max_render),
{
}

/// The vision meshes, by the image that their portal camera renders into:
/// each with its entity, its material and whether it is shown this frame.
pub struct PortalVisionPool {
    pub map: EntityMap<(u64, u64, bool)>,
}

impl PortalVisionPool {
    /// No vision meshes.
    pub fn new() -> (p: Self)
        ensures
            p.map.wf(),
            p.map.entries() == Seq::<(u64, (u64, u64, bool))>::empty(),
    {
        PortalVisionPool { map: EntityMap::new() }
    }

    /// Marks every vision mesh hidden, as at the start of a frame.
    pub fn hide_all(&mut self)
        requires
            old(self).map.wf(),
        ensures
            final(self).map.wf(),
            final(self).map.entries() == old(self).map.entries().map_values(
                |e: (u64, (u64, u64, bool))| (e.0, (e.1.0, e.1.1, false)),
            ),
    {
        let ghost start = self.map.entries();
        let ghost hidden = |e: (u64, (u64, u64, bool))| (e.0, (e.1.0, e.1.1, false));
        let mut i: usize = 0;
        while i < self.map.len()
            invariant
                self.map.wf(),
                i <= start.len(),
                self.map.entries().len() == start.len(),
                hidden == (|e: (u64, (u64, u64, bool))| (e.0, (e.1.0, e.1.1, false))),
                forall|j: int| 0 <= j < i ==> #[trigger] self.map.entries()[j] == hidden(start[j]),
                forall|j: int| i <= j < start.len() ==> #[trigger] self.map.entries()[j] == start[j],
            decreases start.len() - i,
        {
            let (image, (entity, material, _)) = self.map.entry(i);
            let ghost before = self.map.entries();
            self.map.insert(image, (entity, material, false));
            proof {
                let t = choose|t: int| 0 <= t < before.len() && before[t].0 == image
                    && #[trigger] self.map.entries() == before.update(t, (image, (entity, material, false)));
                assert(before[t].0 == before[i as int].0);
                assert(t == i);
            }
            i = i + 1;
        }
        assert(self.map.entries() == start.map_values(hidden));
    }

    /// The vision mesh that renders `image`, if there is one, which is then
    /// shown: its entity and material. With `None`, a mesh is to be made and
    /// [`add_shown`](Self::add_shown).
    pub fn show(&mut self, image: u64) -> (r: Option<(u64, u64)>)
        requires
            old(self).map.wf(),
        ensures
            final(self).map.wf(),
            match r {
                Some((entity, material)) => exists|i: int|
                    0 <= i < old(self).map.entries().len() && old(self).map.entries()[i].0 == image
                        && old(self).map.entries()[i].1.0 == entity && old(self).map.entries()[i].1.1 == material
                        && final(self).map.entries() == #[trigger] old(self).map.entries().update(
                        i,
                        (image, (entity, material, true)),
                    ),
                None => !old(self).map.spec_contains(image) && final(self).map.entries() == old(self).map.entries(),
            },
    {
        match self.map.find(image) {
            Some(i) => {
                let (_, (entity, material, _)) = self.map.entry(i);
                let ghost before = self.map.entries();
                self.map.insert(image, (entity, material, true));
                proof {
                    let t = choose|t: int| 0 <= t < before.len() && before[t].0 == image
                        && #[trigger] self.map.entries() == before.update(t, (image, (entity, material, true)));
                    assert(before[t].0 == before[i as int].0);
                    assert(t == i);
                }
                Some((entity, material))
            },
            None => None,
        }
    }

    /// Records a vision mesh just made for `image`, shown.
    pub fn add_shown(&mut self, image: u64, entity: u64, material: u64)
        requires
            old(self).map.wf(),
            !old(self).map.spec_contains(image),
        ensures
            final(self).map.wf(),
            final(self).map.entries() == old(self).map.entries().push((image, (entity, material, true))),
    {
        self.map.insert(image, (entity, material, true));
    }

    /// Every vision mesh's entity and whether it is shown, in order.
    pub fn visibilities(&self) -> (r: Vec<(u64, bool)>)
        ensures
            r@ == self.map.entries().map_values(|e: (u64, (u64, u64, bool))| (e.1.0, e.1.2)),
    {
        let mut r: Vec<(u64, bool)> = Vec::new();
        let mut i: usize = 0;
        while i < self.map.len()
            invariant
                i <= self.map.entries().len(),
                r@ == self.map.entries().subrange(0, i as int).map_values(|e: (u64, (u64, u64, bool))| (e.1.0, e.1.2)),
            decreases self.map.entries().len() - i,
        {
            let (_, (entity, _, shown)) = self.map.entry(i);
            r.push((entity, shown));
            i = i + 1;
            proof {
                assert(r@ == self.map.entries().subrange(0, i as int).map_values(|e: (u64, (u64, u64, bool))| (e.1.0, e.1.2)));
            }
        }
        assert(self.map.entries().subrange(0, i as int) == self.map.entries());
        r
    }
}

/// The triangles of the vision mesh, a box over the eight corners
/// numbered bottom first (`0..4`, then the top `4..8`): two triangles for
/// each of the bottom, front, right, back, left and top faces.
pub open spec fn vision_mesh_indices() -> Seq<u32> {
    seq![
        0u32, 1, 2, 2, 3, 0,
        0, 4, 5, 5, 1, 0,
        1, 5, 6, 6, 2, 1,
        2, 6, 7, 7, 3, 2,
        3, 7, 4, 4, 0, 3,
        4, 7, 6, 6, 5, 4,
    ]
}

/// The index buffer of the portal vision mesh: the box through which a
/// portal's vision is seen.
pub fn init_portal_vision_mesh() -> (indices: Vec<u32>)
    ensures
        indices@ == vision_mesh_indices(),
{
    let v: Vec<u32> = vec![
        0, 1, 2, 2, 3, 0,
        0, 4, 5, 5, 1, 0,
        1, 5, 6, 6, 2, 1,
        2, 6, 7, 7, 3, 2,
        3, 7, 4, 4, 0, 3,
        4, 7, 6, 6, 5, 4,
    ];
    assert(v@ =~= vision_mesh_indices());
    v
}

} // verus!
