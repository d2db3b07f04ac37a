use portals::entity_map::EntityMap;
use portals::environment::portal::def::{on_portal_to_discard, MissingPortalTo, PortalFrom, PortalLinkItem, PortalTo};
use portals::environment::portal::physics::{
    classify_collision, portal_collision_cancel, portal_collision_handle, portal_collision_notify,
    side_from_ordering, Crossing, PortalConnections, PortalProbe, Side,
};
use portals::environment::portal::render::{
    init_portal_vision_mesh, PortalRenderLimits, PortalVisionPool, VisionQueue,
};
use portals::environment::portal::vision_duplication::{create_portal_duplicates, DupAction, PortalConnectionDuplicates};
use std::cmp::Ordering;

fn connections(entries: &[(u64, bool)]) -> PortalConnections {
    let mut intersecting = EntityMap::new();
    for &(k, v) in entries {
        intersecting.insert(k, v);
    }
    PortalConnections { intersecting }
}

fn entries<V: Copy>(m: &EntityMap<V>) -> Vec<(u64, V)> {
    (0..m.len()).map(|i| m.entry(i)).collect()
}

#[test]
fn portal_links_lead_to_the_other_end() {
    assert_eq!(PortalTo(4).get(), 4);
    assert_eq!(PortalFrom::new(9).get(), 9);
    let to = PortalLinkItem { to: Some(PortalTo(4)), from: None };
    let from = PortalLinkItem { to: None, from: Some(PortalFrom::new(9)) };
    assert_eq!(to.get(), 4);
    assert_eq!(from.get(), 9);
}

#[test]
fn discarding_a_link_despawns_its_target() {
    assert_eq!(on_portal_to_discard(Some(PortalTo(12))), Ok(12));
    assert_eq!(on_portal_to_discard(None), Err(MissingPortalTo));
}

#[test]
fn collisions_need_exactly_one_portal() {
    assert_eq!(classify_collision((1, true), (2, false)), Some((1, 2)));
    assert_eq!(classify_collision((1, false), (2, true)), Some((2, 1)));
    assert_eq!(classify_collision((1, true), (2, true)), None);
    assert_eq!(classify_collision((1, false), (2, false)), None);
}

#[test]
fn sides_follow_the_comparison() {
    assert_eq!(side_from_ordering(Some(Ordering::Less)), Some(Side::Less));
    assert_eq!(side_from_ordering(Some(Ordering::Equal)), Some(Side::Equal));
    assert_eq!(side_from_ordering(Some(Ordering::Greater)), Some(Side::Greater));
    assert_eq!(side_from_ordering(None), None);
}

#[test]
fn first_touch_records_the_side() {
    let mut c = connections(&[]);
    portal_collision_notify(&mut c, 10, Some(Side::Greater));
    portal_collision_notify(&mut c, 11, Some(Side::Less));
    assert_eq!(entries(&c.intersecting), vec![(10, true), (11, false)]);
}

#[test]
fn touch_at_the_plane_or_unknown_is_not_recorded() {
    let mut c = connections(&[]);
    portal_collision_notify(&mut c, 10, Some(Side::Equal));
    portal_collision_notify(&mut c, 11, None);
    assert_eq!(c.intersecting.len(), 0);
}

#[test]
fn a_recorded_portal_keeps_its_side() {
    let mut c = connections(&[(10, true)]);
    portal_collision_notify(&mut c, 10, Some(Side::Less));
    assert_eq!(entries(&c.intersecting), vec![(10, true)]);
}

#[test]
fn cancel_undoes_notify() {
    let mut c = connections(&[(3, false)]);
    portal_collision_notify(&mut c, 10, Some(Side::Greater));
    portal_collision_cancel(&mut c, 10);
    assert_eq!(entries(&c.intersecting), vec![(3, false)]);
    portal_collision_cancel(&mut c, 99);
    assert_eq!(entries(&c.intersecting), vec![(3, false)]);
}

#[test]
fn passing_through_a_portal_leaves_only_its_other_end() {
    let mut c = connections(&[(1, true), (2, false), (3, true)]);
    let probes = vec![
        PortalProbe::Found { other: 11, side: Some(Side::Greater) },
        PortalProbe::Found { other: 12, side: Some(Side::Greater) },
        PortalProbe::Found { other: 13, side: Some(Side::Less) },
    ];
    let r = portal_collision_handle(&mut c, &probes);
    assert_eq!(r, Some(Crossing { index: 1, portal: 2, other: 12, front: false }));
    assert_eq!(entries(&c.intersecting), vec![(12, true)]);
}

#[test]
fn entering_from_the_front_crosses_when_behind() {
    let mut c = connections(&[(1, true)]);
    let r = portal_collision_handle(&mut c, &vec![PortalProbe::Found { other: 2, side: Some(Side::Less) }]);
    assert_eq!(r, Some(Crossing { index: 0, portal: 1, other: 2, front: true }));
    assert_eq!(entries(&c.intersecting), vec![(2, false)]);
}

#[test]
fn without_crossing_gone_portals_are_forgotten() {
    let mut c = connections(&[(1, true), (2, false), (3, true)]);
    let probes = vec![
        PortalProbe::Found { other: 11, side: Some(Side::Greater) },
        PortalProbe::Missing,
        PortalProbe::Found { other: 13, side: Some(Side::Equal) },
    ];
    assert_eq!(portal_collision_handle(&mut c, &probes), None);
    assert_eq!(entries(&c.intersecting), vec![(1, true), (3, true)]);
}

#[test]
fn duplicates_follow_touched_portals() {
    let mut duplicates = EntityMap::new();
    duplicates.insert(1, 101);
    duplicates.insert(2, 102);
    duplicates.insert(3, 103);
    duplicates.insert(4, 104);
    let mut dups = PortalConnectionDuplicates { duplicates };
    // Portal 2 is no longer touched; 3 cannot be shown; 4's duplicate lost
    // its placement; 1 is moved; 5 is new.
    let keys = vec![1, 3, 4, 5];
    let resolved = vec![true, false, true, true];
    let live = vec![101, 103];
    let actions = create_portal_duplicates(&mut dups, &keys, &resolved, &live);
    assert_eq!(
        actions,
        vec![
            DupAction::Despawn(102),
            DupAction::Update { dupe: 101, portal: 1 },
            DupAction::Despawn(103),
            DupAction::Despawn(104),
            DupAction::Spawn { portal: 5 },
        ]
    );
    assert_eq!(entries(&dups.duplicates), vec![(1, 101)]);
}

#[test]
fn unresolved_portal_without_duplicate_does_nothing() {
    let mut dups = PortalConnectionDuplicates { duplicates: EntityMap::new() };
    let actions = create_portal_duplicates(&mut dups, &vec![7], &vec![false], &vec![]);
    assert!(actions.is_empty());
    assert_eq!(dups.duplicates.len(), 0);
}

#[test]
fn vision_mesh_is_a_box_of_twelve_triangles() {
    let indices = init_portal_vision_mesh();
    assert_eq!(indices.len(), 36);
    assert!(indices.iter().all(|&i| i < 8));
    assert_eq!(&indices[..6], &[0, 1, 2, 2, 3, 0]);
    assert_eq!(&indices[30..], &[4, 7, 6, 6, 5, 4]);
    // Every directed edge is matched by its reverse: the box is closed and
    // consistently oriented.
    let mut edges = vec![];
    for t in indices.chunks(3) {
        edges.push((t[0], t[1]));
        edges.push((t[1], t[2]));
        edges.push((t[2], t[0]));
    }
    for &(a, b) in &edges {
        assert!(edges.contains(&(b, a)));
    }
}

#[test]
fn visions_are_rendered_breadth_first() {
    let limits = PortalRenderLimits { max_depth: 4, max_render: 6 };
    let mut q = VisionQueue::new(vec!["a", "b"], limits);
    let t = q.next_task().unwrap();
    assert_eq!((t.item, t.layer, t.next_layer, t.depth), ("a", 0, 1, 0));
    assert_eq!((t.camera_order, t.vision_layer, t.camera_layer), (-1, 8, 9));
    q.complete(vec!["a1", "a2"]);
    let t = q.next_task().unwrap();
    assert_eq!((t.item, t.layer, t.next_layer, t.depth), ("b", 0, 2, 0));
    q.complete(vec!["b1"]);
    let t = q.next_task().unwrap();
    assert_eq!((t.item, t.layer, t.next_layer, t.depth), ("a1", 1, 3, 1));
    assert_eq!((t.camera_order, t.vision_layer, t.camera_layer), (-2, 9, 11));
    q.complete(vec![]);
    let t = q.next_task().unwrap();
    assert_eq!((t.item, t.layer, t.next_layer, t.depth), ("a2", 1, 4, 1));
    q.complete(vec![]);
    let t = q.next_task().unwrap();
    assert_eq!((t.item, t.layer, t.next_layer, t.depth), ("b1", 2, 5, 1));
    q.complete(vec![]);
    assert!(q.next_task().is_none());
    assert!(q.next_task().is_none());
}

#[test]
fn the_render_limit_counts_after_the_top_level_portals() {
    let limits = PortalRenderLimits { max_depth: 10, max_render: 1 };
    let mut q = VisionQueue::new(vec![1, 2], limits);
    let mut rendered = 0;
    while let Some(t) = q.next_task() {
        rendered += 1;
        q.complete(vec![t.item * 10, t.item * 10 + 1]);
    }
    assert_eq!(rendered, 3);
}

#[test]
fn no_render_beyond_top_level_still_renders_every_top_level_portal() {
    let limits = PortalRenderLimits { max_depth: 4, max_render: 0 };
    let mut q = VisionQueue::new(vec![1, 2, 3], limits);
    let mut rendered = vec![];
    while let Some(t) = q.next_task() {
        rendered.push(t.item);
        q.complete(vec![t.item * 10]);
    }
    assert_eq!(rendered, vec![1, 2, 3]);
}

#[test]
fn an_unlimited_depth_is_accepted() {
    let limits = PortalRenderLimits { max_depth: usize::MAX, max_render: 2 };
    let mut q = VisionQueue::new(vec![1u32], limits);
    let mut depths = vec![];
    while let Some(t) = q.next_task() {
        depths.push(t.depth);
        q.complete(vec![t.item + 1]);
    }
    assert_eq!(depths, vec![0, 1, 2]);
}

#[test]
fn the_depth_limit_stops_deeper_levels() {
    let limits = PortalRenderLimits { max_depth: 2, max_render: 100 };
    let mut q = VisionQueue::new(vec![0u32], limits);
    let mut depths = vec![];
    while let Some(t) = q.next_task() {
        depths.push(t.depth);
        q.complete(vec![t.item + 1]);
    }
    assert_eq!(depths, vec![0, 1]);
}

#[test]
fn zero_depth_renders_nothing() {
    let mut q = VisionQueue::new(vec![1], PortalRenderLimits { max_depth: 0, max_render: 6 });
    assert!(q.next_task().is_none());
}

#[test]
fn vision_pool_shows_what_is_used() {
    let mut pool = PortalVisionPool::new();
    assert_eq!(pool.show(1), None);
    pool.add_shown(1, 100, 1000);
    pool.add_shown(2, 200, 2000);
    assert_eq!(pool.visibilities(), vec![(100, true), (200, true)]);
    pool.hide_all();
    assert_eq!(pool.visibilities(), vec![(100, false), (200, false)]);
    assert_eq!(pool.show(2), Some((200, 2000)));
    assert_eq!(pool.visibilities(), vec![(100, false), (200, true)]);
}
