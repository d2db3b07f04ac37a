//! What crosses portals: which portals a body touches, on which side it
//! entered each, and when it has passed through one.
use crate::entity_map::{distinct_keys, has_key, lookup, removed, EntityMap};
use std::cmp::Ordering;
use vstd::prelude::*;

verus! {

/// The sign of a body's offset along a portal's facing: below, at or above
/// zero.
#[derive(Clone, Copy, Debug, PartialEq, Eq, Structural)]
pub enum Side {
    Less,
    Equal,
    Greater,
}

/// The side from a comparison with zero, which may have failed (`None`).
pub fn side_from_ordering(o: Option<Ordering>) -> (s: Option<Side>)
    ensures
        s == match o {
            Some(Ordering::Less) => Some(Side::Less),
            Some(Ordering::Equal) => Some(Side::Equal),
            Some(Ordering::Greater) => Some(Side::Greater),
            None => None::<Side>,
        },
{
    match o {
        Some(Ordering::Less) => Some(Side::Less),
        Some(Ordering::Equal) => Some(Side::Equal),
        Some(Ordering::Greater) => Some(Side::Greater),
        None => None,
    }
}

/// The portals that a body touches, each with the side it entered from
/// (`true` when it was in front of the portal).
pub struct PortalConnections {
    pub intersecting: EntityMap<bool>,
}

/// Of two colliding entities, each with whether it is a portal, the portal
/// and the other entity; `None` unless exactly one is a portal.
pub fn classify_collision(first: (u64, bool), second: (u64, bool)) -> (r: Option<(u64, u64)>)
    ensures
        r == if first.1 && !second.1 {
            Some((first.0, second.0))
        } else if !first.1 && second.1 {
            Some((second.0, first.0))
        } else {
            None::<(u64, u64)>
        },
{
    if first.1 && !second.1 {
        Some((first.0, second.0))
    } else if !first.1 && second.1 {
        Some((second.0, first.0))
    } else {
        None
    }
}

/// The side a body enters a portal from, if it enters at all: a body level
/// with the portal, or whose side is unknown, is not recorded.
pub open spec fn entry_orientation(side: Option<Side>) -> Option<bool> {
    match side {
        Some(Side::Less) => Some(false),
        Some(Side::Greater) => Some(true),
        _ => None,
    }
}

/// A body starts touching `portal`, on `side`. The first touch is recorded
/// with the side it came from; a portal already recorded keeps its side.
pub fn portal_collision_notify(connections: &mut PortalConnections, portal: u64, side: Option<Side>)
    requires
        old(connections).intersecting.wf(),
    ensures
        final(connections).intersecting.wf(),
        old(connections).intersecting.spec_contains(portal) ==> final(connections).intersecting.entries()
            == old(connections).intersecting.entries(),
        !old(connections).intersecting.spec_contains(portal) ==> final(connections).intersecting.entries()
            == match entry_orientation(side) {
            Some(front) => old(connections).intersecting.entries().push((portal, front)),
            None => old(connections).intersecting.entries(),
        },
        !old(connections).intersecting.spec_contains(portal) && side == Some(Side::Greater)
            ==> final(connections).intersecting.entries() == old(connections).intersecting.entries().push((portal, true)),
        !old(connections).intersecting.spec_contains(portal) && side == Some(Side::Less)
            ==> final(connections).intersecting.entries() == old(connections).intersecting.entries().push((portal, false)),
        side == Some(Side::Equal) || side is None
            ==> final(connections).intersecting.entries() == old(connections).intersecting.entries(),
{
    if connections.intersecting.contains_key(portal) {
        return;
    }
    match side {
        Some(Side::Less) => connections.intersecting.insert(portal, false),
        Some(Side::Greater) => connections.intersecting.insert(portal, true),
        _ => {},
    }
}

/// The touched portals after a body stops touching `portal`.
pub open spec fn spec_cancelled(entries: Seq<(u64, bool)>, portal: u64) -> Seq<(u64, bool)> {
    entries.filter(other_than(portal))
}

/// Whether an entry is not that of `portal`.
pub open spec fn other_than(portal: u64) -> spec_fn((u64, bool)) -> bool {
    |e: (u64, bool)| e.0 != portal
}

/// A body stops touching `portal`: the portal is forgotten.
pub fn portal_collision_cancel(connections: &mut PortalConnections, portal: u64)
    requires
        old(connections).intersecting.wf(),
    ensures
        final(connections).intersecting.wf(),
        !final(connections).intersecting.spec_contains(portal),
        final(connections).intersecting.entries() == spec_cancelled(old(connections).intersecting.entries(), portal),
        final(connections).intersecting.entries() == removed(old(connections).intersecting.entries(), portal),
        forall|k: u64| k != portal ==> #[trigger] lookup(final(connections).intersecting.entries(), k) == lookup(
            old(connections).intersecting.entries(),
            k,
        ),
{
    proof {
        lemma_cancel_forgets_only(old(connections).intersecting.entries(), portal);
    }
    let mut gone: Vec<u64> = Vec::new();
    gone.push(portal);
    connections.intersecting.retain_listed(&gone, false);
    proof {
        let o = old(connections).intersecting.entries();
        let s = final(connections).intersecting.entries();
        assert(gone@ == seq![portal]);
        let p1 = |e: (u64, bool)| gone@.contains(e.0) == false;
        let p2 = other_than(portal);
        assert forall|t: int| 0 <= t < o.len() implies #[trigger] p1(o[t]) == p2(o[t]) by {
            if o[t].0 == portal {
                assert(gone@[0] == o[t].0);
            }
        }
        crate::environment::portal::vision_duplication::lemma_filter_congruent(o, p1, p2);
        assert(s == o.filter(p1));
        assert(spec_cancelled(o, portal) == o.filter(p2));
        assert forall|i: int| 0 <= i < s.len() implies #[trigger] s[i].0 != portal by {
            o.lemma_filter_pred(p2, i);
        }
    }
}

/// Stopping to touch a portal forgets that portal's entry and nothing else:
/// the entries afterwards are those before with that one taken out, in the
/// same order, and every other portal keeps its recorded side.
pub proof fn lemma_cancel_forgets_only(entries: Seq<(u64, bool)>, portal: u64)
    requires
        distinct_keys(entries),
    ensures
        spec_cancelled(entries, portal) == removed(entries, portal),
        lookup(spec_cancelled(entries, portal), portal) is None,
        forall|k: u64| k != portal ==> #[trigger] lookup(spec_cancelled(entries, portal), k) == lookup(entries, k),
{
    if has_key(entries, portal) {
        let i = crate::entity_map::key_index(entries, portal);
        assert(entries[i].0 == portal);
        lemma_filter_drops_one(entries, portal, i);
    } else {
        let p = other_than(portal);
        let t = |e: (u64, bool)| true;
        assert forall|j: int| 0 <= j < entries.len() implies #[trigger] p(entries[j]) == t(entries[j]) by {
            if entries[j].0 == portal {
                assert(has_key(entries, portal));
            }
        }
        crate::environment::portal::vision_duplication::lemma_filter_congruent(entries, p, t);
        lemma_filter_all(entries);
    }
    assert forall|k: u64| k != portal implies #[trigger] lookup(spec_cancelled(entries, portal), k) == lookup(entries, k) by {
        crate::entity_map::lemma_lookup_after_remove(entries, portal, k);
    }
    crate::entity_map::lemma_lookup_after_remove(entries, portal, portal);
}

/// With distinct keys, keeping the entries other than `portal`'s removes
/// exactly the entry at `i`, which is `portal`'s.
proof fn lemma_filter_drops_one(s: Seq<(u64, bool)>, portal: u64, i: int)
    requires
        distinct_keys(s),
        0 <= i < s.len(),
        s[i].0 == portal,
    ensures
        s.filter(other_than(portal)) == s.remove(i),
    decreases s.len(),
{
    let p = other_than(portal);
    let rest = s.drop_last();
    let last = s.last();
    assert(s == rest.push(last));
    rest.lemma_filter_push(last, p);
    if i == s.len() - 1 {
        let t = |e: (u64, bool)| true;
        assert forall|j: int| 0 <= j < rest.len() implies #[trigger] p(rest[j]) == t(rest[j]) by {
            assert(s[j] == rest[j]);
            assert(s[j].0 != s[i].0);
        }
        crate::environment::portal::vision_duplication::lemma_filter_congruent(rest, p, t);
        lemma_filter_all(rest);
        assert(s.remove(i) =~= rest);
    } else {
        assert(last.0 != portal) by {
            assert(s[s.len() - 1].0 != s[i].0);
        }
        assert(distinct_keys(rest)) by {
            assert forall|a: int, b: int| 0 <= a < rest.len() && 0 <= b < rest.len() && a != b implies
                #[trigger] rest[a].0 != #[trigger] rest[b].0 by {
                assert(rest[a] == s[a] && rest[b] == s[b]);
            }
        }
        assert(rest[i] == s[i]);
        lemma_filter_drops_one(rest, portal, i);
        assert(s.remove(i) =~= rest.remove(i).push(last));
    }
}

/// A body recorded as entering a portal from side `entered` has passed
/// through it exactly when it is now strictly on the other side: a body
/// still on the side it came from, level with the portal, or whose side is
/// unknown has not passed.
pub proof fn lemma_crossing_is_a_change_of_side(entered: Side, now: Option<Side>)
    requires
        entered != Side::Equal,
    ensures
        entry_orientation(Some(entered)) is Some,
        crossed(entry_orientation(Some(entered)).unwrap(), now) <==> (now is Some && now != Some(entered) && now
            != Some(Side::Equal)),
        !crossed(entry_orientation(Some(entered)).unwrap(), Some(entered)),
        !crossed(entry_orientation(Some(entered)).unwrap(), Some(Side::Equal)),
        !crossed(entry_orientation(Some(entered)).unwrap(), None),
{
    match now {
        Some(Side::Less) => {},
        Some(Side::Equal) => {},
        Some(Side::Greater) => {},
        None => {},
    }
}

/// After a passage through `portal` entered from `front`, the body is
/// recorded at the other end as entering from the other side, so it has
/// passed back only once it is strictly on the side it first came from.
pub proof fn lemma_passage_flips_the_side(front: bool, now: Option<Side>)
    ensures
        crossed(front, now) ==> now == Some(if front { Side::Less } else { Side::Greater }),
        now == Some(if front { Side::Less } else { Side::Greater }) ==> crossed(front, now),
        crossed(front, now) ==> !crossed(!front, now),
{
}

/// A body that starts touching a portal it did not touch, and then stops
/// touching it, touches the same portals as before, in the same order.
pub proof fn lemma_cancel_undoes_notify(entries: Seq<(u64, bool)>, portal: u64, side: Option<Side>)
    requires
        !has_key(entries, portal),
    ensures
        spec_cancelled(
            match entry_orientation(side) {
                Some(front) => entries.push((portal, front)),
                None => entries,
            },
            portal,
        ) == entries,
{
    let p = other_than(portal);
    assert forall|t: int| 0 <= t < entries.len() implies #[trigger] p(entries[t]) == (|e: (u64, bool)| true)(entries[t]) by {
        if entries[t].0 == portal {
            assert(has_key(entries, portal));
        }
    }
    let t = |e: (u64, bool)| true;
    crate::environment::portal::vision_duplication::lemma_filter_congruent(entries, p, t);
    lemma_filter_all(entries);
    assert(entries.filter(t) == entries);
    assert(entries.filter(p) == entries);
    assert(spec_cancelled(entries, portal) == entries.filter(p));
    match entry_orientation(side) {
        Some(front) => {
            entries.lemma_filter_push((portal, front), p);
            assert(!p((portal, front)));
            assert(entries.push((portal, front)).filter(p) == entries.filter(p));
            assert(spec_cancelled(entries.push((portal, front)), portal) == entries.push((portal, front)).filter(p));
        },
        None => {
            assert(spec_cancelled(entries, portal) == entries);
        },
    }
}

/// Keeping every element keeps the sequence.
proof fn lemma_filter_all<A>(s: Seq<A>)
    ensures
        s.filter(|e: A| true) == s,
    decreases s.len(),
{
    if s.len() > 0 {
        lemma_filter_all(s.drop_last());
        assert(s == s.drop_last().push(s.last()));
        s.drop_last().lemma_filter_push(s.last(), |e: A| true);
    }
}

/// What was found of a touched portal this step.
#[derive(Clone, Copy, Debug, PartialEq, Eq, Structural)]
pub enum PortalProbe {
    /// The portal, or the portal it leads to, is gone.
    Missing,
    /// The portal leads to `other`, and the body is on `side` of it.
    Found { other: u64, side: Option<Side> },
}

/// A body that entered from `front` and is now on `side` has passed through.
pub open spec fn crossed(front: bool, side: Option<Side>) -> bool {
    (!front && side == Some(Side::Greater)) || (front && side == Some(Side::Less))
}

/// Entry `i` is a portal the body has passed through.
pub open spec fn crossing_at(entries: Seq<(u64, bool)>, probes: Seq<PortalProbe>, i: int) -> bool {
    match probes[i] {
        PortalProbe::Found { other, side } => crossed(entries[i].1, side),
        PortalProbe::Missing => false,
    }
}

/// The key of a touched portal that is gone.
pub open spec fn missing_key(entries: Seq<(u64, bool)>, probes: Seq<PortalProbe>, k: u64) -> bool {
    missing_key_before(entries, probes, entries.len() as int, k)
}

/// The key of a touched portal among the first `n` that is gone.
pub open spec fn missing_key_before(entries: Seq<(u64, bool)>, probes: Seq<PortalProbe>, n: int, k: u64) -> bool {
    exists|i: int| #![trigger entries[i]] 0 <= i < n && entries[i].0 == k && probes[i] is Missing
}

/// A passage through a portal.
#[derive(Clone, Copy, Debug, PartialEq, Eq, Structural)]
pub struct Crossing {
    /// The position of the portal among the body's touched portals.
    pub index: usize,
    pub portal: u64,
    /// The portal that the body comes out of.
    pub other: u64,
    /// The side the body entered the portal from.
    pub front: bool,
}

/// Looks through a body's touched portals, in order, with what was found of
/// each (`probes`, one per touched portal). At the first portal the body has
/// passed through, the body now touches only the portal it comes out of,
/// entered from the other side, and the passage is returned. Otherwise the
/// portals that are gone are forgotten.
pub fn portal_collision_handle(connections: &mut PortalConnections, probes: &Vec<PortalProbe>) -> (r:
    Option<Crossing>)
    requires
        old(connections).intersecting.wf(),
        probes@.len() == old(connections).intersecting.entries().len(),
    ensures
        final(connections).intersecting.wf(),
        ({
            let entries = old(connections).intersecting.entries();
            match r {
                Some(c) => {
                    &&& 0 <= c.index < entries.len()
                    &&& crossing_at(entries, probes@, c.index as int)
                    &&& forall|j: int| 0 <= j < c.index ==> !#[trigger] crossing_at(entries, probes@, j)
                    &&& c.portal == entries[c.index as int].0
                    &&& c.front == entries[c.index as int].1
                    &&& probes@[c.index as int] matches PortalProbe::Found { other, side } && c.other == other
                        && side == Some(if c.front { Side::Less } else { Side::Greater })
                    &&& final(connections).intersecting.entries() == seq![(c.other, !c.front)]
                },
                None => {
                    &&& forall|j: int| 0 <= j < entries.len() ==> !#[trigger] crossing_at(entries, probes@, j)
                    &&& forall|j: int|
                        0 <= j < entries.len() ==> (#[trigger] probes@[j] matches PortalProbe::Found { side, .. }
                            ==> side != Some(if entries[j].1 { Side::Less } else { Side::Greater }))
                    &&& final(connections).intersecting.entries() == entries.filter(
                        |e: (u64, bool)| !missing_key(entries, probes@, e.0),
                    )
                },
            }
        }),
{
    let ghost entries = connections.intersecting.entries();
    let mut gone: Vec<u64> = Vec::new();
    let mut i: usize = 0;
    while i < connections.intersecting.len()
        invariant
            connections.intersecting.entries() == entries,
            entries == old(connections).intersecting.entries(),
            distinct_keys_of(entries),
            probes@.len() == entries.len(),
            i <= entries.len(),
            forall|j: int| 0 <= j < i ==> !#[trigger] crossing_at(entries, probes@, j),
            forall|t: int| 0 <= t < gone@.len() ==> missing_key_before(entries, probes@, i as int, #[trigger] gone@[t]),
            forall|j: int| 0 <= j < i && probes@[j] is Missing ==> gone@.contains(#[trigger] entries[j].0),
        decreases entries.len() - i,
    {
        let (portal, front) = connections.intersecting.entry(i);
        match probes[i] {
            PortalProbe::Missing => {
                let ghost before = gone@;
                gone.push(portal);
                proof {
                    assert(entries[i as int].0 == portal);
                    assert forall|j: int| 0 <= j < i + 1 && probes@[j] is Missing implies gone@.contains(#[trigger] entries[j].0) by {
                        if j == i {
                            assert(gone@[gone@.len() - 1] == entries[j].0);
                        } else {
                            assert(before.contains(entries[j].0));
                            let t = choose|t: int| 0 <= t < before.len() && before[t] == entries[j].0;
                            assert(gone@[t] == entries[j].0);
                        }
                    }
                    assert(probes@[i as int] is Missing);
                    assert forall|t: int| 0 <= t < gone@.len() implies missing_key_before(entries, probes@, i + 1, #[trigger] gone@[t]) by {
                        if t == gone@.len() - 1 {
                            assert(entries[i as int].0 == gone@[t]);
                        } else {
                            assert(gone@[t] == before[t]);
                            assert(missing_key_before(entries, probes@, i as int, before[t]));
                            let j = choose|j: int| #![trigger entries[j]] 0 <= j < i && entries[j].0 == before[t] && probes@[j] is Missing;
                            assert(entries[j].0 == gone@[t]);
                        }
                    }
                }
            },
            PortalProbe::Found { other, side } => {
                let passed = match side {
                    Some(Side::Greater) => !front,
                    Some(Side::Less) => front,
                    _ => false,
                };
                proof {
                    assert(crossed(front, side) == passed);
                }
                if passed {
                    connections.intersecting.clear();
                    connections.intersecting.insert(other, !front);
                    proof {
                        assert(connections.intersecting.entries() == seq![(other, !front)]);
                        assert(entries[i as int] == (portal, front));
                        assert(crossing_at(entries, probes@, i as int));
                    }
                    return Some(Crossing { index: i, portal, other, front });
                }
                proof {
                    assert(!crossing_at(entries, probes@, i as int));
                    assert forall|t: int| 0 <= t < gone@.len() implies missing_key_before(entries, probes@, i + 1, #[trigger] gone@[t]) by {
                        assert(missing_key_before(entries, probes@, i as int, gone@[t]));
                        let j = choose|j: int| #![trigger entries[j]] 0 <= j < i && entries[j].0 == gone@[t] && probes@[j] is Missing;
                        assert(entries[j].0 == gone@[t]);
                    }
                }
            },
        }
        i = i + 1;
    }
    connections.intersecting.retain_listed(&gone, false);
    proof {
        let p1 = |e: (u64, bool)| gone@.contains(e.0) == false;
        let p2 = |e: (u64, bool)| !missing_key(entries, probes@, e.0);
        assert(p1 =~= p2) by {
            assert forall|e: (u64, bool)| #[trigger] p1(e) == p2(e) by {
                if gone@.contains(e.0) {
                    let t = choose|t: int| 0 <= t < gone@.len() && gone@[t] == e.0;
                    assert(missing_key_before(entries, probes@, i as int, gone@[t]));
                    let j = choose|j: int| #![trigger entries[j]] 0 <= j < i && entries[j].0 == gone@[t] && probes@[j] is Missing;
                    assert(missing_key(entries, probes@, e.0));
                }
                if missing_key(entries, probes@, e.0) {
                    let j = choose|j: int| #![trigger entries[j]] 0 <= j < entries.len() && entries[j].0 == e.0 && probes@[j] is Missing;
                    assert(gone@.contains(entries[j].0));
                }
            }
        }
    }
    proof {
        assert forall|j: int| 0 <= j < entries.len() implies (#[trigger] probes@[j] matches PortalProbe::Found { side, .. }
            ==> side != Some(if entries[j].1 { Side::Less } else { Side::Greater })) by {
            assert(!crossing_at(entries, probes@, j));
        }
    }
    None
}

spec fn distinct_keys_of(s: Seq<(u64, bool)>) -> bool {
    crate::entity_map::distinct_keys(s)
}

} // verus!
