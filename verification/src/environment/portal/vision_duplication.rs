//! Duplicates of bodies that touch portals: a body in a portal is drawn a
//! second time at the portal it leads to, one duplicate per portal.
use crate::entity_map::{distinct_keys, has_key, vec_contains, EntityMap};
use vstd::prelude::*;

verus! {

/// The duplicate of a body at each portal it touches, by portal.
pub struct PortalConnectionDuplicates {
    pub duplicates: EntityMap<u64>,
}

/// What to do with duplicates.
#[derive(Clone, Copy, Debug, PartialEq, Eq, Structural)]
pub enum DupAction {
    /// Despawn this duplicate.
    Despawn(u64),
    /// Move this duplicate of the body at `portal` to where the portal's
    /// link shows the body.
    Update { dupe: u64, portal: u64 },
    /// Spawn a duplicate of the body at `portal`, then record it.
    Spawn { portal: u64 },
}

/// The value under key `k` in entries with distinct keys.
pub open spec fn key_value(s: Seq<(u64, u64)>, k: u64) -> u64 {
    s[choose|i: int| 0 <= i < s.len() && #[trigger] s[i].0 == k].1
}

/// The touched portal at position `j` can be shown (its link and all
/// placements were found).
pub open spec fn resolved_key(keys: Seq<u64>, resolved: Seq<bool>, k: u64) -> bool {
    exists|j: int| 0 <= j < keys.len() && #[trigger] keys[j] == k && resolved[j]
}

/// What the touched portal at position `j` calls for, given the duplicates
/// `kept` whose portal is still touched.
pub open spec fn dup_action(kept: Seq<(u64, u64)>, keys: Seq<u64>, resolved: Seq<bool>, live: Seq<u64>, j: int) -> Seq<DupAction> {
    let k = keys[j];
    if !resolved[j] {
        if has_key(kept, k) { seq![DupAction::Despawn(key_value(kept, k))] } else { Seq::empty() }
    } else if has_key(kept, k) {
        let d = key_value(kept, k);
        if live.contains(d) { seq![DupAction::Update { dupe: d, portal: k }] } else { seq![DupAction::Despawn(d)] }
    } else {
        seq![DupAction::Spawn { portal: k }]
    }
}

/// A duplicate whose portal is touched.
pub open spec fn touched(keys: Seq<u64>) -> spec_fn((u64, u64)) -> bool {
    |e: (u64, u64)| keys.contains(e.0)
}

/// A duplicate whose portal is no longer touched.
pub open spec fn untouched(keys: Seq<u64>) -> spec_fn((u64, u64)) -> bool {
    |e: (u64, u64)| !keys.contains(e.0)
}

/// A duplicate whose portal can be shown and which still has a placement.
pub open spec fn still_shown(keys: Seq<u64>, resolved: Seq<bool>, live: Seq<u64>) -> spec_fn((u64, u64)) -> bool {
    |e: (u64, u64)| resolved_key(keys, resolved, e.0) && live.contains(e.1)
}

/// The actions for the first `n` touched portals.
pub open spec fn dup_actions(kept: Seq<(u64, u64)>, keys: Seq<u64>, resolved: Seq<bool>, live: Seq<u64>, n: int) -> Seq<DupAction>
    decreases n,
{
    if n <= 0 {
        Seq::empty()
    } else {
        dup_actions(kept, keys, resolved, live, n - 1) + dup_action(kept, keys, resolved, live, n - 1)
    }
}

/// Brings a body's duplicates in line with the portals it touches
/// (`keys`, in order, with whether each can be shown in `resolved`; `live`
/// holds the duplicates that still have a placement). First the duplicates
/// of portals no longer touched are despawned, in order; then, per touched
/// portal in order: a portal that cannot be shown loses its duplicate; a
/// duplicate that lost its placement is despawned; a live one is moved; a
/// portal without one gets a new one. The duplicates left are those moved.
pub fn create_portal_duplicates(
    dups: &mut PortalConnectionDuplicates,
    keys: &Vec<u64>,
    resolved: &Vec<bool>,
    live: &Vec<u64>,
) -> (actions: Vec<DupAction>)
    requires
        old(dups).duplicates.wf(),
        keys@.no_duplicates(),
        resolved@.len() == keys@.len(),
    ensures
        final(dups).duplicates.wf(),
        ({
            let old_entries = old(dups).duplicates.entries();
            let kept = old_entries.filter(touched(keys@));
            &&& actions@ == old_entries.filter(untouched(keys@)).map_values(
                |e: (u64, u64)| DupAction::Despawn(e.1),
            ) + dup_actions(kept, keys@, resolved@, live@, keys@.len() as int)
            &&& final(dups).duplicates.entries() == kept.filter(still_shown(keys@, resolved@, live@))
        }),
{
    let ghost old_entries = dups.duplicates.entries();
    let ghost gone_pred = untouched(keys@);
    let mut actions: Vec<DupAction> = Vec::new();
    let mut i: usize = 0;
    while i < dups.duplicates.len()
        invariant
            dups.duplicates.entries() == old_entries,
            gone_pred == untouched(keys@),
            i <= old_entries.len(),
            actions@ == old_entries.subrange(0, i as int).filter(gone_pred).map_values(|e: (u64, u64)| DupAction::Despawn(e.1)),
        decreases old_entries.len() - i,
    {
        let e = dups.duplicates.entry(i);
        proof {
            assert(old_entries.subrange(0, i as int + 1) == old_entries.subrange(0, i as int).push(e));
            old_entries.subrange(0, i as int).lemma_filter_push(e, gone_pred);
        }
        if !vec_contains(keys, e.0) {
            actions.push(DupAction::Despawn(e.1));
        }
        i = i + 1;
        proof {
            assert(actions@ == old_entries.subrange(0, i as int).filter(gone_pred).map_values(|e: (u64, u64)| DupAction::Despawn(e.1)));
        }
    }
    proof {
        assert(old_entries.subrange(0, i as int) == old_entries);
    }
    let ghost despawned = actions@;
    dups.duplicates.retain_listed(keys, true);
    let ghost kept = dups.duplicates.entries();
    proof {
        lemma_filter_congruent(
            old_entries,
            |e: (u64, u64)| keys@.contains(e.0) == true,
            touched(keys@),
        );
        assert(kept == old_entries.filter(touched(keys@)));
    }
    let mut drop: Vec<u64> = Vec::new();
    let mut j: usize = 0;
    while j < keys.len()
        invariant
            j <= keys@.len(),
            resolved@.len() == keys@.len(),
            keys@.no_duplicates(),
            dups.duplicates.entries() == kept,
            distinct_keys(kept),
            actions@ == despawned + dup_actions(kept, keys@, resolved@, live@, j as int),
            forall|k: u64| #[trigger] drop@.contains(k) <==> exists|t: int| 0 <= t < j && keys@[t] == k && has_key(kept, k)
                && (!resolved@[t] || !live@.contains(key_value(kept, k))),
        decreases keys@.len() - j,
    {
        let k = keys[j];
        let ghost before = actions@;
        let ghost before_drop = drop@;
        match dups.duplicates.get(k) {
            Some(d) => {
                proof {
                    let t = choose|t: int| 0 <= t < kept.len() && #[trigger] kept[t] == (k, d);
                    assert(kept[t].0 == k);
                    let c = choose|c: int| 0 <= c < kept.len() && #[trigger] kept[c].0 == k;
                    assert(kept[c].0 == kept[t].0);
                    assert(c == t);
                    assert(has_key(kept, k));
                    assert(key_value(kept, k) == d);
                }
                if !resolved[j] {
                    actions.push(DupAction::Despawn(d));
                    drop.push(k);
                } else if vec_contains(live, d) {
                    actions.push(DupAction::Update { dupe: d, portal: k });
                } else {
                    actions.push(DupAction::Despawn(d));
                    drop.push(k);
                }
            },
            None => {
                if resolved[j] {
                    actions.push(DupAction::Spawn { portal: k });
                }
            },
        }
        proof {
            assert(actions@ == before + dup_action(kept, keys@, resolved@, live@, j as int));
            assert forall|x: u64| #[trigger] drop@.contains(x) <==> exists|t: int| 0 <= t < j + 1 && keys@[t] == x && has_key(kept, x)
                && (!resolved@[t] || !live@.contains(key_value(kept, x))) by {
                if drop@.contains(x) && x != k {
                    let t = choose|t: int| 0 <= t < drop@.len() && drop@[t] == x;
                    assert(before_drop[t] == x);
                    assert(before_drop.contains(x));
                }
                if exists|t: int| 0 <= t < j && keys@[t] == x && has_key(kept, x) && (!resolved@[t] || !live@.contains(key_value(kept, x))) {
                    assert(before_drop.contains(x));
                    let t = choose|t: int| 0 <= t < before_drop.len() && before_drop[t] == x;
                    assert(drop@[t] == x);
                }
                if exists|t: int| 0 <= t < j + 1 && keys@[t] == x && has_key(kept, x) && (!resolved@[t] || !live@.contains(key_value(kept, x))) {
                    let t = choose|t: int| 0 <= t < j + 1 && keys@[t] == x && has_key(kept, x) && (!resolved@[t] || !live@.contains(key_value(kept, x)));
                    if t == j {
                        assert(drop@[drop@.len() - 1] == x);
                    }
                }
                if drop@.contains(x) && x == k {
                    if !before_drop.contains(x) {
                        assert(drop@.len() == before_drop.len() + 1);
                    }
                }
            }
        }
        j = j + 1;
    }
    dups.duplicates.retain_listed(&drop, false);
    proof {
        let p1 = |e: (u64, u64)| drop@.contains(e.0) == false;
        let p2 = still_shown(keys@, resolved@, live@);
        assert forall|t: int| 0 <= t < kept.len() implies #[trigger] p1(kept[t]) == p2(kept[t]) by {
            let e = kept[t];
            assert(keys@.contains(e.0)) by {
                old_entries.lemma_filter_pred(touched(keys@), t);
            }
            let jj = choose|jj: int| 0 <= jj < keys@.len() && keys@[jj] == e.0;
            assert(has_key(kept, e.0));
            let c = choose|c: int| 0 <= c < kept.len() && #[trigger] kept[c].0 == e.0;
            assert(c == t);
            assert(key_value(kept, e.0) == e.1);
            if resolved_key(keys@, resolved@, e.0) {
                let r = choose|r: int| 0 <= r < keys@.len() && #[trigger] keys@[r] == e.0 && resolved@[r];
                assert(r == jj);
            }
        }
        lemma_filter_congruent(kept, p1, p2);
    }
    actions
}

/// The duplicates that a body keeps belong to portals it still touches,
/// that can be shown, and still have a placement.
pub proof fn lemma_duplicates_follow_portals(
    old_entries: Seq<(u64, u64)>,
    keys: Seq<u64>,
    resolved: Seq<bool>,
    live: Seq<u64>,
    i: int,
)
    requires
        0 <= i < old_entries.filter(touched(keys)).filter(still_shown(keys, resolved, live)).len(),
    ensures
        ({
            let e = old_entries.filter(touched(keys)).filter(still_shown(keys, resolved, live))[i];
            &&& keys.contains(e.0)
            &&& resolved_key(keys, resolved, e.0)
            &&& live.contains(e.1)
            &&& old_entries.contains(e)
        }),
{
    let kept = old_entries.filter(touched(keys));
    let p = still_shown(keys, resolved, live);
    kept.lemma_filter_pred(p, i);
    let e = kept.filter(p)[i];
    assert(kept.filter(p).contains(e));
    kept.lemma_filter_contains_rev(p, e);
    let t = choose|t: int| 0 <= t < kept.len() && kept[t] == e;
    old_entries.lemma_filter_pred(touched(keys), t);
    assert(kept.contains(e));
    old_entries.lemma_filter_contains_rev(touched(keys), e);
}

/// Filtering by two predicates that agree on every element gives the same.
pub proof fn lemma_filter_congruent<A>(s: Seq<A>, p1: spec_fn(A) -> bool, p2: spec_fn(A) -> bool)
    requires
        forall|t: int| 0 <= t < s.len() ==> #[trigger] p1(s[t]) == p2(s[t]),
    ensures
        s.filter(p1) == s.filter(p2),
    decreases s.len(),
{
    if s.len() > 0 {
        let last = s.last();
        lemma_filter_congruent(s.drop_last(), p1, p2);
        assert(s == s.drop_last().push(last));
        s.drop_last().lemma_filter_push(last, p1);
        s.drop_last().lemma_filter_push(last, p2);
        assert(p1(s[s.len() - 1]) == p2(s[s.len() - 1]));
    }
}

} // verus!
