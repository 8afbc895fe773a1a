//! Edits to a configuration.
use crate::model::{
    copy_all, views, AppConfig, ConfigView, NodeInfo, NodeView, Peer, Target, TargetView,
    ThresholdSet,
};
use vstd::prelude::*;
use vstd::string::StringExecFns;

verus! {

/// No two targets have the same id.
pub open spec fn distinct_ids(ts: Seq<TargetView>) -> bool {
    forall|i: int, j: int| 0 <= i < j < ts.len() ==> (#[trigger] ts[i]).id != (#[trigger] ts[j]).id
}

/// Some target has this id.
pub open spec fn has_id(ts: Seq<TargetView>, id: Seq<char>) -> bool {
    exists|i: int| 0 <= i < ts.len() && (#[trigger] ts[i]).id == id
}

/// Position `i` is the first with this id.
pub open spec fn first_with_id(ts: Seq<TargetView>, id: Seq<char>, i: int) -> bool {
    &&& 0 <= i < ts.len()
    &&& ts[i].id == id
    &&& forall|j: int| 0 <= j < i ==> (#[trigger] ts[j]).id != id
}

/// The position of the first target with this id.
pub(crate) fn position(ts: &Vec<Target>, id: &str) -> (r: Option<usize>)
    ensures
        match r {
            Some(i) => first_with_id(views(ts@), id@, i as int),
            None => !has_id(views(ts@), id@),
        },
{
    for i in 0..ts.len()
        invariant
            forall|j: int| 0 <= j < i ==> (#[trigger] views(ts@)[j]).id != id@,
    {
        if ts[i].id.as_str().eq(id) {
            return Some(i);
        }
    }
    None
}

/// Adds a target; refused where its id is taken.
pub fn add_target(cfg: &mut AppConfig, target: Target) -> (r: Result<(), String>)
    ensures
        r is Err <==> has_id(old(cfg)@.targets, target@.id),
        r matches Err(e) ==> e@ == "target id '"@ + target@.id + "' already exists"@ && final(cfg)@
            == old(cfg)@,
        r is Ok ==> final(cfg)@ == (ConfigView {
            targets: old(cfg)@.targets.push(target@),
            ..old(cfg)@
        }),
{
    match position(&cfg.targets, target.id.as_str()) {
        Some(_) => {
            let mut e = "target id '".to_owned();
            e.append(target.id.as_str());
            e.append("' already exists");
            Err(e)
        },
        None => {
            let ghost before = cfg@;
            cfg.targets.push(target);
            assert(cfg@.targets =~= before.targets.push(target@));
            Ok(())
        },
    }
}

/// The targets with `t` in the place of the first that has its id, or behind the rest.
pub open spec fn updated(ts: Seq<TargetView>, t: TargetView) -> Seq<TargetView> {
    if has_id(ts, t.id) {
        ts.update(choose|i: int| first_with_id(ts, t.id, i), t)
    } else {
        ts.push(t)
    }
}

/// Replaces the target with the same id, or adds one where there is none.
pub fn update_target(cfg: &mut AppConfig, target: Target)
    ensures
        final(cfg)@ == (ConfigView { targets: updated(old(cfg)@.targets, target@), ..old(cfg)@ }),
{
    let ghost before = cfg@;
    let ghost t = target@;
    match position(&cfg.targets, target.id.as_str()) {
        Some(i) => {
            cfg.targets.set(i, target);
            proof {
                let k = choose|k: int| first_with_id(before.targets, t.id, k);
                assert(first_with_id(before.targets, t.id, k));
                assert(k == i);
                assert(cfg@.targets =~= before.targets.update(i as int, t));
            }
        },
        None => {
            cfg.targets.push(target);
            assert(cfg@.targets =~= before.targets.push(t));
        },
    }
}

/// The targets without those that have this id.
pub open spec fn removed(ts: Seq<TargetView>, id: Seq<char>) -> Seq<TargetView> {
    ts.filter(|t: TargetView| t.id != id)
}

/// Copies of the targets that do not have this id.
fn without(ts: &Vec<Target>, id: &str) -> (r: Vec<Target>)
    ensures
        views(r@) == removed(views(ts@), id@),
{
    let mut r: Vec<Target> = Vec::new();
    let ghost all = views(ts@);
    proof {
        reveal(Seq::filter);
        assert(views(r@) =~= removed(all.take(0), id@));
    }
    for i in 0..ts.len()
        invariant
            all == views(ts@),
            i <= ts@.len(),
            views(r@) == removed(all.take(i as int), id@),
    {
        proof {
            reveal(Seq::filter);
            assert(all.take(i + 1).drop_last() =~= all.take(i as int));
            assert(all.take(i + 1).last() == ts@[i as int]@);
        }
        let ghost before = r@;
        if !ts[i].id.as_str().eq(id) {
            let t = ts[i].clone();
            r.push(t);
            assert(views(r@) =~= views(before).push(t@));
        }
    }
    assert(all.take(ts@.len() as int) =~= all);
    r
}

/// Removes the target with this id, if there is one.
pub fn remove_target(cfg: &mut AppConfig, target_id: &str)
    ensures
        final(cfg)@ == (ConfigView {
            targets: removed(old(cfg)@.targets, target_id@),
            ..old(cfg)@
        }),
{
    cfg.targets = without(&cfg.targets, target_id);
}

/// One target for each id: of several with the same id, the last.
pub open spec fn by_id(ts: Seq<TargetView>) -> Seq<TargetView>
    decreases ts.len(),
{
    if ts.len() == 0 {
        ts
    } else {
        removed(by_id(ts.drop_last()), ts.last().id).push(ts.last())
    }
}

/// The targets of `pool` in the order in which `order` names them, then the rest in theirs. An
/// id that `order` names again, or that no target has, is passed over.
pub open spec fn ordered(pool: Seq<TargetView>, order: Seq<Seq<char>>) -> Seq<TargetView>
    decreases order.len(),
{
    if order.len() == 0 {
        pool
    } else if has_id(pool, order[0]) {
        let i = choose|i: int| first_with_id(pool, order[0], i);
        seq![pool[i]] + ordered(pool.remove(i), order.skip(1))
    } else {
        ordered(pool, order.skip(1))
    }
}

/// Puts the targets in the given order; those that it does not name follow.
pub fn reorder_targets(cfg: &mut AppConfig, order: &Vec<String>)
    ensures
        final(cfg)@ == (ConfigView {
            targets: ordered(by_id(old(cfg)@.targets), views(order@)),
            ..old(cfg)@
        }),
{
    let ghost before = cfg@;
    let ghost ids = views(order@);
    let mut pool: Vec<Target> = Vec::new();
    assert(views(pool@) =~= by_id(before.targets.take(0)));
    for i in 0..cfg.targets.len()
        invariant
            before == cfg@,
            i <= cfg.targets@.len(),
            views(pool@) == by_id(before.targets.take(i as int)),
    {
        let t = cfg.targets[i].clone();
        let mut next = without(&pool, t.id.as_str());
        let ghost kept = next@;
        next.push(t);
        proof {
            assert(views(next@) =~= views(kept).push(t@));
            assert(before.targets.take(i + 1).drop_last() =~= before.targets.take(i as int));
        }
        pool = next;
    }
    assert(before.targets.take(before.targets.len() as int) =~= before.targets);
    let mut out: Vec<Target> = Vec::new();
    assert(views(out@) + ordered(views(pool@), ids.skip(0)) =~= ordered(
        by_id(before.targets),
        ids,
    )) by {
        assert(ids.skip(0) =~= ids);
    }
    for k in 0..order.len()
        invariant
            before == cfg@,
            ids == views(order@),
            k <= order@.len(),
            views(out@) + ordered(views(pool@), ids.skip(k as int)) == ordered(
                by_id(before.targets),
                ids,
            ),
    {
        proof {
            assert(ids.skip(k as int).skip(1) =~= ids.skip(k + 1));
            assert(ids.skip(k as int)[0] == order@[k as int]@);
        }
        match position(&pool, order[k].as_str()) {
            Some(i) => {
                let ghost p = views(pool@);
                let ghost o = views(out@);
                let t = pool.remove(i);
                out.push(t);
                proof {
                    let j = choose|j: int| first_with_id(p, ids[k as int], j);
                    assert(first_with_id(p, ids[k as int], j));
                    assert(j == i);
                    assert(views(pool@) =~= p.remove(i as int));
                    assert(views(out@) =~= o.push(p[i as int]));
                    assert(o.push(p[i as int]) + ordered(p.remove(i as int), ids.skip(k + 1))
                        =~= o + (seq![p[i as int]] + ordered(
                        p.remove(i as int),
                        ids.skip(k + 1),
                    )));
                }
            },
            None => {},
        }
    }
    let ghost o = views(out@);
    let ghost p = views(pool@);
    out.append(&mut pool);
    assert(views(out@) =~= o + p);
    cfg.targets = out;
}

/// Replaces the threshold sets.
pub fn set_sets(cfg: &mut AppConfig, sets: Vec<ThresholdSet>)
    ensures
        final(cfg)@ == (ConfigView { sets: views(sets@), ..old(cfg)@ }),
{
    cfg.sets = sets;
}

/// The theme that a name stands for: `light`, `dark`, or `system` for any other.
pub open spec fn theme_named(name: Seq<char>) -> Seq<char> {
    if name == "light"@ || name == "dark"@ {
        name
    } else {
        "system"@
    }
}

/// Chooses the theme.
pub fn set_theme(cfg: &mut AppConfig, theme: String)
    ensures
        final(cfg)@ == (ConfigView { theme: theme_named(theme@), ..old(cfg)@ }),
{
    let known = theme.as_str().eq("light") || theme.as_str().eq("dark");
    cfg.theme = if known {
        theme
    } else {
        "system".to_owned()
    };
}

/// The aggregate that a name stands for: one of the four besides `worst`, or `worst`.
pub open spec fn aggregate_named(name: Seq<char>) -> Seq<char> {
    if name == "best"@ || name == "trimmed"@ || name == "mean"@ || name == "median"@ {
        name
    } else {
        "worst"@
    }
}

/// Chooses how pixel columns reduce their samples.
pub fn set_aggregate(cfg: &mut AppConfig, aggregate: String)
    ensures
        final(cfg)@ == (ConfigView { aggregate: aggregate_named(aggregate@), ..old(cfg)@ }),
{
    let known = aggregate.as_str().eq("best") || aggregate.as_str().eq("trimmed")
        || aggregate.as_str().eq("mean") || aggregate.as_str().eq("median");
    cfg.aggregate = if known {
        aggregate
    } else {
        "worst".to_owned()
    };
}

/// The role that a name stands for: `server`, or `client` for any other.
pub open spec fn mode_named(name: Seq<char>) -> Seq<char> {
    if name == "server"@ {
        name
    } else {
        "client"@
    }
}

/// Chooses this node's role.
pub fn set_mode(cfg: &mut AppConfig, mode: &str) -> (r: NodeInfo)
    ensures
        final(cfg)@ == (ConfigView {
            node: NodeView { mode: mode_named(mode@), ..old(cfg)@.node },
            ..old(cfg)@
        }),
        r@ == final(cfg)@.node,
{
    cfg.node.mode = if mode.eq("server") {
        "server".to_owned()
    } else {
        "client".to_owned()
    };
    cfg.node.clone()
}

/// Renames this node.
pub fn set_node_name(cfg: &mut AppConfig, name: String) -> (r: NodeInfo)
    ensures
        final(cfg)@ == (ConfigView {
            node: NodeView { name: name@, ..old(cfg)@.node },
            ..old(cfg)@
        }),
        r@ == final(cfg)@.node,
{
    cfg.node.name = name;
    cfg.node.clone()
}

/// A copy of the configuration.
pub fn get_config(cfg: &AppConfig) -> (r: AppConfig)
    ensures
        r@ == cfg@,
{
    cfg.clone()
}

/// A copy of this node's identity.
pub fn get_node(cfg: &AppConfig) -> (r: NodeInfo)
    ensures
        r@ == cfg@.node,
{
    cfg.node.clone()
}

/// Copies of the paired peers.
pub fn get_peers(cfg: &AppConfig) -> (r: Vec<Peer>)
    ensures
        views(r@) == cfg@.peers,
{
    copy_all(&cfg.peers)
}

// ---- laws ------------------------------------------------------------------

proof fn lemma_has_first(ts: Seq<TargetView>, id: Seq<char>)
    requires
        has_id(ts, id),
    ensures
        first_with_id(ts, id, choose|i: int| first_with_id(ts, id, i)),
    decreases ts.len(),
{
    if has_id(ts.drop_last(), id) {
        lemma_has_first(ts.drop_last(), id);
        let i = choose|i: int| first_with_id(ts.drop_last(), id, i);
        assert forall|j: int| 0 <= j < i implies (#[trigger] ts[j]).id != id by {
            assert(ts.drop_last()[j].id != id);
        }
        assert(first_with_id(ts, id, i));
    } else {
        let k = choose|k: int| 0 <= k < ts.len() && (#[trigger] ts[k]).id == id;
        assert forall|j: int| 0 <= j < ts.len() - 1 implies (#[trigger] ts[j]).id != id by {
            assert(ts.drop_last()[j] == ts[j]);
        }
        assert(first_with_id(ts, id, ts.len() - 1));
    }
}

proof fn lemma_removed(ts: Seq<TargetView>, id: Seq<char>)
    requires
        distinct_ids(ts),
    ensures
        distinct_ids(removed(ts, id)),
        !has_id(removed(ts, id), id),
        forall|t: TargetView| #[trigger]
            removed(ts, id).contains(t) <==> ts.contains(t) && t.id != id,
    decreases ts.len(),
{
    reveal(Seq::filter);
    let r = removed(ts, id);
    if ts.len() == 0 {
        assert(r =~= ts);
    } else {
        let front = ts.drop_last();
        let last = ts.last();
        assert(distinct_ids(front));
        lemma_removed(front, id);
        let f = removed(front, id);
        assert forall|t: TargetView| ts.contains(t) <==> front.contains(t) || t == last by {
            if ts.contains(t) {
                let i = choose|i: int| 0 <= i < ts.len() && ts[i] == t;
                if i < front.len() {
                    assert(front[i] == t);
                }
            }
            if front.contains(t) {
                let i = choose|i: int| 0 <= i < front.len() && front[i] == t;
                assert(ts[i] == t);
            }
            assert(ts[ts.len() - 1] == last);
        }
        if last.id != id {
            assert(r == f.push(last));
            assert forall|i: int, j: int| 0 <= i < j < r.len() implies (#[trigger] r[i]).id != (
            #[trigger] r[j]).id by {
                if j < f.len() {
                    assert(f[i].id != f[j].id);
                } else {
                    assert(f.contains(f[i]));
                    assert(front.contains(f[i]));
                    let k = choose|k: int| 0 <= k < front.len() && front[k] == f[i];
                    assert(ts[k].id != ts[ts.len() - 1].id);
                }
            }
            assert forall|t: TargetView| #[trigger] r.contains(t) <==> ts.contains(t) && t.id
                != id by {
                if r.contains(t) {
                    let i = choose|i: int| 0 <= i < r.len() && r[i] == t;
                    if i < f.len() {
                        assert(f.contains(t));
                    }
                }
                if f.contains(t) {
                    let i = choose|i: int| 0 <= i < f.len() && f[i] == t;
                    assert(r[i] == t);
                }
                assert(r[r.len() - 1] == last);
            }
            assert forall|i: int| 0 <= i < r.len() implies (#[trigger] r[i]).id != id by {
                assert(r.contains(r[i]));
            }
        }
    }
}

/// Adding a target whose id is free, replacing one, and removing one keep ids distinct.
pub proof fn edits_keep_ids_distinct(ts: Seq<TargetView>, t: TargetView, id: Seq<char>)
    requires
        distinct_ids(ts),
    ensures
        !has_id(ts, t.id) ==> distinct_ids(ts.push(t)),
        distinct_ids(updated(ts, t)),
        distinct_ids(removed(ts, id)),
{
    lemma_removed(ts, id);
    if has_id(ts, t.id) {
        lemma_has_first(ts, t.id);
        let i = choose|i: int| first_with_id(ts, t.id, i);
        let u = ts.update(i, t);
        assert forall|a: int, b: int| 0 <= a < b < u.len() implies (#[trigger] u[a]).id != (
        #[trigger] u[b]).id by {
            assert(ts[a].id != ts[b].id);
        }
    } else {
        let u = ts.push(t);
        assert forall|a: int, b: int| 0 <= a < b < u.len() implies (#[trigger] u[a]).id != (
        #[trigger] u[b]).id by {
            if b < ts.len() {
                assert(ts[a].id != ts[b].id);
            } else {
                assert(ts[a].id != t.id);
            }
        }
    }
}

/// After an update there is exactly the updated target under its id, and every target with
/// another id is where it was.
pub proof fn update_replaces_one(ts: Seq<TargetView>, t: TargetView)
    requires
        distinct_ids(ts),
    ensures
        updated(ts, t).contains(t),
        forall|i: int|
            0 <= i < updated(ts, t).len() && (#[trigger] updated(ts, t)[i]).id == t.id ==> updated(
                ts,
                t,
            )[i] == t,
        forall|i: int|
            0 <= i < ts.len() && (#[trigger] ts[i]).id != t.id ==> updated(ts, t)[i] == ts[i],
        updated(ts, t).len() == ts.len() + if has_id(ts, t.id) {
            0int
        } else {
            1int
        },
{
    let u = updated(ts, t);
    if has_id(ts, t.id) {
        lemma_has_first(ts, t.id);
        let k = choose|k: int| first_with_id(ts, t.id, k);
        assert(u[k] == t);
        assert forall|i: int| 0 <= i < u.len() && (#[trigger] u[i]).id == t.id implies u[i]
            == t by {
            if i < k {
                assert(ts[i].id != ts[k].id);
            } else if k < i {
                assert(ts[k].id != ts[i].id);
            }
        }
    } else {
        assert(u[ts.len() as int] == t);
    }
}

/// A target that was added can be removed again: what was there before is there after.
pub proof fn remove_undoes_add(ts: Seq<TargetView>, t: TargetView)
    requires
        !has_id(ts, t.id),
    ensures
        removed(ts.push(t), t.id) == ts,
{
    reveal(Seq::filter);
    assert(ts.push(t).drop_last() =~= ts);
    lemma_removed_absent(ts, t.id);
}

proof fn lemma_removed_absent(ts: Seq<TargetView>, id: Seq<char>)
    requires
        !has_id(ts, id),
    ensures
        removed(ts, id) == ts,
    decreases ts.len(),
{
    reveal(Seq::filter);
    if ts.len() > 0 {
        let front = ts.drop_last();
        assert forall|i: int| 0 <= i < front.len() implies (#[trigger] front[i]).id != id by {
            assert(ts[i].id != id);
        }
        lemma_removed_absent(front, id);
        assert(ts[ts.len() - 1].id != id);
        assert(front.push(ts.last()) =~= ts);
    }
}

/// Keeping one target for each id makes ids distinct, loses no id, and changes nothing where
/// they were distinct.
pub proof fn by_id_is_distinct(ts: Seq<TargetView>)
    ensures
        distinct_ids(by_id(ts)),
        forall|id: Seq<char>| #[trigger] has_id(by_id(ts), id) <==> has_id(ts, id),
        distinct_ids(ts) ==> by_id(ts) == ts,
    decreases ts.len(),
{
    if ts.len() > 0 {
        let front = ts.drop_last();
        let last = ts.last();
        by_id_is_distinct(front);
        let kept = by_id(front);
        let r = removed(kept, last.id);
        lemma_removed(kept, last.id);
        edits_keep_ids_distinct(r, last, last.id);
        let u = by_id(ts);
        assert(u == r.push(last));
        assert forall|id: Seq<char>| #[trigger] has_id(u, id) <==> has_id(ts, id) by {
            if has_id(u, id) {
                let i = choose|i: int| 0 <= i < u.len() && (#[trigger] u[i]).id == id;
                if i < r.len() {
                    assert(r.contains(r[i]));
                    assert(kept.contains(r[i]));
                    let k = choose|k: int| 0 <= k < kept.len() && kept[k] == r[i];
                    assert(kept[k].id == id);
                    assert(has_id(kept, id));
                    assert(has_id(front, id));
                    let m = choose|m: int| 0 <= m < front.len() && (#[trigger] front[m]).id == id;
                    assert(ts[m].id == id);
                } else {
                    assert(ts[ts.len() - 1].id == id);
                }
            }
            if has_id(ts, id) {
                if id == last.id {
                    assert(u[u.len() - 1].id == id);
                } else {
                    let m = choose|m: int| 0 <= m < ts.len() && (#[trigger] ts[m]).id == id;
                    assert(front[m].id == id);
                    assert(has_id(kept, id));
                    let k = choose|k: int| 0 <= k < kept.len() && (#[trigger] kept[k]).id == id;
                    assert(kept.contains(kept[k]));
                    assert(r.contains(kept[k]));
                    let i = choose|i: int| 0 <= i < r.len() && r[i] == kept[k];
                    assert(u[i].id == id);
                }
            }
        }
        if distinct_ids(ts) {
            assert(distinct_ids(front));
            assert(!has_id(front, last.id)) by {
                if has_id(front, last.id) {
                    let m = choose|m: int|
                        0 <= m < front.len() && (#[trigger] front[m]).id == last.id;
                    assert(ts[m].id != ts[ts.len() - 1].id);
                }
            }
            lemma_removed_absent(front, last.id);
            assert(front.push(last) =~= ts);
        }
    }
}

/// Reordering moves targets and does nothing else: the same targets are there as before, each
/// as often, whatever the order names.
pub proof fn reorder_is_a_permutation(pool: Seq<TargetView>, order: Seq<Seq<char>>)
    ensures
        ordered(pool, order).to_multiset() == pool.to_multiset(),
    decreases order.len(),
{
    if order.len() > 0 {
        if has_id(pool, order[0]) {
            lemma_has_first(pool, order[0]);
            let i = choose|i: int| first_with_id(pool, order[0], i);
            let rest = ordered(pool.remove(i), order.skip(1));
            reorder_is_a_permutation(pool.remove(i), order.skip(1));
            broadcast use vstd::seq_lib::group_to_multiset_ensures;

            vstd::seq_lib::lemma_multiset_commutative(seq![pool[i]], rest);
            assert(seq![pool[i]] =~= Seq::<TargetView>::empty().push(pool[i]));
            assert(pool.to_multiset() =~= pool.remove(i).to_multiset().insert(pool[i]));
            assert(ordered(pool, order).to_multiset() =~= rest.to_multiset().insert(pool[i]));
        } else {
            reorder_is_a_permutation(pool, order.skip(1));
        }
    }
}

/// Where the order names each target's id once and no other, the targets come out in exactly
/// that order.
pub proof fn reorder_follows_the_order(pool: Seq<TargetView>, order: Seq<Seq<char>>)
    requires
        distinct_ids(pool),
        order.len() == pool.len(),
        order.no_duplicates(),
        forall|i: int| 0 <= i < order.len() ==> has_id(pool, #[trigger] order[i]),
    ensures
        ordered(pool, order).len() == order.len(),
        forall|i: int| 0 <= i < order.len() ==> (#[trigger] ordered(pool, order)[i]).id == order[i],
    decreases order.len(),
{
    if order.len() > 0 {
        assert(has_id(pool, order[0]));
        lemma_has_first(pool, order[0]);
        let i = choose|i: int| first_with_id(pool, order[0], i);
        let p = pool.remove(i);
        let o = order.skip(1);
        assert forall|a: int, b: int| 0 <= a < b < p.len() implies (#[trigger] p[a]).id != (
        #[trigger] p[b]).id by {
            let x = if a < i { a } else { a + 1 };
            let y = if b < i { b } else { b + 1 };
            assert(pool[x].id != pool[y].id);
        }
        assert forall|k: int| 0 <= k < o.len() implies has_id(p, #[trigger] o[k]) by {
            assert(o[k] == order[k + 1]);
            assert(has_id(pool, order[k + 1]));
            let m = choose|m: int| 0 <= m < pool.len() && (#[trigger] pool[m]).id == order[k + 1];
            assert(order[0] != order[k + 1]);
            let x = if m < i { m } else { m - 1 };
            assert(p[x] == pool[m]);
        }
        reorder_follows_the_order(p, o);
        let r = ordered(p, o);
        assert forall|k: int| 0 <= k < order.len() implies (#[trigger] ordered(pool, order)[k]).id
            == order[k] by {
            if k > 0 {
                assert(ordered(pool, order)[k] == r[k - 1]);
                assert(o[k - 1] == order[k]);
            }
        }
    }
}

/// A theme, an aggregate or a mode that is in force can be set again and stays.
pub proof fn settings_are_fixed_points(name: Seq<char>)
    ensures
        theme_named(theme_named(name)) == theme_named(name),
        aggregate_named(aggregate_named(name)) == aggregate_named(name),
        mode_named(mode_named(name)) == mode_named(name),
{
}

/// A theme, an aggregate or a mode that is known is set as it is named; any other name sets the
/// system's theme, the worst round trip, or the client's role.
pub proof fn known_names_are_set(name: Seq<char>)
    ensures
        theme_named("light"@) == "light"@,
        theme_named("dark"@) == "dark"@,
        theme_named("system"@) == "system"@,
        !seq!["light"@, "dark"@].contains(name) ==> theme_named(name) == "system"@,
        aggregate_named("worst"@) == "worst"@,
        aggregate_named("best"@) == "best"@,
        aggregate_named("trimmed"@) == "trimmed"@,
        aggregate_named("mean"@) == "mean"@,
        aggregate_named("median"@) == "median"@,
        !seq!["best"@, "trimmed"@, "mean"@, "median"@].contains(name) ==> aggregate_named(name)
            == "worst"@,
        mode_named("server"@) == "server"@,
        mode_named("client"@) == "client"@,
        name != "server"@ ==> mode_named(name) == "client"@,
{
    let themes = seq!["light"@, "dark"@];
    assert(themes[0] == "light"@ && themes[1] == "dark"@);
    let aggregates = seq!["best"@, "trimmed"@, "mean"@, "median"@];
    assert(aggregates[0] == "best"@ && aggregates[1] == "trimmed"@ && aggregates[2] == "mean"@
        && aggregates[3] == "median"@);
}

/// Removing an id takes out every target that has it and no other, and leaves the rest in order.
pub proof fn removal_takes_one_id_alone(ts: Seq<TargetView>, t: TargetView, id: Seq<char>)
    ensures
        t.id == id ==> removed(ts.push(t), id) == removed(ts, id),
        t.id != id ==> removed(ts.push(t), id) == removed(ts, id).push(t),
        removed(Seq::<TargetView>::empty(), id).len() == 0,
{
    reveal(Seq::filter);
    assert(ts.push(t).drop_last() =~= ts);
}

/// An update replaces the first target with its id, wherever others with that id stand, and one
/// whose id is new comes behind the rest.
pub proof fn updates_replace_the_first(ts: Seq<TargetView>, t: TargetView, i: int)
    ensures
        0 <= i < ts.len() && ts[i].id == t.id && (forall|j: int|
            0 <= j < i ==> (#[trigger] ts[j]).id != t.id) ==> updated(ts, t) == ts.update(i, t),
        (forall|j: int| 0 <= j < ts.len() ==> (#[trigger] ts[j]).id != t.id) ==> updated(ts, t)
            == ts.push(t),
{
    if first_with_id(ts, t.id, i) {
        let k = choose|k: int| first_with_id(ts, t.id, k);
        assert(first_with_id(ts, t.id, k));
        assert(k == i);
        assert(has_id(ts, t.id));
    }
}

/// Of several targets with one id the last is kept, behind the others; every target with another
/// id stays as it was kept.
pub proof fn the_last_of_an_id_is_kept(ts: Seq<TargetView>, t: TargetView)
    ensures
        by_id(ts.push(t)).len() > 0,
        by_id(ts.push(t)).last() == t,
        by_id(ts.push(t)).drop_last() == removed(by_id(ts), t.id),
        by_id(Seq::<TargetView>::empty()).len() == 0,
{
    assert(ts.push(t).drop_last() =~= ts);
    assert(by_id(ts.push(t)).drop_last() =~= removed(by_id(ts), t.id));
}

/// Targets that an order names come first, in its order, and the rest keep theirs: what the first
/// name of an order stands for goes to the front, and the remaining names order what is left. A
/// name that stands for nothing changes nothing, and neither does an order without names.
pub proof fn named_targets_come_first(
    pool: Seq<TargetView>,
    id: Seq<char>,
    order: Seq<Seq<char>>,
    i: int,
)
    ensures
        0 <= i < pool.len() && pool[i].id == id && (forall|j: int|
            0 <= j < i ==> (#[trigger] pool[j]).id != id) ==> {
            let all = ordered(pool, seq![id] + order);
            &&& all.len() > 0
            &&& all[0] == pool[i]
            &&& all.skip(1) == ordered(pool.remove(i), order)
        },
        (forall|j: int| 0 <= j < pool.len() ==> (#[trigger] pool[j]).id != id) ==> ordered(
            pool,
            seq![id] + order,
        ) == ordered(pool, order),
        ordered(pool, Seq::<Seq<char>>::empty()) == pool,
{
    let names = seq![id] + order;
    assert(names[0] == id);
    assert(names.skip(1) =~= order);
    if first_with_id(pool, id, i) {
        let k = choose|k: int| first_with_id(pool, id, k);
        assert(first_with_id(pool, id, k));
        assert(k == i);
        assert(has_id(pool, id));
        assert(ordered(pool, names).skip(1) =~= ordered(pool.remove(i), order));
    }
}

} // verus!
