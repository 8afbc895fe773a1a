//! Sharing targets: a server assigns its own to its clients, and a client merges what it is
//! assigned into what it probes already.
use crate::json::{
    entry_at, list_at, list_field, nat_at, nat_field, plain, put_nat, put_text, text_at, text_or,
    tree, trees, with, Json,
};
use crate::model::{views, AppConfig, ConfigView, Target, TargetView};
use crate::table::{fetched, placed, position, put_at, Keyed};
use crate::text::{hex, hex_is_injective, push_hex};
use crate::wire::lemma_plain_with;
use serde_json::Value;
use std::collections::hash_map::DefaultHasher;
use std::hash::Hasher;
use vstd::bytes::{spec_u64_to_le_bytes, u64_to_le_bytes};
use vstd::prelude::*;
use vstd::std_specs::hash::DefaultHasherAdditionalSpecFns;
use vstd::string::StringSliceAdditionalSpecFns;
use vstd::utf8::encode_utf8;

verus! {

/// What the id of an assigned target is a hash of: each text with a closing byte, each number by
/// its eight bytes, lowest first.
pub open spec fn id_writes(t: TargetView, ts: u64) -> Seq<Seq<u8>> {
    seq![
        encode_utf8(t.host),
        seq![0xffu8],
        encode_utf8(t.tag),
        seq![0xffu8],
        spec_u64_to_le_bytes(t.interval_ms),
        encode_utf8(t.label),
        seq![0xffu8],
        spec_u64_to_le_bytes(ts),
    ]
}

/// The short id of an assigned target: the low half of a hash of its configuration and the time
/// of the negotiation.
pub open spec fn id_view(t: TargetView, ts: u64) -> u32 {
    DefaultHasher::spec_finish(id_writes(t, ts)) as u32
}

/// The short id of an assigned target.
pub fn assign_id(t: &Target, ts: u64) -> (r: u32)
    ensures
        r == id_view(t@, ts),
{
    let end: [u8; 1] = [0xff];
    let mut h = DefaultHasher::new();
    h.write(t.host.as_str().as_bytes());
    h.write(&end);
    h.write(t.tag.as_str().as_bytes());
    h.write(&end);
    h.write(u64_to_le_bytes(t.interval_ms).as_slice());
    h.write(t.label.as_str().as_bytes());
    h.write(&end);
    h.write(u64_to_le_bytes(ts).as_slice());
    proof {
        assert(end@ =~= seq![0xffu8]);
        assert(h@ =~= id_writes(t@, ts));
    }
    h.finish() as u32
}

// ---- what a server assigns -------------------------------------------------

/// What a server remembers of a target that it assigned, so that a report, which names it by id
/// alone, can be shown with its names.
#[derive(Debug)]
pub struct Assigned {
    pub id: u32,
    pub host: String,
    pub tag: String,
    pub label: String,
}

/// What an [`Assigned`] holds.
#[verifier::ext_equal]
pub struct AssignedView {
    pub id: u32,
    pub host: Seq<char>,
    pub tag: Seq<char>,
    pub label: Seq<char>,
}

impl View for Assigned {
    type V = AssignedView;

    open spec fn view(&self) -> AssignedView {
        AssignedView { id: self.id, host: self.host@, tag: self.tag@, label: self.label@ }
    }
}

impl Clone for Assigned {
    fn clone(&self) -> (r: Self)
        ensures
            r@ == self@,
    {
        Assigned {
            id: self.id,
            host: self.host.clone(),
            tag: self.tag.clone(),
            label: self.label.clone(),
        }
    }
}

impl Keyed for Assigned {
    type Id = u32;

    open spec fn key(v: AssignedView) -> u32 {
        v.id
    }

    fn has_key(&self, id: &u32) -> (r: bool) {
        self.id == *id
    }
}

/// What is remembered of a target.
pub open spec fn remembered(t: TargetView, ts: u64) -> AssignedView {
    AssignedView { id: id_view(t, ts), host: t.host, tag: t.tag, label: t.label }
}

/// What is remembered of all targets; of two with the same id, the later.
pub open spec fn remembered_all(targets: Seq<TargetView>, ts: u64) -> Seq<AssignedView>
    decreases targets.len(),
{
    if targets.len() == 0 {
        Seq::empty()
    } else {
        placed::<Assigned>(
            remembered_all(targets.drop_last(), ts),
            remembered(targets.last(), ts),
        )
    }
}

/// A target as an assignment lists it.
pub open spec fn listed(t: TargetView, ts: u64) -> Json {
    with(
        with(
            with(
                with(
                    with(Json::Null, "id"@, Json::Nat(id_view(t, ts) as u64)),
                    "host"@,
                    Json::Text(t.host),
                ),
                "tag"@,
                Json::Text(t.tag),
            ),
            "label"@,
            Json::Text(t.label),
        ),
        "intervalMs"@,
        Json::Nat(t.interval_ms),
    )
}

/// The targets as an assignment lists them.
pub open spec fn listed_all(targets: Seq<TargetView>, ts: u64) -> Seq<Json> {
    Seq::new(targets.len(), |i: int| listed(targets[i], ts))
}

/// Lists one target.
fn list_one(t: &Target, id: u32, Ghost(ts): Ghost<u64>) -> (r: Value)
    requires
        id == id_view(t@, ts),
    ensures
        tree(r) == listed(t@, ts),
        plain(tree(r), 1),
{
    let mut v = crate::json::null();
    put_nat(&mut v, "id", id as u64);
    proof {
        lemma_plain_with(Json::Null, "id"@, Json::Nat(id as u64), 1);
        lemma_plain_with(tree(v), "host"@, Json::Text(t.host@), 1);
    }
    put_text(&mut v, "host", t.host.as_str());
    proof {
        lemma_plain_with(tree(v), "tag"@, Json::Text(t.tag@), 1);
    }
    put_text(&mut v, "tag", t.tag.as_str());
    proof {
        lemma_plain_with(tree(v), "label"@, Json::Text(t.label@), 1);
    }
    put_text(&mut v, "label", t.label.as_str());
    proof {
        lemma_plain_with(tree(v), "intervalMs"@, Json::Nat(t.interval_ms), 1);
    }
    put_nat(&mut v, "intervalMs", t.interval_ms);
    v
}

/// The assignment of these targets at the time `ts`: the list that is sent, and what is
/// remembered of it.
pub fn build_assignment(targets: &Vec<Target>, ts: u64) -> (r: (Vec<Value>, Vec<Assigned>))
    ensures
        trees(r.0@) == listed_all(views(targets@), ts),
        forall|i: int| 0 <= i < r.0@.len() ==> plain(tree(#[trigger] r.0@[i]), 1),
        views(r.1@) == remembered_all(views(targets@), ts),
{
    let ghost all = views(targets@);
    let mut list: Vec<Value> = Vec::new();
    let mut map: Vec<Assigned> = Vec::new();
    assert(views(map@) =~= remembered_all(all.take(0), ts));
    for i in 0..targets.len()
        invariant
            all == views(targets@),
            i <= targets@.len(),
            list@.len() == i,
            forall|j: int|
                0 <= j < i ==> tree(#[trigger] list@[j]) == listed(all[j], ts) && plain(
                    tree(list@[j]),
                    1,
                ),
            views(map@) == remembered_all(all.take(i as int), ts),
    {
        let t = &targets[i];
        let id: u32 = assign_id(t, ts);
        let v = list_one(t, id, Ghost(ts));
        list.push(v);
        let at = position(&map, &id);
        let e = Assigned {
            id,
            host: t.host.clone(),
            tag: t.tag.clone(),
            label: t.label.clone(),
        };
        proof {
            assert(e@ =~= remembered(t@, ts));
            assert(all.take(i + 1).drop_last() =~= all.take(i as int));
            assert(all.take(i + 1).last() == t@);
        }
        put_at(&mut map, at, e);
    }
    proof {
        assert(all.take(targets@.len() as int) =~= all);
        assert(trees(list@) =~= listed_all(all, ts));
    }
    (list, map)
}

// ---- what a client makes of it ---------------------------------------------

/// A target that an assignment asks for.
#[derive(Debug)]
pub struct Wanted {
    pub id: u32,
    pub host: String,
    pub tag: String,
    pub label: String,
    pub interval_ms: u64,
}

/// What a [`Wanted`] holds.
#[verifier::ext_equal]
pub struct WantedView {
    pub id: u32,
    pub host: Seq<char>,
    pub tag: Seq<char>,
    pub label: Seq<char>,
    pub interval_ms: u64,
}

impl View for Wanted {
    type V = WantedView;

    open spec fn view(&self) -> WantedView {
        WantedView {
            id: self.id,
            host: self.host@,
            tag: self.tag@,
            label: self.label@,
            interval_ms: self.interval_ms,
        }
    }
}

/// A value, or another where there is none.
pub open spec fn or<T>(o: Option<T>, other: T) -> T {
    match o {
        Some(x) => x,
        None => other,
    }
}

/// What an entry of an assignment asks for: what it leaves out is id 0, no host, the tag
/// `internet`, the host for a label, and a second for an interval. An id is cut to 32 bits.
pub open spec fn wanted(t: Json) -> WantedView {
    let host = or(text_at(t, "host"@), ""@);
    WantedView {
        id: or(nat_at(t, "id"@), 0) as u32,
        host,
        tag: or(text_at(t, "tag"@), "internet"@),
        label: or(text_at(t, "label"@), host),
        interval_ms: or(nat_at(t, "intervalMs"@), 1000),
    }
}

/// Reads an entry of an assignment.
pub fn read_wanted(v: &Value) -> (r: Wanted)
    ensures
        r@ == wanted(tree(*v)),
{
    let id: u64 = match nat_field(v, "id") {
        Some(n) => n,
        None => 0,
    };
    let interval_ms: u64 = match nat_field(v, "intervalMs") {
        Some(n) => n,
        None => 1000,
    };
    let host = text_or(v, "host", "");
    let tag = text_or(v, "tag", "internet");
    let label = text_or(v, "label", host.as_str());
    Wanted { id: id as u32, host, tag, label, interval_ms }
}

/// The local target that stands for an assigned id, and its interval.
#[derive(Debug)]
pub struct Local {
    pub id: u32,
    pub local: String,
    pub interval_ms: u64,
}

/// What a [`Local`] holds.
#[verifier::ext_equal]
pub struct LocalView {
    pub id: u32,
    pub local: Seq<char>,
    pub interval_ms: u64,
}

impl View for Local {
    type V = LocalView;

    open spec fn view(&self) -> LocalView {
        LocalView { id: self.id, local: self.local@, interval_ms: self.interval_ms }
    }
}

impl Keyed for Local {
    type Id = u32;

    open spec fn key(v: LocalView) -> u32 {
        v.id
    }

    fn has_key(&self, id: &u32) -> (r: bool) {
        self.id == *id
    }
}

/// The first target that watches this host is at position `i`.
pub open spec fn watched_at(ts: Seq<TargetView>, host: Seq<char>, i: int) -> bool {
    &&& 0 <= i < ts.len()
    &&& ts[i].host == host
    &&& forall|j: int| 0 <= j < i ==> (#[trigger] ts[j]).host != host
}

/// Some target watches this host.
pub open spec fn watched(ts: Seq<TargetView>, host: Seq<char>) -> bool {
    exists|i: int| 0 <= i < ts.len() && (#[trigger] ts[i]).host == host
}

/// The target that a client adds for a host that it does not watch yet.
pub open spec fn added_for(w: WantedView) -> TargetView {
    TargetView {
        id: "asg-"@ + hex(w.id as nat, 8),
        label: w.label,
        host: w.host,
        tag: w.tag,
        interval_ms: w.interval_ms,
    }
}

/// The targets once one more is asked for: an entry without a host, or with one that is watched
/// already, adds none.
pub open spec fn joined_targets(ts: Seq<TargetView>, w: WantedView) -> Seq<TargetView> {
    if w.host.len() == 0 || watched(ts, w.host) {
        ts
    } else {
        ts.push(added_for(w))
    }
}

/// The target that stands for `w` among these, which watch its host.
pub open spec fn stand_in(ts: Seq<TargetView>, w: WantedView) -> LocalView {
    let t = ts[choose|i: int| watched_at(ts, w.host, i)];
    LocalView { id: w.id, local: t.id, interval_ms: t.interval_ms }
}

/// What stands for the assigned ids once one more is asked for, of which `ts` are the targets
/// with it.
pub open spec fn joined_locals(
    out: Seq<LocalView>,
    ts: Seq<TargetView>,
    w: WantedView,
) -> Seq<LocalView> {
    if w.host.len() == 0 {
        out
    } else {
        placed::<Local>(out, stand_in(ts, w))
    }
}

/// The targets once an assignment is applied.
pub open spec fn merged_targets(ts: Seq<TargetView>, list: Seq<Json>) -> Seq<TargetView>
    decreases list.len(),
{
    if list.len() == 0 {
        ts
    } else {
        joined_targets(merged_targets(ts, list.drop_last()), wanted(list.last()))
    }
}

/// What stands for the assigned ids once an assignment is applied.
pub open spec fn merged_locals(ts: Seq<TargetView>, list: Seq<Json>) -> Seq<LocalView>
    decreases list.len(),
{
    if list.len() == 0 {
        Seq::empty()
    } else {
        joined_locals(
            merged_locals(ts, list.drop_last()),
            merged_targets(ts, list),
            wanted(list.last()),
        )
    }
}

/// The entries of an assignment; none where it lists none.
pub open spec fn entries(t: Json) -> Seq<Json> {
    or(list_at(t, "targets"@), Seq::empty())
}

/// A first position is the one that is chosen.
proof fn lemma_watched(ts: Seq<TargetView>, host: Seq<char>, i: int)
    requires
        watched_at(ts, host, i),
    ensures
        watched(ts, host),
        i == choose|k: int| watched_at(ts, host, k),
{
    assert(ts[i].host == host);
    let k = choose|k: int| watched_at(ts, host, k);
    assert(watched_at(ts, host, k));
}

/// The position of the first target that watches this host.
fn watching(ts: &Vec<Target>, host: &str) -> (r: Option<usize>)
    ensures
        match r {
            Some(i) => watched_at(views(ts@), host@, i as int),
            None => !watched(views(ts@), host@),
        },
{
    for i in 0..ts.len()
        invariant
            forall|j: int| 0 <= j < i ==> (#[trigger] views(ts@)[j]).host != host@,
    {
        if ts[i].host.as_str().eq(host) {
            return Some(i);
        }
    }
    None
}

/// Applies one entry of an assignment.
fn join(targets: &mut Vec<Target>, out: &mut Vec<Local>, w: Wanted)
    ensures
        views(final(targets)@) == joined_targets(views(old(targets)@), w@),
        views(final(out)@) == joined_locals(
            views(old(out)@),
            joined_targets(views(old(targets)@), w@),
            w@,
        ),
{
    if w.host.as_str().is_empty() {
        return ;
    }
    let ghost ts = views(targets@);
    let at = position(out, &w.id);
    match watching(targets, w.host.as_str()) {
        Some(i) => {
            let e = Local {
                id: w.id,
                local: targets[i].id.clone(),
                interval_ms: targets[i].interval_ms,
            };
            proof {
                lemma_watched(ts, w@.host, i as int);
                assert(e@ =~= stand_in(ts, w@));
            }
            put_at(out, at, e);
        },
        None => {
            let mut local = "asg-".to_owned();
            push_hex(&mut local, w.id, 8);
            let e = Local { id: w.id, local: local.clone(), interval_ms: w.interval_ms };
            let ghost wv = w@;
            let t = Target {
                id: local,
                label: w.label,
                host: w.host,
                tag: w.tag,
                interval_ms: w.interval_ms,
            };
            let ghost tv = t@;
            targets.push(t);
            proof {
                assert(tv =~= added_for(wv));
                assert(views(targets@) =~= ts.push(tv));
                assert forall|j: int| 0 <= j < ts.len() implies (#[trigger] ts.push(tv)[j]).host
                    != wv.host by {
                    assert(ts.push(tv)[j] == ts[j]);
                }
                lemma_watched(ts.push(tv), wv.host, ts.len() as int);
                assert(e@ =~= stand_in(ts.push(tv), wv));
            }
            put_at(out, at, e);
        },
    }
}

/// Merges an assignment into a client's targets. A host that is watched already keeps its target
/// and its cadence; for any other a target is added behind the rest. Returns what stands for
/// each assigned id.
pub fn apply_assignment(cfg: &mut AppConfig, v: &Value) -> (r: Vec<Local>)
    ensures
        final(cfg)@ == (ConfigView {
            targets: merged_targets(old(cfg)@.targets, entries(tree(*v))),
            ..old(cfg)@
        }),
        views(r@) == merged_locals(old(cfg)@.targets, entries(tree(*v))),
{
    let ghost before = cfg@;
    let mut out: Vec<Local> = Vec::new();
    let list = match list_field(v, "targets") {
        Some(list) => list,
        None => {
            assert(views(out@) =~= Seq::empty());
            return out;
        },
    };
    let ghost all = entries(tree(*v));
    proof {
        assert(all.take(0) =~= Seq::empty());
        assert(views(out@) =~= merged_locals(before.targets, all.take(0)));
    }
    for i in 0..list.len()
        invariant
            all == trees(list@),
            i <= list@.len(),
            cfg@ == (ConfigView {
                targets: merged_targets(before.targets, all.take(i as int)),
                ..before
            }),
            views(out@) == merged_locals(before.targets, all.take(i as int)),
    {
        let w = read_wanted(&list[i]);
        proof {
            assert(all.take(i + 1).drop_last() =~= all.take(i as int));
            assert(all.take(i + 1).last() == tree(list@[i as int]));
        }
        join(&mut cfg.targets, &mut out, w);
    }
    assert(all.take(list@.len() as int) =~= all);
    out
}

// ---- laws ------------------------------------------------------------------

/// A client keeps every target that it had, where it was.
pub proof fn assignment_keeps_targets(ts: Seq<TargetView>, list: Seq<Json>)
    ensures
        merged_targets(ts, list).len() >= ts.len(),
        merged_targets(ts, list).take(ts.len() as int) == ts,
    decreases list.len(),
{
    if list.len() == 0 {
        assert(ts.take(ts.len() as int) =~= ts);
    } else {
        let before = merged_targets(ts, list.drop_last());
        assignment_keeps_targets(ts, list.drop_last());
        assert(merged_targets(ts, list).take(ts.len() as int) =~= before.take(ts.len() as int));
    }
}

/// A host that is watched stays watched when more is asked for.
proof fn lemma_still_watched(ts: Seq<TargetView>, w: WantedView, host: Seq<char>)
    requires
        watched(ts, host),
    ensures
        watched(joined_targets(ts, w), host),
{
    let i = choose|i: int| 0 <= i < ts.len() && (#[trigger] ts[i]).host == host;
    assert(joined_targets(ts, w)[i] == ts[i]);
}

/// Every host that an assignment names is watched once it is applied.
pub proof fn assigned_hosts_are_watched(ts: Seq<TargetView>, list: Seq<Json>, i: int)
    requires
        0 <= i < list.len(),
        wanted(list[i]).host.len() > 0,
    ensures
        watched(merged_targets(ts, list), wanted(list[i]).host),
    decreases list.len(),
{
    let before = merged_targets(ts, list.drop_last());
    let w = wanted(list.last());
    if i == list.len() - 1 {
        if !watched(before, w.host) {
            assert(merged_targets(ts, list)[before.len() as int].host == w.host);
        }
    } else {
        assigned_hosts_are_watched(ts, list.drop_last(), i);
        lemma_still_watched(before, w, wanted(list[i]).host);
    }
}

/// No two targets watch the same host.
pub open spec fn single_hosts(ts: Seq<TargetView>) -> bool {
    forall|i: int, j: int|
        0 <= i < j < ts.len() ==> (#[trigger] ts[i]).host != (#[trigger] ts[j]).host
}

/// An assignment never makes a client watch a host twice.
pub proof fn assignment_keeps_hosts_single(ts: Seq<TargetView>, list: Seq<Json>)
    requires
        single_hosts(ts),
    ensures
        single_hosts(merged_targets(ts, list)),
    decreases list.len(),
{
    if list.len() > 0 {
        assignment_keeps_hosts_single(ts, list.drop_last());
    }
}

/// Where every host is watched already, an assignment changes nothing.
proof fn lemma_nothing_new(ts: Seq<TargetView>, list: Seq<Json>)
    requires
        forall|i: int|
            0 <= i < list.len() && wanted(#[trigger] list[i]).host.len() > 0 ==> watched(
                ts,
                wanted(list[i]).host,
            ),
    ensures
        merged_targets(ts, list) == ts,
    decreases list.len(),
{
    if list.len() > 0 {
        assert forall|i: int|
            0 <= i < list.drop_last().len() && wanted(
                #[trigger] list.drop_last()[i],
            ).host.len() > 0 implies watched(ts, wanted(list.drop_last()[i]).host) by {
            assert(list.drop_last()[i] == list[i]);
        }
        lemma_nothing_new(ts, list.drop_last());
        assert(list.last() == list[list.len() - 1]);
    }
}

/// The same assignment, sent again, adds nothing.
pub proof fn repeated_assignment_adds_nothing(ts: Seq<TargetView>, list: Seq<Json>)
    ensures
        merged_targets(merged_targets(ts, list), list) == merged_targets(ts, list),
{
    assert forall|i: int|
        0 <= i < list.len() && wanted(#[trigger] list[i]).host.len() > 0 implies watched(
        merged_targets(ts, list),
        wanted(list[i]).host,
    ) by {
        assigned_hosts_are_watched(ts, list, i);
    }
    lemma_nothing_new(merged_targets(ts, list), list);
}

/// What the front of an assignment leads to is the front of what the whole leads to.
proof fn lemma_front(ts: Seq<TargetView>, list: Seq<Json>, k: int)
    requires
        0 <= k <= list.len(),
    ensures
        merged_targets(ts, list.take(k)).len() <= merged_targets(ts, list).len(),
        forall|i: int|
            0 <= i < merged_targets(ts, list.take(k)).len() ==> #[trigger] merged_targets(
                ts,
                list.take(k),
            )[i] == merged_targets(ts, list)[i],
    decreases list.len(),
{
    if k == list.len() {
        assert(list.take(k) =~= list);
    } else {
        assert(list.drop_last().take(k) =~= list.take(k));
        lemma_front(ts, list.drop_last(), k);
    }
}

/// Once an assignment is applied, its front stands for the same ids as before.
proof fn lemma_same_locals(ts: Seq<TargetView>, list: Seq<Json>, k: int)
    requires
        0 <= k <= list.len(),
    ensures
        merged_locals(merged_targets(ts, list), list.take(k)) == merged_locals(ts, list.take(k)),
    decreases k,
{
    let all = merged_targets(ts, list);
    let front = list.take(k);
    if k > 0 {
        lemma_same_locals(ts, list, k - 1);
        assert(front.drop_last() =~= list.take(k - 1));
        let w = wanted(front.last());
        if w.host.len() > 0 {
            assert forall|i: int|
                0 <= i < front.len() && wanted(#[trigger] front[i]).host.len() > 0 implies watched(
                all,
                wanted(front[i]).host,
            ) by {
                assert(front[i] == list[i]);
                assigned_hosts_are_watched(ts, list, i);
            }
            lemma_nothing_new(all, front);
            let part = merged_targets(ts, front);
            assigned_hosts_are_watched(ts, front, k - 1);
            lemma_first_watched(part, w.host);
            let i = choose|i: int| watched_at(part, w.host, i);
            assert(watched_at(part, w.host, i));
            lemma_front(ts, list, k);
            assert(part[i] == all[i]);
            assert forall|j: int| 0 <= j < i implies (#[trigger] all[j]).host != w.host by {
                assert(part[j] == all[j]);
            }
            assert(watched_at(all, w.host, i));
            lemma_watched(part, w.host, i);
            lemma_watched(all, w.host, i);
            assert(stand_in(all, w) == stand_in(part, w));
        }
    }
}

/// The same assignment, sent again, gives the same targets for the same ids.
pub proof fn repeated_assignment_gives_the_same_locals(ts: Seq<TargetView>, list: Seq<Json>)
    ensures
        merged_locals(merged_targets(ts, list), list) == merged_locals(ts, list),
{
    assert(list.take(list.len() as int) =~= list);
    lemma_same_locals(ts, list, list.len() as int);
}

/// Some target is the one that stands for an assigned id, at its cadence.
pub open spec fn stands_for(ts: Seq<TargetView>, e: LocalView) -> bool {
    exists|i: int|
        0 <= i < ts.len() && (#[trigger] ts[i]).id == e.local && ts[i].interval_ms
            == e.interval_ms
}

/// What stands for an assigned id is always one of the client's targets.
pub proof fn locals_are_targets(ts: Seq<TargetView>, list: Seq<Json>, k: int)
    requires
        0 <= k < merged_locals(ts, list).len(),
    ensures
        stands_for(merged_targets(ts, list), merged_locals(ts, list)[k]),
    decreases list.len(),
{
    if list.len() > 0 {
        let before = merged_targets(ts, list.drop_last());
        let after = merged_targets(ts, list);
        let old_out = merged_locals(ts, list.drop_last());
        let out = merged_locals(ts, list);
        let w = wanted(list.last());
        assert forall|j: int| 0 <= j < old_out.len() implies stands_for(
            after,
            #[trigger] old_out[j],
        ) by {
            locals_are_targets(ts, list.drop_last(), j);
            let i = choose|i: int|
                0 <= i < before.len() && (#[trigger] before[i]).id == old_out[j].local
                    && before[i].interval_ms == old_out[j].interval_ms;
            assert(after[i] == before[i]);
        }
        if w.host.len() > 0 {
            let x = stand_in(after, w);
            if watched(before, w.host) {
                lemma_first_watched(before, w.host);
            } else {
                assert forall|j: int| 0 <= j < before.len() implies (#[trigger] after[j]).host
                    != w.host by {
                    assert(after[j] == before[j]);
                }
                assert(watched_at(after, w.host, before.len() as int));
            }
            let i = choose|i: int| watched_at(after, w.host, i);
            assert(watched_at(after, w.host, i));
            assert(after[i].id == x.local);
            assert(stands_for(after, x));
            crate::table::lemma_no_slot::<Local>(old_out, w.id);
            if out[k] != x {
                assert(out[k] == old_out[k]);
            }
        } else {
            assert(out[k] == old_out[k]);
        }
    }
}

/// A host that is watched has a first target that watches it.
proof fn lemma_first_watched(ts: Seq<TargetView>, host: Seq<char>)
    requires
        watched(ts, host),
    ensures
        exists|i: int| watched_at(ts, host, i),
    decreases ts.len(),
{
    let i = choose|i: int| 0 <= i < ts.len() && (#[trigger] ts[i]).host == host;
    if forall|j: int| 0 <= j < i ==> (#[trigger] ts[j]).host != host {
        assert(watched_at(ts, host, i));
    } else {
        let j = choose|j: int| 0 <= j < i && (#[trigger] ts[j]).host == host;
        let t = ts.take(i);
        assert(t[j] == ts[j]);
        lemma_first_watched(t, host);
        let k = choose|k: int| watched_at(t, host, k);
        assert(watched_at(t, host, k));
        assert forall|m: int| 0 <= m < k implies (#[trigger] ts[m]).host != host by {
            assert(t[m] == ts[m]);
        }
        assert(watched_at(ts, host, k));
    }
}

/// Every id that an assignment gives to a host has a target that stands for it.
pub proof fn assigned_ids_are_kept(ts: Seq<TargetView>, list: Seq<Json>, i: int)
    requires
        0 <= i < list.len(),
        wanted(list[i]).host.len() > 0,
    ensures
        fetched::<Local>(merged_locals(ts, list), wanted(list[i]).id) is Some,
    decreases list.len(),
{
    let out = merged_locals(ts, list.drop_last());
    let w = wanted(list.last());
    let id = wanted(list[i]).id;
    if w.host.len() > 0 {
        crate::table::placed_is_fetched::<Local>(out, stand_in(merged_targets(ts, list), w), id);
    }
    if i < list.len() - 1 {
        assigned_ids_are_kept(ts, list.drop_last(), i);
    }
}

/// A target is asked for as it was listed.
pub proof fn listed_is_wanted(t: TargetView, ts: u64)
    ensures
        wanted(listed(t, ts)) == (WantedView {
            id: id_view(t, ts),
            host: t.host,
            tag: t.tag,
            label: t.label,
            interval_ms: t.interval_ms,
        }),
{
    reveal_strlit("id");
    reveal_strlit("host");
    reveal_strlit("tag");
    reveal_strlit("label");
    reveal_strlit("intervalMs");
    assert("id"@.len() == 2 && "host"@.len() == 4 && "tag"@.len() == 3 && "label"@.len() == 5
        && "intervalMs"@.len() == 10);
    let id = id_view(t, ts);
    assert((id as u64) as u32 == id);
}

/// A report names each target as the assignment did, as long as no later target of the
/// assignment has the same id.
pub proof fn reported_ids_are_named(targets: Seq<TargetView>, ts: u64, i: int)
    requires
        0 <= i < targets.len(),
        forall|j: int|
            i < j < targets.len() ==> id_view(#[trigger] targets[j], ts) != id_view(
                targets[i],
                ts,
            ),
    ensures
        fetched::<Assigned>(remembered_all(targets, ts), id_view(targets[i], ts)) == Some(
            remembered(targets[i], ts),
        ),
    decreases targets.len(),
{
    let init = targets.drop_last();
    let out = remembered_all(init, ts);
    crate::table::placed_is_fetched::<Assigned>(
        out,
        remembered(targets.last(), ts),
        id_view(targets[i], ts),
    );
    if i < targets.len() - 1 {
        assert forall|j: int| i < j < init.len() implies id_view(#[trigger] init[j], ts)
            != id_view(init[i], ts) by {
            assert(init[j] == targets[j]);
        }
        assert(targets.last() == targets[targets.len() - 1]);
        reported_ids_are_named(init, ts, i);
    }
}

/// Different assigned ids never share the id of an added target.
pub proof fn added_ids_differ(a: WantedView, b: WantedView)
    requires
        a.id != b.id,
    ensures
        added_for(a).id != added_for(b).id,
{
    let p = "asg-"@;
    let x = hex(a.id as nat, 8);
    let y = hex(b.id as nat, 8);
    if p + x == p + y {
        assert((p + x).skip(p.len() as int) =~= x);
        assert((p + y).skip(p.len() as int) =~= y);
        assert(vstd::arithmetic::power::pow(16, 8) == 0x1_0000_0000) by {
            reveal_with_fuel(vstd::arithmetic::power::pow, 9);
        }
        hex_is_injective(a.id as nat, b.id as nat, 8);
    }
}

/// An entry of an assignment is taken at its word, and what it leaves out, or says in another kind,
/// is id 0, no host, the tag `internet`, the host for a label, and a second for an interval.
pub proof fn entries_are_taken_at_their_word(t: Json)
    ensures
        ({
            let w = wanted(t);
            &&& entry_at(t, "id"@) matches Some(Json::Nat(n)) ==> w.id == n % 0x1_0000_0000
            &&& !(entry_at(t, "id"@) matches Some(x) && x is Nat) ==> w.id == 0
            &&& entry_at(t, "host"@) matches Some(Json::Text(s)) ==> w.host == s
            &&& !(entry_at(t, "host"@) matches Some(x) && x is Text) ==> w.host.len() == 0
            &&& entry_at(t, "tag"@) matches Some(Json::Text(s)) ==> w.tag == s
            &&& !(entry_at(t, "tag"@) matches Some(x) && x is Text) ==> w.tag == "internet"@
            &&& entry_at(t, "label"@) matches Some(Json::Text(s)) ==> w.label == s
            &&& !(entry_at(t, "label"@) matches Some(x) && x is Text) ==> w.label == w.host
            &&& entry_at(t, "intervalMs"@) matches Some(Json::Nat(n)) ==> w.interval_ms == n
            &&& !(entry_at(t, "intervalMs"@) matches Some(x) && x is Nat) ==> w.interval_ms == 1000
        }),
{
    reveal_strlit("");
    assert(""@.len() == 0);
    if let Some(Json::Nat(n)) = entry_at(t, "id"@) {
        assert(n as u32 == n % 0x1_0000_0000) by (bit_vector);
    }
}

/// An assignment lists a target whole: the id that stands for it, its host, its tag, its label and
/// its interval; and what is remembered of it is called the same.
pub proof fn targets_are_listed_whole(t: TargetView, ts: u64)
    ensures
        entry_at(listed(t, ts), "id"@) == Some(Json::Nat(id_view(t, ts) as u64)),
        entry_at(listed(t, ts), "host"@) == Some(Json::Text(t.host)),
        entry_at(listed(t, ts), "tag"@) == Some(Json::Text(t.tag)),
        entry_at(listed(t, ts), "label"@) == Some(Json::Text(t.label)),
        entry_at(listed(t, ts), "intervalMs"@) == Some(Json::Nat(t.interval_ms)),
        remembered(t, ts).id == id_view(t, ts),
        remembered(t, ts).host == t.host,
        remembered(t, ts).tag == t.tag,
        remembered(t, ts).label == t.label,
{
    reveal_strlit("id");
    reveal_strlit("host");
    reveal_strlit("tag");
    reveal_strlit("label");
    reveal_strlit("intervalMs");
    assert("id"@.len() == 2 && "host"@.len() == 4 && "tag"@.len() == 3 && "label"@.len() == 5
        && "intervalMs"@.len() == 10);
}

/// All targets are listed, each in its place.
pub proof fn every_target_is_listed(targets: Seq<TargetView>, ts: u64, i: int)
    requires
        0 <= i < targets.len(),
    ensures
        listed_all(targets, ts).len() == targets.len(),
        entry_at(listed_all(targets, ts)[i], "host"@) == Some(Json::Text(targets[i].host)),
        entry_at(listed_all(targets, ts)[i], "id"@) == Some(
            Json::Nat(id_view(targets[i], ts) as u64),
        ),
        fetched::<Assigned>(remembered_all(targets, ts), id_view(targets[i], ts)) is Some,
    decreases targets.len(),
{
    targets_are_listed_whole(targets[i], ts);
    let init = targets.drop_last();
    crate::table::placed_is_fetched::<Assigned>(
        remembered_all(init, ts),
        remembered(targets.last(), ts),
        id_view(targets[i], ts),
    );
    if i < targets.len() - 1 {
        every_target_is_listed(init, ts, i);
    }
}

/// The id of an assigned target depends on what it probes and when it was assigned, and not on the
/// id that it has on the server.
pub proof fn assigned_ids_do_not_show_local_ids(a: TargetView, b: TargetView, ts: u64)
    requires
        a.host == b.host,
        a.tag == b.tag,
        a.label == b.label,
        a.interval_ms == b.interval_ms,
    ensures
        id_view(a, ts) == id_view(b, ts),
{
}

/// One entry more adds one target behind the others, with the entry's host, tag, label and
/// interval, where it names a host that no target watches yet; otherwise it adds none.
pub proof fn new_hosts_are_added_whole(ts: Seq<TargetView>, list: Seq<Json>, t: Json)
    ensures
        ({
            let before = merged_targets(ts, list);
            let after = merged_targets(ts, list.push(t));
            let w = wanted(t);
            let known = exists|i: int|
                0 <= i < before.len() && (#[trigger] before[i]).host == w.host;
            if w.host.len() == 0 || known {
                after == before
            } else {
                &&& after.len() == before.len() + 1
                &&& after.drop_last() == before
                &&& after.last().host == w.host && after.last().tag == w.tag
                &&& after.last().label == w.label && after.last().interval_ms == w.interval_ms
                &&& after.last().id == "asg-"@ + hex(w.id as nat, 8)
            }
        }),
        merged_targets(ts, Seq::<Json>::empty()) == ts,
{
    assert(list.push(t).drop_last() =~= list);
    let before = merged_targets(ts, list);
    let after = merged_targets(ts, list.push(t));
    if after.len() == before.len() + 1 {
        assert(after.drop_last() =~= before);
    }
}

/// For the id of an entry that names a host stands the first of the client's targets that watches
/// that host, at that target's own cadence, whatever the entry asks for; what stands for other ids
/// stays. An entry without a host changes nothing.
pub proof fn watched_hosts_keep_their_cadence(
    ts: Seq<TargetView>,
    list: Seq<Json>,
    t: Json,
    k: int,
    other: u32,
)
    requires
        0 <= k < merged_targets(ts, list.push(t)).len(),
        merged_targets(ts, list.push(t))[k].host == wanted(t).host,
        forall|j: int|
            0 <= j < k ==> (#[trigger] merged_targets(ts, list.push(t))[j]).host != wanted(t).host,
    ensures
        wanted(t).host.len() > 0 ==> (fetched::<Local>(
            merged_locals(ts, list.push(t)),
            wanted(t).id,
        ) matches Some(l) && l.id == wanted(t).id && l.local == merged_targets(
            ts,
            list.push(t),
        )[k].id && l.interval_ms == merged_targets(ts, list.push(t))[k].interval_ms),
        other != wanted(t).id ==> fetched::<Local>(merged_locals(ts, list.push(t)), other)
            == fetched::<Local>(merged_locals(ts, list), other),
        wanted(t).host.len() == 0 ==> merged_locals(ts, list.push(t)) == merged_locals(ts, list),
        merged_locals(ts, Seq::<Json>::empty()).len() == 0,
{
    let all = list.push(t);
    let w = wanted(t);
    let after = merged_targets(ts, all);
    assert(all.drop_last() =~= list);
    assert(watched_at(after, w.host, k));
    lemma_watched(after, w.host, k);
    crate::table::placed_is_fetched::<Local>(merged_locals(ts, list), stand_in(after, w), other);
}

/// The entries of an assignment are those of its list of targets; it has none where it has no such
/// list.
pub proof fn assignments_list_their_entries(t: Json)
    ensures
        entry_at(t, "targets"@) matches Some(Json::List(l)) ==> entries(t) == l,
        !(entry_at(t, "targets"@) matches Some(x) && x is List) ==> entries(t).len() == 0,
{
}

/// The id of an assigned target is taken from all that an assignment says of it, and from the time:
/// its host, its tag, its interval, its label and the time of the negotiation, each text closed by
/// a byte that no text holds.
pub proof fn ids_are_taken_from_the_whole_target(t: TargetView, ts: u64)
    ensures
        ({
            let w = id_writes(t, ts);
            &&& w.len() == 8
            &&& w[0] == encode_utf8(t.host)
            &&& w[2] == encode_utf8(t.tag)
            &&& w[4] == spec_u64_to_le_bytes(t.interval_ms)
            &&& w[5] == encode_utf8(t.label)
            &&& w[7] == spec_u64_to_le_bytes(ts)
            &&& w[1] == w[3] && w[3] == w[6] && w[1].len() == 1 && w[1][0] == 0xff
            &&& id_view(t, ts) == DefaultHasher::spec_finish(w) % 0x1_0000_0000
        }),
{
    let h = DefaultHasher::spec_finish(id_writes(t, ts));
    assert(h as u32 == h % 0x1_0000_0000) by (bit_vector);
}

} // verus!
