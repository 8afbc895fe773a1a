//! What a node keeps about the others: whom it found, who asks to pair, who is connected.
use crate::assign::{
    assigned_hosts_are_watched, assigned_ids_are_kept, build_assignment, entries, id_view, listed,
    listed_all, listed_is_wanted, merged_locals, merged_targets, or, remembered_all, watched,
    Assigned, AssignedView, Local, LocalView,
};
use crate::discovery::query_line;
use crate::json::{
    alike, as_double, copy, double, entry_at, field, from_list, from_nat, list_at, list_field,
    modest, nat_at, nat_field, null, parsed, plain, put, put_nat, put_text, read_back, text_at,
    tree, trees, with, written, Json,
};
use crate::model::{copy_all, views, NodeInfo, NodeView, Peer, PeerView, Target, TargetView};
use crate::pairing::{assignment_needs_the_secret, carries, read_trusted};
use crate::table::{
    distinct, dropped, dropping_keeps_ids_distinct, fetched, placed, placed_is_fetched, position,
    put_at, putting_keeps_ids_distinct, same_ids_are_distinct, take, Keyed,
};
use crate::wire::{assign_line, assignment, beacon, lemma_modest_with, report, report_line};
use serde_json::Value;
use vstd::prelude::*;

verus! {

/// How often a client reports, in seconds.
pub const REPORT_SECS: u64 = 10;

/// How often a server queries and connects, in seconds.
pub const UPKEEP_SECS: u64 = 60;

// ---- what is kept ----------------------------------------------------------

/// A client that was found: its address has the port on which it takes control connections.
#[derive(Debug)]
pub struct DiscoPeer {
    pub id: String,
    pub name: String,
    pub addr: String,
    pub last_seen: u64,
}

/// What a [`DiscoPeer`] holds.
#[verifier::ext_equal]
pub struct DiscoView {
    pub id: Seq<char>,
    pub name: Seq<char>,
    pub addr: Seq<char>,
    pub last_seen: u64,
}

impl View for DiscoPeer {
    type V = DiscoView;

    open spec fn view(&self) -> DiscoView {
        DiscoView {
            id: self.id@,
            name: self.name@,
            addr: self.addr@,
            last_seen: self.last_seen,
        }
    }
}

impl Keyed for DiscoPeer {
    type Id = str;

    open spec fn key(v: DiscoView) -> Seq<char> {
        v.id
    }

    fn has_key(&self, id: &str) -> (r: bool) {
        self.id.as_str().eq(id)
    }
}

/// An invitation that waits for the user, and where the decision goes.
pub struct Pending<R> {
    pub id: String,
    pub reply: R,
}

/// What a [`Pending`] holds.
pub struct PendingView<R> {
    pub id: Seq<char>,
    pub reply: R,
}

impl<R> View for Pending<R> {
    type V = PendingView<R>;

    open spec fn view(&self) -> PendingView<R> {
        PendingView { id: self.id@, reply: self.reply }
    }
}

impl<R> Keyed for Pending<R> {
    type Id = str;

    open spec fn key(v: PendingView<R>) -> Seq<char> {
        v.id
    }

    fn has_key(&self, id: &str) -> (r: bool) {
        self.id.as_str().eq(id)
    }
}

/// A connection to a client: where its lines go, the secret, and what the client was assigned.
pub struct ServerConn<S> {
    pub id: String,
    pub tx: S,
    pub secret: String,
    pub assign: Vec<Assigned>,
}

/// What a [`ServerConn`] holds.
#[verifier::ext_equal]
pub struct ConnView<S> {
    pub id: Seq<char>,
    pub tx: S,
    pub secret: Seq<char>,
    pub assign: Seq<AssignedView>,
}

impl<S> View for ServerConn<S> {
    type V = ConnView<S>;

    open spec fn view(&self) -> ConnView<S> {
        ConnView { id: self.id@, tx: self.tx, secret: self.secret@, assign: views(self.assign@) }
    }
}

impl<S> Keyed for ServerConn<S> {
    type Id = str;

    open spec fn key(v: ConnView<S>) -> Seq<char> {
        v.id
    }

    fn has_key(&self, id: &str) -> (r: bool) {
        self.id.as_str().eq(id)
    }
}

/// What a node keeps about the others. `R` is where a decision on an invitation goes, `S` where
/// the lines for a client go.
pub struct Net<R, S> {
    /// The port on which this node takes control connections.
    pub ctrl_port: u16,
    /// A server's: the clients that were found.
    pub discovered: Vec<DiscoPeer>,
    /// A client's: the invitations that wait for the user.
    pub pending: Vec<Pending<R>>,
    /// A server's: the connections to clients.
    pub conns: Vec<ServerConn<S>>,
}

/// What a [`Net`] holds.
#[verifier::ext_equal]
pub struct NetView<R, S> {
    pub ctrl_port: u16,
    pub discovered: Seq<DiscoView>,
    pub pending: Seq<PendingView<R>>,
    pub conns: Seq<ConnView<S>>,
}

impl<R, S> View for Net<R, S> {
    type V = NetView<R, S>;

    open spec fn view(&self) -> NetView<R, S> {
        NetView {
            ctrl_port: self.ctrl_port,
            discovered: views(self.discovered@),
            pending: views(self.pending@),
            conns: views(self.conns@),
        }
    }
}

// ---- what is shown and asked -----------------------------------------------

/// A client that was found, as the user is shown it.
pub open spec fn disco_shown(p: DiscoView) -> Json {
    with(
        with(
            with(with(Json::Null, "id"@, Json::Text(p.id)), "name"@, Json::Text(p.name)),
            "addr"@,
            Json::Text(p.addr),
        ),
        "lastSeen"@,
        Json::Nat(p.last_seen),
    )
}

/// The paired clients that are to be connected: those with an address that are not connected
/// yet, in order.
pub open spec fn to_connect<S>(peers: Seq<PeerView>, conns: Seq<ConnView<S>>) -> Seq<PeerView> {
    peers.filter(
        |p: PeerView|
            p.role == "client"@ && p.addr is Some && fetched::<ServerConn<S>>(conns, p.id) is None,
    )
}

/// What a connection is once its client has a new assignment.
pub open spec fn reassigned<S>(c: ConnView<S>, targets: Seq<TargetView>, ts: u64) -> ConnView<S> {
    ConnView { assign: remembered_all(targets, ts), ..c }
}

/// What a client reported of one target, with the names that the server gave it. What the report
/// leaves out is id 0, no round trip, no loss, and a second for an interval; an id that was not
/// assigned has no names.
pub open spec fn enriched(r: Json, assign: Seq<AssignedView>) -> Json {
    let id = or(nat_at(r, "id"@), 0) as u32;
    let names = or(
        fetched::<Assigned>(assign, id),
        AssignedView { id, host: Seq::empty(), tag: Seq::empty(), label: Seq::empty() },
    );
    with(
        with(
            with(
                with(
                    with(
                        with(
                            with(Json::Null, "id"@, Json::Nat(id as u64)),
                            "host"@,
                            Json::Text(names.host),
                        ),
                        "tag"@,
                        Json::Text(names.tag),
                    ),
                    "label"@,
                    Json::Text(names.label),
                ),
                "rttMs"@,
                or(entry_at(r, "rttMs"@), Json::Null),
            ),
            "lossPct"@,
            loss_of(r),
        ),
        "intervalMs"@,
        Json::Nat(or(nat_at(r, "intervalMs"@), 1000)),
    )
}

/// The loss that a client reported, as a double, which a number with a fraction is already; zero
/// where it is no number.
pub open spec fn loss_of(r: Json) -> Json {
    match entry_at(r, "lossPct"@) {
        Some(Json::Real(b)) => Json::Real(b),
        Some(Json::Nat(n)) => as_double(Json::Nat(n)),
        Some(Json::Neg(n)) => as_double(Json::Neg(n)),
        _ => as_double(Json::Nat(0)),
    }
}

/// The results of a report, enriched.
pub open spec fn enriched_all(t: Json, assign: Seq<AssignedView>) -> Seq<Json> {
    let rs = or(list_at(t, "results"@), Seq::empty());
    Seq::new(rs.len(), |i: int| enriched(rs[i], assign))
}

/// A report as the user is shown it.
pub open spec fn report_shown(id: Seq<char>, name: Seq<char>, ts: u64, results: Seq<Json>) -> Json {
    with(
        with(
            with(with(Json::Null, "fromId"@, Json::Text(id)), "fromName"@, Json::Text(name)),
            "ts"@,
            Json::Nat(ts),
        ),
        "results"@,
        Json::List(results),
    )
}

/// The loss that a client reported.
fn read_loss(r: &Value) -> (v: Value)
    ensures
        tree(v) == loss_of(tree(*r)),
{
    match field(r, "lossPct") {
        Some(x) => match double(x) {
            Some(d) => return d,
            None => {},
        },
        None => {},
    }
    let zero = from_nat(0);
    match double(&zero) {
        Some(d) => d,
        None => zero,
    }
}

/// Enriches one result.
pub fn enrich(r: &Value, assign: &Vec<Assigned>) -> (v: Value)
    ensures
        tree(v) == enriched(tree(*r), views(assign@)),
{
    let id: u32 = (match nat_field(r, "id") {
        Some(n) => n,
        None => 0,
    }) as u32;
    let names = match position(assign, &id) {
        Some(i) => assign[i].clone(),
        None => Assigned { id, host: String::new(), tag: String::new(), label: String::new() },
    };
    let rtt = match field(r, "rttMs") {
        Some(x) => copy(x),
        None => null(),
    };
    let interval: u64 = match nat_field(r, "intervalMs") {
        Some(n) => n,
        None => 1000,
    };
    let mut v = null();
    put_nat(&mut v, "id", id as u64);
    put_text(&mut v, "host", names.host.as_str());
    put_text(&mut v, "tag", names.tag.as_str());
    put_text(&mut v, "label", names.label.as_str());
    put(&mut v, "rttMs", rtt);
    put(&mut v, "lossPct", read_loss(r));
    put_nat(&mut v, "intervalMs", interval);
    v
}

/// A report as the user is shown it.
pub fn show_report(
    id: &str,
    name: &str,
    v: &Value,
    assign: &Vec<Assigned>,
    ts: u64,
) -> (r: Value)
    ensures
        tree(r) == report_shown(id@, name@, ts, enriched_all(tree(*v), views(assign@))),
{
    let mut results: Vec<Value> = Vec::new();
    let ghost all = enriched_all(tree(*v), views(assign@));
    match list_field(v, "results") {
        Some(list) => {
            for i in 0..list.len()
                invariant
                    all == enriched_all(tree(*v), views(assign@)),
                    list_at(tree(*v), "results"@) == Some(trees(list@)),
                    i <= list@.len(),
                    results@.len() == i,
                    forall|j: int| 0 <= j < i ==> tree(#[trigger] results@[j]) == all[j],
            {
                let e = enrich(&list[i], assign);
                results.push(e);
            }
        },
        None => {},
    }
    assert(trees(results@) =~= all);
    let mut out = null();
    put_text(&mut out, "fromId", id);
    put_text(&mut out, "fromName", name);
    put_nat(&mut out, "ts", ts);
    put(&mut out, "results", from_list(results));
    out
}

// ---- the node --------------------------------------------------------------

impl<R, S> Net<R, S> {
    /// A node that knows nobody.
    pub fn new() -> (r: Self)
        ensures
            r@ == (NetView::<R, S> {
                ctrl_port: 0,
                discovered: Seq::empty(),
                pending: Seq::empty(),
                conns: Seq::empty(),
            }),
            one_of_each(r@),
    {
        let r = Net {
            ctrl_port: 0,
            discovered: Vec::new(),
            pending: Vec::new(),
            conns: Vec::new(),
        };
        assert(r@.discovered =~= Seq::empty());
        assert(r@.pending =~= Seq::empty());
        assert(r@.conns =~= Seq::empty());
        r
    }

    /// Takes control connections on this port from now on.
    pub fn start(&mut self, port: u16)
        ensures
            final(self)@ == (NetView { ctrl_port: port, ..old(self)@ }),
            one_of_each(old(self)@) ==> one_of_each(final(self)@),
    {
        self.ctrl_port = port;
    }

    /// The query that is due on every round of upkeep: a server's, and nobody else's.
    pub fn upkeep(&self, node: &NodeInfo) -> (r: Option<String>)
        ensures
            r is Some <==> node@.mode == "server"@,
            r matches Some(line) ==> line@ == written(beacon("q"@, node@, self@.ctrl_port))
                && parsed(line@) == Some(beacon("q"@, node@, self@.ctrl_port)),
    {
        if node.mode.as_str().eq("server") {
            Some(query_line(node, self.ctrl_port))
        } else {
            None
        }
    }

    /// The query that is due when the user asks for one.
    pub fn discover_now(&self, node: &NodeInfo, udp_send: bool) -> (r: Option<String>)
        ensures
            r is Some <==> udp_send,
            r matches Some(line) ==> line@ == written(beacon("q"@, node@, self@.ctrl_port))
                && parsed(line@) == Some(beacon("q"@, node@, self@.ctrl_port)),
    {
        if udp_send {
            Some(query_line(node, self.ctrl_port))
        } else {
            None
        }
    }

    /// Remembers a client that was found; one that was found before is seen anew.
    pub fn found(&mut self, id: String, name: String, addr: String, now: u64)
        ensures
            final(self)@ == (NetView {
                discovered: placed::<DiscoPeer>(
                    old(self)@.discovered,
                    DiscoView { id: id@, name: name@, addr: addr@, last_seen: now },
                ),
                ..old(self)@
            }),
            fetched::<DiscoPeer>(final(self)@.discovered, id@) == Some(
                DiscoView { id: id@, name: name@, addr: addr@, last_seen: now },
            ),
            one_of_each(old(self)@) ==> one_of_each(final(self)@),
    {
        proof {
            placed_is_fetched::<DiscoPeer>(
                old(self)@.discovered,
                DiscoView { id: id@, name: name@, addr: addr@, last_seen: now },
                id@,
            );
            if one_of_each(old(self)@) {
                putting_keeps_ids_distinct::<DiscoPeer>(
                    old(self)@.discovered,
                    DiscoView { id: id@, name: name@, addr: addr@, last_seen: now },
                );
            }
        }
        let at = position(&self.discovered, id.as_str());
        put_at(&mut self.discovered, at, DiscoPeer { id, name, addr, last_seen: now });
    }

    /// The clients that were found, as the user is shown them.
    pub fn discovered_list(&self) -> (r: Vec<Value>)
        ensures
            trees(r@) == Seq::new(
                self@.discovered.len(),
                |i: int| disco_shown(self@.discovered[i]),
            ),
    {
        let mut r: Vec<Value> = Vec::new();
        for i in 0..self.discovered.len()
            invariant
                i <= self.discovered@.len(),
                r@.len() == i,
                forall|j: int|
                    0 <= j < i ==> tree(#[trigger] r@[j]) == disco_shown(self.discovered@[j]@),
        {
            let p = &self.discovered[i];
            let mut v = null();
            put_text(&mut v, "id", p.id.as_str());
            put_text(&mut v, "name", p.name.as_str());
            put_text(&mut v, "addr", p.addr.as_str());
            put_nat(&mut v, "lastSeen", p.last_seen);
            r.push(v);
        }
        assert(trees(r@) =~= Seq::new(
            self@.discovered.len(),
            |i: int| disco_shown(self@.discovered[i]),
        ));
        r
    }

    /// The address to connect to for an invitation: there is one where the client was found.
    pub fn invite(&self, peer_id: &str) -> (r: Option<String>)
        ensures
            match fetched::<DiscoPeer>(self@.discovered, peer_id@) {
                Some(p) => r matches Some(a) && a@ == p.addr,
                None => r is None,
            },
    {
        match position(&self.discovered, peer_id) {
            Some(i) => Some(self.discovered[i].addr.clone()),
            None => None,
        }
    }

    /// The paired clients that are to be connected.
    pub fn connect_paired_clients(&self, peers: &Vec<Peer>) -> (r: Vec<Peer>)
        ensures
            views(r@) == to_connect(views(peers@), self@.conns),
    {
        let mut r: Vec<Peer> = Vec::new();
        let ghost all = views(peers@);
        let ghost conns = self@.conns;
        proof {
            reveal(Seq::filter);
            assert(views(r@) =~= to_connect(all.take(0), conns));
        }
        for i in 0..peers.len()
            invariant
                all == views(peers@),
                conns == self@.conns,
                i <= peers@.len(),
                views(r@) == to_connect(all.take(i as int), conns),
        {
            let p = &peers[i];
            proof {
                reveal(Seq::filter);
                assert(all.take(i + 1).drop_last() =~= all.take(i as int));
                assert(all.take(i + 1).last() == p@);
            }
            let ghost before = r@;
            if p.role.as_str().eq("client") && p.addr.is_some() && position(
                &self.conns,
                p.id.as_str(),
            ).is_none() {
                let c = p.clone();
                r.push(c);
                assert(views(r@) =~= views(before).push(c@));
            }
        }
        assert(all.take(peers@.len() as int) =~= all);
        r
    }

    /// Registers a connection and returns the client's first assignment. A connection that the
    /// client had before is replaced.
    pub fn connected(
        &mut self,
        id: String,
        secret: String,
        tx: S,
        targets: &Vec<Target>,
        ts: u64,
    ) -> (r: String)
        ensures
            final(self)@ == (NetView {
                conns: placed::<ServerConn<S>>(
                    old(self)@.conns,
                    ConnView {
                        id: id@,
                        tx,
                        secret: secret@,
                        assign: remembered_all(views(targets@), ts),
                    },
                ),
                ..old(self)@
            }),
            fetched::<ServerConn<S>>(final(self)@.conns, id@) == Some(
                ConnView {
                    id: id@,
                    tx,
                    secret: secret@,
                    assign: remembered_all(views(targets@), ts),
                },
            ),
            r@ == written(assignment(secret@, listed_all(views(targets@), ts))),
            parsed(r@) == Some(assignment(secret@, listed_all(views(targets@), ts))),
            one_of_each(old(self)@) ==> one_of_each(final(self)@),
    {
        proof {
            placed_is_fetched::<ServerConn<S>>(
                old(self)@.conns,
                ConnView {
                    id: id@,
                    tx,
                    secret: secret@,
                    assign: remembered_all(views(targets@), ts),
                },
                id@,
            );
            if one_of_each(old(self)@) {
                putting_keeps_ids_distinct::<ServerConn<S>>(
                    old(self)@.conns,
                    ConnView {
                        id: id@,
                        tx,
                        secret: secret@,
                        assign: remembered_all(views(targets@), ts),
                    },
                );
            }
        }
        let (list, assign) = build_assignment(targets, ts);
        let line = assign_line(secret.as_str(), list);
        let at = position(&self.conns, id.as_str());
        put_at(&mut self.conns, at, ServerConn { id, tx, secret, assign });
        line
    }

    /// Forgets a connection.
    pub fn disconnected(&mut self, id: &str)
        ensures
            final(self)@ == (NetView {
                conns: dropped::<ServerConn<S>>(old(self)@.conns, id@),
                ..old(self)@
            }),
            one_of_each(old(self)@) ==> one_of_each(final(self)@) && fetched::<ServerConn<S>>(
                final(self)@.conns,
                id@,
            ) is None,
    {
        proof {
            if one_of_each(old(self)@) {
                dropping_keeps_ids_distinct::<ServerConn<S>>(old(self)@.conns, id@);
            }
        }
        let _ = take(&mut self.conns, id);
    }

    /// Assigns the targets anew to every client that is connected; returns the line for each, in
    /// the order of the connections.
    pub fn reassign_all(&mut self, targets: &Vec<Target>, ts: u64) -> (r: Vec<String>)
        ensures
            final(self)@ == (NetView {
                conns: Seq::new(
                    old(self)@.conns.len(),
                    |i: int| reassigned(old(self)@.conns[i], views(targets@), ts),
                ),
                ..old(self)@
            }),
            r@.len() == old(self)@.conns.len(),
            forall|i: int|
                #![trigger r@[i]]
                0 <= i < r@.len() ==> r@[i]@ == written(
                    assignment(old(self)@.conns[i].secret, listed_all(views(targets@), ts)),
                ) && parsed(r@[i]@) == Some(
                    assignment(old(self)@.conns[i].secret, listed_all(views(targets@), ts)),
                ),
            one_of_each(old(self)@) ==> one_of_each(final(self)@),
    {
        let ghost before = self@;
        let ghost ts_view = views(targets@);
        let (list, assign) = build_assignment(targets, ts);
        let mut lines: Vec<String> = Vec::new();
        let n: usize = self.conns.len();
        for i in 0..n
            invariant
                n == self.conns@.len(),
                self@.ctrl_port == before.ctrl_port,
                self@.discovered == before.discovered,
                self@.pending == before.pending,
                self.conns@.len() == before.conns.len(),
                i <= self.conns@.len(),
                lines@.len() == i,
                trees(list@) == listed_all(ts_view, ts),
                forall|k: int| 0 <= k < list@.len() ==> plain(tree(#[trigger] list@[k]), 1),
                views(assign@) == remembered_all(ts_view, ts),
                forall|j: int|
                    0 <= j < i ==> (#[trigger] self.conns@[j])@ == reassigned(
                        before.conns[j],
                        ts_view,
                        ts,
                    ),
                forall|j: int|
                    i <= j < self.conns@.len() ==> (#[trigger] self.conns@[j])@ == before.conns[j],
                forall|j: int|
                    #![trigger lines@[j]]
                    0 <= j < i ==> lines@[j]@ == written(
                        assignment(before.conns[j].secret, listed_all(ts_view, ts)),
                    ) && parsed(lines@[j]@) == Some(
                        assignment(before.conns[j].secret, listed_all(ts_view, ts)),
                    ),
        {
            let copied = copy_values(&list);
            let line = assign_line(self.conns[i].secret.as_str(), copied);
            lines.push(line);
            let fresh = copy_all(&assign);
            reassign(&mut self.conns, i, fresh);
        }
        proof {
            assert(self@.conns =~= Seq::new(
                before.conns.len(),
                |i: int| reassigned(before.conns[i], ts_view, ts),
            ));
            if one_of_each(before) {
                lemma_reassigned_distinct(before.conns, ts_view, ts);
            }
        }
        lines
    }

    /// Shows a client's report, where the client is connected.
    pub fn on_report(&self, client_id: &str, client_name: &str, v: &Value, ts: u64) -> (r: Option<
        Value,
    >)
        ensures
            match fetched::<ServerConn<S>>(self@.conns, client_id@) {
                Some(c) => r matches Some(e) && tree(e) == report_shown(
                    client_id@,
                    client_name@,
                    ts,
                    enriched_all(tree(*v), c.assign),
                ),
                None => r is None,
            },
    {
        match position(&self.conns, client_id) {
            Some(i) => Some(show_report(client_id, client_name, v, &self.conns[i].assign, ts)),
            None => None,
        }
    }

    /// Takes a line from a connected client. A report that carries the secret is shown; anything
    /// else is passed over.
    pub fn on_client_line(
        &self,
        client_id: &str,
        client_name: &str,
        secret: &str,
        line: &str,
        ts: u64,
    ) -> (r: Option<Value>)
        ensures
            match (parsed(line@), fetched::<ServerConn<S>>(self@.conns, client_id@)) {
                (Some(t), Some(c)) => if carries(t, "report"@, secret@) {
                    r matches Some(e) && tree(e) == report_shown(
                        client_id@,
                        client_name@,
                        ts,
                        enriched_all(t, c.assign),
                    )
                } else {
                    r is None
                },
                _ => r is None,
            },
    {
        match read_trusted(line, "report", secret) {
            Some(v) => self.on_report(client_id, client_name, &v, ts),
            None => None,
        }
    }

    /// Lets an invitation wait for the user; one that the same server sent before is given up.
    pub fn ask(&mut self, id: String, reply: R)
        ensures
            final(self)@ == (NetView {
                pending: placed::<Pending<R>>(
                    old(self)@.pending,
                    PendingView { id: id@, reply },
                ),
                ..old(self)@
            }),
            fetched::<Pending<R>>(final(self)@.pending, id@) == Some(
                PendingView { id: id@, reply },
            ),
            one_of_each(old(self)@) ==> one_of_each(final(self)@),
    {
        proof {
            placed_is_fetched::<Pending<R>>(
                old(self)@.pending,
                PendingView { id: id@, reply },
                id@,
            );
            if one_of_each(old(self)@) {
                putting_keeps_ids_distinct::<Pending<R>>(
                    old(self)@.pending,
                    PendingView { id: id@, reply },
                );
            }
        }
        let at = position(&self.pending, id.as_str());
        put_at(&mut self.pending, at, Pending { id, reply });
    }

    /// Takes an invitation off the list; returns where the decision goes, if it was still there.
    pub fn respond_invite(&mut self, server_id: &str) -> (r: Option<R>)
        ensures
            final(self)@ == (NetView {
                pending: dropped::<Pending<R>>(old(self)@.pending, server_id@),
                ..old(self)@
            }),
            match fetched::<Pending<R>>(old(self)@.pending, server_id@) {
                Some(p) => r == Some(p.reply),
                None => r is None,
            },
            one_of_each(old(self)@) ==> one_of_each(final(self)@) && fetched::<Pending<R>>(
                final(self)@.pending,
                server_id@,
            ) is None,
    {
        proof {
            if one_of_each(old(self)@) {
                dropping_keeps_ids_distinct::<Pending<R>>(old(self)@.pending, server_id@);
            }
        }
        match take(&mut self.pending, server_id) {
            Some(p) => Some(p.reply),
            None => None,
        }
    }
}

// ---- a client's reports ----------------------------------------------------

/// What was measured of a target since the last report: the mean round trip in milliseconds, or
/// null, and the share of lost probes in percent.
pub struct Measured {
    pub rtt: Value,
    pub loss: Value,
}

/// What a report says of one assigned id.
pub open spec fn row(l: LocalView, rtt: Json, loss: Json) -> Json {
    with(
        with(
            with(with(Json::Null, "id"@, Json::Nat(l.id as u64)), "rttMs"@, rtt),
            "lossPct"@,
            loss,
        ),
        "intervalMs"@,
        Json::Nat(l.interval_ms),
    )
}

/// What a report says of all assigned ids.
pub open spec fn rows(ls: Seq<LocalView>, ms: Seq<Measured>) -> Seq<Json> {
    Seq::new(ls.len(), |i: int| row(ls[i], tree(ms[i].rtt), tree(ms[i].loss)))
}

/// What was measured is no list and no object, and well inside the range of doubles.
pub open spec fn is_measure(t: Json) -> bool {
    modest(t, 0)
}

/// The span that a report covers: the last ten seconds.
pub fn report_window(now: u64) -> (r: (u64, u64))
    ensures
        r.1 == now,
        r.0 == if now < 1000 * REPORT_SECS {
            0
        } else {
            now - 1000 * REPORT_SECS
        },
        r.0 <= r.1 <= r.0 + 10_000,
        now >= 10_000 ==> r.1 - r.0 == 10_000,
{
    let span: u64 = REPORT_SECS * 1000;
    let from: u64 = if now < span {
        0
    } else {
        now - span
    };
    (from, now)
}

/// What a report says of one assigned id.
fn one_row(l: &Local, m: Measured) -> (r: Value)
    ensures
        tree(r) == row(l@, tree(m.rtt), tree(m.loss)),
        is_measure(tree(m.rtt)) && is_measure(tree(m.loss)) ==> modest(tree(r), 1),
{
    let mut v = null();
    put_nat(&mut v, "id", l.id as u64);
    let ghost a = tree(v);
    put(&mut v, "rttMs", m.rtt);
    let ghost b = tree(v);
    put(&mut v, "lossPct", m.loss);
    let ghost c = tree(v);
    put_nat(&mut v, "intervalMs", l.interval_ms);
    proof {
        if is_measure(tree(m.rtt)) && is_measure(tree(m.loss)) {
            lemma_modest_with(Json::Null, "id"@, Json::Nat(l.id as u64), 1);
            lemma_modest_with(a, "rttMs"@, tree(m.rtt), 1);
            lemma_modest_with(b, "lossPct"@, tree(m.loss), 1);
            lemma_modest_with(c, "intervalMs"@, Json::Nat(l.interval_ms), 1);
        }
    }
    v
}

/// The report that is due: none as long as nothing is assigned. `measured` follows the order of
/// `assigned`.
pub fn build_report(
    secret: &str,
    node: &NodeInfo,
    assigned: &Vec<Local>,
    measured: Vec<Measured>,
) -> (r: Option<String>)
    requires
        measured@.len() == assigned@.len(),
    ensures
        r is Some <==> assigned@.len() > 0,
        r matches Some(line) ==> {
            let t = report(secret@, node@, rows(views(assigned@), measured@));
            &&& line@ == written(t)
            &&& (forall|i: int|
                0 <= i < measured@.len() ==> is_measure(tree((#[trigger] measured@[i]).rtt))
                    && is_measure(tree(measured@[i].loss))) ==> read_back(t, parsed(line@))
        },
{
    if assigned.len() == 0 {
        return None;
    }
    let ghost ms = measured@;
    let ghost ls = views(assigned@);
    let ghost sound = forall|i: int|
        0 <= i < ms.len() ==> is_measure(tree((#[trigger] ms[i]).rtt)) && is_measure(
            tree(ms[i].loss),
        );
    let mut rest = measured;
    let mut out: Vec<Value> = Vec::new();
    let n: usize = assigned.len();
    for i in 0..n
        invariant
            n == assigned@.len(),
            n == ms.len(),
            ls == views(assigned@),
            rest@ == ms.skip(i as int),
            out@.len() == i,
            sound == (forall|i: int|
                0 <= i < ms.len() ==> is_measure(tree((#[trigger] ms[i]).rtt)) && is_measure(
                    tree(ms[i].loss),
                )),
            forall|j: int|
                0 <= j < i ==> tree(#[trigger] out@[j]) == row(
                    ls[j],
                    tree(ms[j].rtt),
                    tree(ms[j].loss),
                ) && (sound ==> modest(tree(out@[j]), 1)),
    {
        let m = rest.remove(0);
        assert(m == ms[i as int]);
        assert(rest@ =~= ms.skip(i + 1));
        let v = one_row(&assigned[i], m);
        out.push(v);
    }
    assert(trees(out@) =~= rows(ls, ms));
    Some(report_line(secret, node, out))
}

/// Copies a list of values.
fn copy_values(list: &Vec<Value>) -> (r: Vec<Value>)
    ensures
        trees(r@) == trees(list@),
        r@.len() == list@.len(),
        (forall|k: int| 0 <= k < list@.len() ==> plain(tree(#[trigger] list@[k]), 1)) ==> (forall|
            k: int,
        | 0 <= k < r@.len() ==> plain(tree(#[trigger] r@[k]), 1)),
{
    let mut r: Vec<Value> = Vec::new();
    for i in 0..list.len()
        invariant
            i <= list@.len(),
            r@.len() == i,
            forall|j: int| 0 <= j < i ==> tree(#[trigger] r@[j]) == tree(list@[j]),
    {
        r.push(copy(&list[i]));
    }
    assert(trees(r@) =~= trees(list@));
    r
}

/// Gives one connection a new assignment.
fn reassign<S>(conns: &mut Vec<ServerConn<S>>, i: usize, assign: Vec<Assigned>)
    requires
        i < old(conns)@.len(),
    ensures
        final(conns)@.len() == old(conns)@.len(),
        final(conns)@[i as int]@ == (ConnView {
            assign: views(assign@),
            ..old(conns)@[i as int]@
        }),
        forall|j: int|
            0 <= j < old(conns)@.len() && j != i ==> #[trigger] final(conns)@[j] == old(conns)@[j],
{
    conns[i].assign = assign;
}

// ---- laws ------------------------------------------------------------------

/// Every target that a server assigns, and that names a host, is watched by the client that takes
/// the assignment with the secret agreed between the two.
pub proof fn assigned_targets_are_watched(
    server: Seq<TargetView>,
    ts: u64,
    secret: Seq<char>,
    client: Seq<TargetView>,
    i: int,
)
    requires
        0 <= i < server.len(),
        server[i].host.len() > 0,
    ensures
        carries(assignment(secret, listed_all(server, ts)), "assign"@, secret),
        watched(
            merged_targets(client, entries(assignment(secret, listed_all(server, ts)))),
            server[i].host,
        ),
        fetched::<Local>(
            merged_locals(client, entries(assignment(secret, listed_all(server, ts)))),
            id_view(server[i], ts),
        ) is Some,
{
    let list = listed_all(server, ts);
    assignment_needs_the_secret(secret, secret, list);
    listed_is_wanted(server[i], ts);
    assert(list[i] == listed(server[i], ts));
    assigned_hosts_are_watched(client, list, i);
    assigned_ids_are_kept(client, list, i);
}

/// The entries of a report are told apart.
proof fn lemma_report_keys()
    ensures
        "t"@ != "secret"@,
        "t"@ != "id"@,
        "t"@ != "name"@,
        "t"@ != "results"@,
        "secret"@ != "id"@,
        "secret"@ != "name"@,
        "secret"@ != "results"@,
        "id"@ != "rttMs"@,
        "id"@ != "lossPct"@,
        "id"@ != "intervalMs"@,
        "rttMs"@ != "lossPct"@,
        "rttMs"@ != "intervalMs"@,
        "lossPct"@ != "intervalMs"@,
        "id"@ != "host"@,
        "id"@ != "tag"@,
        "id"@ != "label"@,
        "host"@ != "tag"@,
        "host"@ != "label"@,
        "host"@ != "rttMs"@,
        "host"@ != "lossPct"@,
        "host"@ != "intervalMs"@,
        "tag"@ != "label"@,
        "tag"@ != "rttMs"@,
        "tag"@ != "lossPct"@,
        "tag"@ != "intervalMs"@,
        "label"@ != "rttMs"@,
        "label"@ != "lossPct"@,
        "label"@ != "intervalMs"@,
{
    reveal_strlit("t");
    reveal_strlit("secret");
    reveal_strlit("id");
    reveal_strlit("name");
    reveal_strlit("results");
    reveal_strlit("rttMs");
    reveal_strlit("lossPct");
    reveal_strlit("intervalMs");
    reveal_strlit("host");
    reveal_strlit("tag");
    reveal_strlit("label");
    assert("t"@.len() == 1 && "secret"@.len() == 6 && "id"@.len() == 2 && "name"@.len() == 4
        && "results"@.len() == 7);
    assert("rttMs"@.len() == 5 && "lossPct"@.len() == 7 && "intervalMs"@.len() == 10
        && "host"@.len() == 4 && "tag"@.len() == 3 && "label"@.len() == 5);
    assert("rttMs"@[0] != "label"@[0]);
}

/// What a server shows of a row that is alike to the one that a client wrote.
proof fn lemma_row_shown(l: LocalView, rtt: Json, loss: Json, u: Json, assign: Seq<AssignedView>)
    requires
        alike(row(l, rtt, loss), u, 62),
        fetched::<Assigned>(assign, l.id) is Some,
    ensures
        nat_at(enriched(u, assign), "id"@) == Some(l.id as u64),
        nat_at(enriched(u, assign), "intervalMs"@) == Some(l.interval_ms),
        text_at(enriched(u, assign), "host"@) == Some(
            fetched::<Assigned>(assign, l.id)->0.host,
        ),
        text_at(enriched(u, assign), "tag"@) == Some(fetched::<Assigned>(assign, l.id)->0.tag),
        text_at(enriched(u, assign), "label"@) == Some(
            fetched::<Assigned>(assign, l.id)->0.label,
        ),
        entry_at(enriched(u, assign), "rttMs"@) matches Some(x) && alike(rtt, x, 61),
        entry_at(enriched(u, assign), "lossPct"@) == Some(loss_of(u)),
        entry_at(u, "lossPct"@) matches Some(x) && alike(loss, x, 61),
{
    lemma_report_keys();
    let m = row(l, rtt, loss)->Object_0;
    let n = u->Object_0;
    assert(m.dom().contains("id"@) && m.dom().contains("rttMs"@) && m.dom().contains("intervalMs"@)
        && m.dom().contains("lossPct"@));
    assert(alike(m["id"@], n["id"@], 61));
    assert(alike(m["rttMs"@], n["rttMs"@], 61));
    assert(alike(m["lossPct"@], n["lossPct"@], 61));
    assert(alike(m["intervalMs"@], n["intervalMs"@], 61));
    assert((l.id as u64) as u32 == l.id);
    assert(nat_at(u, "id"@) == Some(l.id as u64));
    assert(nat_at(u, "intervalMs"@) == Some(l.interval_ms));
}

/// What a server shows of any row that a client sends: each entry as the row has it, and where the
/// row leaves it out, or it is of another kind, id 0, no round trip, no loss and a second for an
/// interval; the names are those of the assigned id, or empty. A loss with a fraction is shown as
/// it is, an integer as the double that it is.
pub proof fn shown_results_say_what_was_reported(r: Json, assign: Seq<AssignedView>)
    ensures
        ({
            let shown = enriched(r, assign);
            let id = (match entry_at(r, "id"@) {
                Some(Json::Nat(n)) => n,
                _ => 0,
            }) as u32;
            &&& entry_at(shown, "id"@) == Some(Json::Nat(id as u64))
            &&& fetched::<Assigned>(assign, id) matches Some(a) ==> {
                &&& entry_at(shown, "host"@) == Some(Json::Text(a.host))
                &&& entry_at(shown, "tag"@) == Some(Json::Text(a.tag))
                &&& entry_at(shown, "label"@) == Some(Json::Text(a.label))
            }
            &&& fetched::<Assigned>(assign, id) is None ==> {
                &&& text_at(shown, "host"@) matches Some(s) && s.len() == 0
                &&& text_at(shown, "tag"@) matches Some(s) && s.len() == 0
                &&& text_at(shown, "label"@) matches Some(s) && s.len() == 0
            }
            &&& entry_at(r, "rttMs"@) matches Some(x) ==> entry_at(shown, "rttMs"@) == Some(x)
            &&& entry_at(r, "rttMs"@) is None ==> entry_at(shown, "rttMs"@) == Some(Json::Null)
            &&& entry_at(r, "lossPct"@) matches Some(Json::Real(b)) ==> entry_at(shown, "lossPct"@)
                == Some(Json::Real(b))
            &&& entry_at(r, "lossPct"@) matches Some(Json::Nat(n)) ==> entry_at(shown, "lossPct"@)
                == Some(as_double(Json::Nat(n)))
            &&& entry_at(r, "lossPct"@) matches Some(Json::Neg(n)) ==> entry_at(shown, "lossPct"@)
                == Some(as_double(Json::Neg(n)))
            &&& !(entry_at(r, "lossPct"@) matches Some(x) && (x is Nat || x is Neg || x is Real))
                ==> entry_at(shown, "lossPct"@) == Some(as_double(Json::Nat(0)))
            &&& entry_at(r, "intervalMs"@) matches Some(Json::Nat(n)) ==> entry_at(
                shown,
                "intervalMs"@,
            ) == Some(Json::Nat(n))
            &&& !(entry_at(r, "intervalMs"@) matches Some(x) && x is Nat) ==> entry_at(
                shown,
                "intervalMs"@,
            ) == Some(Json::Nat(1000))
        }),
{
    lemma_report_keys();
}

/// What a client reports of the ids that it was assigned is shown by the server under the names
/// that it gave them: as many results as there are ids, each with its id, its names, its interval,
/// its round trip and its loss. A loss that was measured as an integer is shown as that integer's
/// double; one with a fraction is shown as the number that was read, digit for digit.
pub proof fn reports_are_shown_with_names(
    secret: Seq<char>,
    node: NodeView,
    ls: Seq<LocalView>,
    ms: Seq<Measured>,
    u: Json,
    assign: Seq<AssignedView>,
    i: int,
)
    requires
        ls.len() == ms.len(),
        read_back(report(secret, node, rows(ls, ms)), Some(u)),
        0 <= i < ls.len(),
        fetched::<Assigned>(assign, ls[i].id) is Some,
    ensures
        carries(u, "report"@, secret),
        enriched_all(u, assign).len() == ls.len(),
        ({
            let shown = enriched_all(u, assign)[i];
            let names = fetched::<Assigned>(assign, ls[i].id)->0;
            &&& nat_at(shown, "id"@) == Some(ls[i].id as u64)
            &&& nat_at(shown, "intervalMs"@) == Some(ls[i].interval_ms)
            &&& text_at(shown, "host"@) == Some(names.host)
            &&& text_at(shown, "tag"@) == Some(names.tag)
            &&& text_at(shown, "label"@) == Some(names.label)
            &&& entry_at(shown, "rttMs"@) matches Some(x)
            &&& alike(tree(ms[i].rtt), x, 61)
            &&& entry_at(shown, "lossPct"@) == Some(loss_of(list_at(u, "results"@)->0[i]))
            &&& entry_at(list_at(u, "results"@)->0[i], "lossPct"@) matches Some(y)
            &&& alike(tree(ms[i].loss), y, 61)
            &&& tree(ms[i].loss) is Real ==> y is Real && entry_at(shown, "lossPct"@) == Some(y)
            &&& tree(ms[i].loss) matches Json::Nat(n) ==> entry_at(shown, "lossPct"@) == Some(
                as_double(Json::Nat(n)),
            )
            &&& tree(ms[i].loss) matches Json::Neg(n) ==> entry_at(shown, "lossPct"@) == Some(
                as_double(Json::Neg(n)),
            )
        }),
{
    lemma_report_keys();
    let t = report(secret, node, rows(ls, ms));
    let m = t->Object_0;
    let n = u->Object_0;
    assert(m.dom().contains("t"@) && m.dom().contains("secret"@) && m.dom().contains("results"@));
    assert(alike(m["t"@], n["t"@], 63));
    assert(alike(m["secret"@], n["secret"@], 63));
    assert(alike(m["results"@], n["results"@], 63));
    let rs = n["results"@]->List_0;
    assert(alike(rows(ls, ms)[i], rs[i], 62));
    lemma_row_shown(ls[i], tree(ms[i].rtt), tree(ms[i].loss), rs[i], assign);
    assert(enriched_all(u, assign)[i] == enriched(rs[i], assign));
}

/// A report is passed over unless it carries the secret.
pub proof fn report_needs_the_secret(
    sent: Seq<char>,
    held: Seq<char>,
    node: NodeView,
    results: Seq<Json>,
)
    ensures
        carries(report(sent, node, results), "report"@, held) <==> sent == held,
{
    lemma_report_keys();
}

/// A client that is connected is not connected again, nor is one without an address, nor a
/// server; every other paired client is.
pub proof fn connected_clients_are_left_alone<S>(
    peers: Seq<PeerView>,
    conns: Seq<ConnView<S>>,
    p: PeerView,
)
    ensures
        to_connect(peers, conns).contains(p) <==> peers.contains(p) && p.role == "client"@
            && p.addr is Some && fetched::<ServerConn<S>>(conns, p.id) is None,
{
    broadcast use vstd::seq_lib::group_filter_ensures;

    let pred = |p: PeerView|
        p.role == "client"@ && p.addr is Some && fetched::<ServerConn<S>>(conns, p.id) is None;
    let out = to_connect(peers, conns);
    assert(out == peers.filter(pred));
    if out.contains(p) {
        let k = choose|k: int| 0 <= k < out.len() && out[k] == p;
        assert(pred(out[k]));
        peers.lemma_filter_contains_rev(pred, p);
    }
    if peers.contains(p) && pred(p) {
        assert(out.contains(p));
    }
}

/// Each client is found, asks and is connected at most once.
pub open spec fn one_of_each<R, S>(n: NetView<R, S>) -> bool {
    &&& distinct::<DiscoPeer>(n.discovered)
    &&& distinct::<Pending<R>>(n.pending)
    &&& distinct::<ServerConn<S>>(n.conns)
}

/// New assignments leave the connections' ids as they are.
proof fn lemma_reassigned_distinct<S>(conns: Seq<ConnView<S>>, targets: Seq<TargetView>, ts: u64)
    requires
        distinct::<ServerConn<S>>(conns),
    ensures
        distinct::<ServerConn<S>>(
            Seq::new(conns.len(), |i: int| reassigned(conns[i], targets, ts)),
        ),
{
    let again = Seq::new(conns.len(), |i: int| reassigned(conns[i], targets, ts));
    same_ids_are_distinct::<ServerConn<S>>(conns, again);
}

/// Whatever is found, asked, decided, connected, assigned or dropped, each stays at most once; and
/// what was dropped is gone.
pub proof fn each_stays_once<R, S>(
    n: NetView<R, S>,
    d: DiscoView,
    p: PendingView<R>,
    c: ConnView<S>,
    id: Seq<char>,
    targets: Seq<TargetView>,
    ts: u64,
)
    requires
        one_of_each(n),
    ensures
        one_of_each(NetView { discovered: placed::<DiscoPeer>(n.discovered, d), ..n }),
        one_of_each(NetView { pending: placed::<Pending<R>>(n.pending, p), ..n }),
        one_of_each(NetView { pending: dropped::<Pending<R>>(n.pending, id), ..n }),
        one_of_each(NetView { conns: placed::<ServerConn<S>>(n.conns, c), ..n }),
        one_of_each(NetView { conns: dropped::<ServerConn<S>>(n.conns, id), ..n }),
        one_of_each(
            NetView {
                conns: Seq::new(n.conns.len(), |i: int| reassigned(n.conns[i], targets, ts)),
                ..n
            },
        ),
        fetched::<Pending<R>>(dropped::<Pending<R>>(n.pending, id), id) is None,
        fetched::<ServerConn<S>>(dropped::<ServerConn<S>>(n.conns, id), id) is None,
{
    putting_keeps_ids_distinct::<DiscoPeer>(n.discovered, d);
    putting_keeps_ids_distinct::<Pending<R>>(n.pending, p);
    putting_keeps_ids_distinct::<ServerConn<S>>(n.conns, c);
    dropping_keeps_ids_distinct::<Pending<R>>(n.pending, id);
    dropping_keeps_ids_distinct::<ServerConn<S>>(n.conns, id);
    lemma_reassigned_distinct(n.conns, targets, ts);
}

/// A row of a report has the assigned id, what was measured as it was measured, and the cadence of
/// the target that stands for the id.
pub proof fn rows_say_what_was_measured(l: LocalView, rtt: Json, loss: Json)
    ensures
        entry_at(row(l, rtt, loss), "id"@) == Some(Json::Nat(l.id as u64)),
        entry_at(row(l, rtt, loss), "rttMs"@) == Some(rtt),
        entry_at(row(l, rtt, loss), "lossPct"@) == Some(loss),
        entry_at(row(l, rtt, loss), "intervalMs"@) == Some(Json::Nat(l.interval_ms)),
{
    lemma_report_keys();
}

/// A client is shown with its id, its name, its address and when it was last seen.
pub proof fn found_clients_are_shown_whole(p: DiscoView)
    ensures
        entry_at(disco_shown(p), "id"@) == Some(Json::Text(p.id)),
        entry_at(disco_shown(p), "name"@) == Some(Json::Text(p.name)),
        entry_at(disco_shown(p), "addr"@) == Some(Json::Text(p.addr)),
        entry_at(disco_shown(p), "lastSeen"@) == Some(Json::Nat(p.last_seen)),
{
    reveal_strlit("id");
    reveal_strlit("name");
    reveal_strlit("addr");
    reveal_strlit("lastSeen");
    assert("id"@.len() == 2 && "name"@.len() == 4 && "addr"@.len() == 4 && "lastSeen"@.len() == 8);
    assert("name"@[0] != "addr"@[0]);
}

/// A report is shown with the client that it is from, the time, and its results in order.
pub proof fn reports_are_shown_with_their_client(
    id: Seq<char>,
    name: Seq<char>,
    ts: u64,
    results: Seq<Json>,
)
    ensures
        entry_at(report_shown(id, name, ts, results), "fromId"@) == Some(Json::Text(id)),
        entry_at(report_shown(id, name, ts, results), "fromName"@) == Some(Json::Text(name)),
        entry_at(report_shown(id, name, ts, results), "ts"@) == Some(Json::Nat(ts)),
        entry_at(report_shown(id, name, ts, results), "results"@) == Some(Json::List(results)),
{
    reveal_strlit("fromId");
    reveal_strlit("fromName");
    reveal_strlit("ts");
    reveal_strlit("results");
    assert("fromId"@.len() == 6 && "fromName"@.len() == 8 && "ts"@.len() == 2 && "results"@.len()
        == 7);
}

/// Each result of a report is shown by itself, in its place, and a report without results is shown
/// with none.
pub proof fn results_are_shown_in_order(t: Json, assign: Seq<AssignedView>, i: int)
    ensures
        entry_at(t, "results"@) matches Some(Json::List(rs)) ==> {
            &&& enriched_all(t, assign).len() == rs.len()
            &&& 0 <= i < rs.len() ==> enriched_all(t, assign)[i] == enriched(rs[i], assign)
        },
        !(entry_at(t, "results"@) matches Some(x) && x is List) ==> enriched_all(t, assign).len()
            == 0,
{
}

/// A new assignment leaves a connection's client, line and secret as they are; what is then
/// remembered is what the targets of the assignment are called.
pub proof fn reassigning_changes_the_assignment_alone<S>(
    c: ConnView<S>,
    targets: Seq<TargetView>,
    ts: u64,
)
    ensures
        reassigned(c, targets, ts).id == c.id,
        reassigned(c, targets, ts).tx == c.tx,
        reassigned(c, targets, ts).secret == c.secret,
        reassigned(c, targets, ts).assign == remembered_all(targets, ts),
{
}

/// One peer more is connected behind the others where it is a client with an address that is not
/// connected; any other changes nothing.
pub proof fn clients_are_connected_in_order<S>(
    peers: Seq<PeerView>,
    conns: Seq<ConnView<S>>,
    p: PeerView,
)
    ensures
        to_connect(peers.push(p), conns) == if p.role == "client"@ && p.addr is Some
            && fetched::<ServerConn<S>>(conns, p.id) is None {
            to_connect(peers, conns).push(p)
        } else {
            to_connect(peers, conns)
        },
        to_connect(Seq::<PeerView>::empty(), conns).len() == 0,
{
    reveal(Seq::filter);
    assert(peers.push(p).drop_last() =~= peers);
}

} // verus!
