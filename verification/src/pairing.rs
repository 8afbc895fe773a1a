//! How a server and a client come to trust each other, and what they then say.
use crate::assign::{apply_assignment, entries, merged_locals, merged_targets, or, Local};
use crate::config::{is_hex_of, random_hex};
use crate::json::{
    entry_at, from_bool, null, parse, parsed, put, put_text, text_at, text_is, text_or, tree, with,
    written, Json,
};
use crate::model::{views, AppConfig, ConfigView, NodeInfo, NodeView, Peer, PeerView};
use crate::table::{fetched, placed, position, put_at, Keyed};
use crate::wire::{
    accept_line, acceptance, assignment, decline_line, hello, hello_line, invitation, invite_line,
    refusal, reject_line, rejection,
};
use serde_json::Value;
use vstd::prelude::*;

verus! {

/// How long an invitation waits for the user, in seconds.
pub const INVITE_TIMEOUT_SECS: u64 = 300;

// ---- peers -----------------------------------------------------------------

impl Keyed for Peer {
    type Id = str;

    open spec fn key(v: PeerView) -> Seq<char> {
        v.id
    }

    fn has_key(&self, id: &str) -> (r: bool) {
        self.id.as_str().eq(id)
    }
}

/// The first peer with this id.
pub fn peer_by_id(peers: &Vec<Peer>, id: &str) -> (r: Option<Peer>)
    ensures
        fetched::<Peer>(views(peers@), id@) == (match r {
            Some(p) => Some(p@),
            None => None,
        }),
{
    match position(peers, id) {
        Some(i) => Some(peers[i].clone()),
        None => None,
    }
}

/// Replaces the peer with the same id, or adds one where there is none.
pub fn upsert_peer(cfg: &mut AppConfig, peer: Peer)
    ensures
        final(cfg)@ == (ConfigView { peers: placed::<Peer>(old(cfg)@.peers, peer@), ..old(cfg)@ }),
        fetched::<Peer>(final(cfg)@.peers, peer@.id) == Some(peer@),
{
    proof {
        crate::table::placed_is_fetched::<Peer>(cfg@.peers, peer@, peer@.id);
    }
    let at = position(&cfg.peers, peer.id.as_str());
    put_at(&mut cfg.peers, at, peer);
}

// ---- the server's side -----------------------------------------------------

/// What a server says first: to a paired client its greeting, to any other an invitation.
pub open spec fn opening(node: NodeView, existing: Option<PeerView>, msg: Seq<char>) -> Json {
    match existing {
        Some(p) => hello(node.id, p.secret),
        None => invitation(node, msg),
    }
}

/// The line that a server says first.
pub fn opening_line(node: &NodeInfo, existing: &Option<Peer>, msg: &str) -> (r: String)
    ensures
        r@ == written(opening(node@, crate::model::opt_view(*existing), msg@)),
        parsed(r@) == Some(opening(node@, crate::model::opt_view(*existing), msg@)),
{
    match existing {
        Some(p) => hello_line(node.id.as_str(), p.secret.as_str()),
        None => invite_line(node, msg),
    }
}

/// What a client's reply to an invitation comes to.
#[derive(Debug)]
pub enum Outcome {
    /// No reply that can be read: the connection is given up without a word.
    Silent,
    /// The client does not want to be paired.
    Refused,
    /// The client is paired: this is the peer to remember.
    Paired(Peer),
}

/// What an [`Outcome`] holds.
pub enum OutcomeView {
    Silent,
    Refused,
    Paired(PeerView),
}

impl View for Outcome {
    type V = OutcomeView;

    open spec fn view(&self) -> OutcomeView {
        match *self {
            Outcome::Silent => OutcomeView::Silent,
            Outcome::Refused => OutcomeView::Refused,
            Outcome::Paired(p) => OutcomeView::Paired(p@),
        }
    }
}

/// Only an acceptance pairs; an id, a name or a secret that it leaves out is empty.
pub open spec fn replied(t: Json, addr: Seq<char>) -> OutcomeView {
    if text_at(t, "t"@) == Some("accept"@) {
        OutcomeView::Paired(
            PeerView {
                id: or(text_at(t, "id"@), ""@),
                name: or(text_at(t, "name"@), ""@),
                secret: or(text_at(t, "secret"@), ""@),
                role: "client"@,
                addr: Some(addr),
            },
        )
    } else {
        OutcomeView::Refused
    }
}

/// Decides what a reply to an invitation comes to.
pub fn invite_reply(v: &Value, addr: &str) -> (r: Outcome)
    ensures
        r@ == replied(tree(*v), addr@),
{
    if !text_is(v, "t", "accept") {
        return Outcome::Refused;
    }
    let p = Peer {
        id: text_or(v, "id", ""),
        name: text_or(v, "name", ""),
        secret: text_or(v, "secret", ""),
        role: "client".to_owned(),
        addr: Some(addr.to_owned()),
    };
    Outcome::Paired(p)
}

/// Decides what the line that follows an invitation comes to.
pub fn on_invite_line(line: &str, addr: &str) -> (r: Outcome)
    ensures
        r@ == (match parsed(line@) {
            Some(t) => replied(t, addr@),
            None => OutcomeView::Silent,
        }),
{
    match parse(line) {
        Some(v) => invite_reply(&v, addr),
        None => Outcome::Silent,
    }
}

// ---- the client's side -----------------------------------------------------

/// What a server's first line calls for.
#[derive(Debug)]
pub enum Opening {
    /// The server is paired: go on, with this secret.
    Trusted(String),
    /// The server is not: send this line and close.
    Rejected(String),
    /// The user decides whether to pair with this server.
    Invited { id: String, name: String, msg: String },
    /// Close.
    Closed,
}

/// What an [`Opening`] says.
pub enum OpeningView {
    Trusted(Seq<char>),
    Rejected,
    Invited { id: Seq<char>, name: Seq<char>, msg: Seq<char> },
    Closed,
}

impl Opening {
    /// This is what `v` says.
    pub open spec fn says(self, v: OpeningView) -> bool {
        match (self, v) {
            (Opening::Trusted(s), OpeningView::Trusted(s2)) => s@ == s2,
            (Opening::Rejected(line), OpeningView::Rejected) => line@ == written(rejection())
                && parsed(line@) == Some(rejection()),
            (
                Opening::Invited { id, name, msg },
                OpeningView::Invited { id: id2, name: name2, msg: msg2 },
            ) => id@ == id2 && name@ == name2 && msg@ == msg2,
            (Opening::Closed, OpeningView::Closed) => true,
            _ => false,
        }
    }
}

/// A greeting is trusted where it shows the secret agreed with the peer that has the sender's id,
/// and that secret is not empty; otherwise it is rejected. An invitation is put to the user. What
/// is neither ends the connection.
pub open spec fn opened(peers: Seq<PeerView>, t: Json) -> OpeningView {
    let id = or(text_at(t, "id"@), ""@);
    if text_at(t, "t"@) == Some("hello"@) {
        let shown = or(text_at(t, "secret"@), ""@);
        match fetched::<Peer>(peers, id) {
            Some(p) => if p.secret == shown && shown.len() > 0 {
                OpeningView::Trusted(p.secret)
            } else {
                OpeningView::Rejected
            },
            None => OpeningView::Rejected,
        }
    } else if text_at(t, "t"@) == Some("invite"@) {
        OpeningView::Invited {
            id,
            name: or(text_at(t, "name"@), ""@),
            msg: or(text_at(t, "msg"@), ""@),
        }
    } else {
        OpeningView::Closed
    }
}

/// Decides what a server's first message calls for.
pub fn on_opening(peers: &Vec<Peer>, v: &Value) -> (r: Opening)
    ensures
        r.says(opened(views(peers@), tree(*v))),
{
    proof {
        reveal_strlit("hello");
        reveal_strlit("invite");
        assert("hello"@.len() != "invite"@.len());
        reveal_strlit("");
    }
    let id = text_or(v, "id", "");
    if text_is(v, "t", "hello") {
        let shown = text_or(v, "secret", "");
        match peer_by_id(peers, id.as_str()) {
            Some(p) => {
                if p.secret.as_str().eq(shown.as_str()) && !shown.as_str().is_empty() {
                    return Opening::Trusted(p.secret);
                }
            },
            None => {},
        }
        return Opening::Rejected(reject_line());
    }
    if text_is(v, "t", "invite") {
        return Opening::Invited {
            id,
            name: text_or(v, "name", ""),
            msg: text_or(v, "msg", ""),
        };
    }
    Opening::Closed
}

/// Decides what a server's first line calls for; one that cannot be read says nothing.
pub fn on_first_line(peers: &Vec<Peer>, line: &str) -> (r: Opening)
    ensures
        r.says(opened(views(peers@), or(parsed(line@), Json::Null))),
{
    match parse(line) {
        Some(v) => on_opening(peers, &v),
        None => {
            let v = null();
            on_opening(peers, &v)
        },
    }
}

/// The peer that a client remembers once it accepts an invitation.
pub open spec fn accepted_peer(
    id: Seq<char>,
    name: Seq<char>,
    secret: Seq<char>,
    addr: Seq<char>,
) -> PeerView {
    PeerView { id, name, secret, role: "server"@, addr: Some(addr) }
}

/// Accepts an invitation with this secret, as the node `me`: remembers the server, and returns the
/// line to send.
pub fn accept_with(
    cfg: &mut AppConfig,
    me: &NodeInfo,
    id: String,
    name: String,
    secret: &str,
    addr: &str,
) -> (r: String)
    ensures
        final(cfg)@ == (ConfigView {
            peers: placed::<Peer>(old(cfg)@.peers, accepted_peer(id@, name@, secret@, addr@)),
            ..old(cfg)@
        }),
        r@ == written(acceptance(me@, secret@)),
        parsed(r@) == Some(acceptance(me@, secret@)),
{
    let p = Peer {
        id,
        name,
        secret: secret.to_owned(),
        role: "server".to_owned(),
        addr: Some(addr.to_owned()),
    };
    upsert_peer(cfg, p);
    accept_line(me, secret)
}

/// What a client sends once the user has decided, and the secret it goes on with.
#[derive(Debug)]
pub struct Decided {
    pub line: String,
    /// None: the invitation was declined and the connection closes.
    pub secret: Option<String>,
}

/// Answers an invitation as the node `me`. Accepting draws a fresh secret of 16 bytes; declining
/// leaves the configuration as it is.
pub fn answer_invite(
    cfg: &mut AppConfig,
    me: &NodeInfo,
    accepted: bool,
    id: String,
    name: String,
    addr: &str,
) -> (r: Decided)
    ensures
        r.secret is Some <==> accepted,
        r.secret matches Some(s) ==> {
            &&& is_hex_of(s@, 16)
            &&& final(cfg)@ == (ConfigView {
                peers: placed::<Peer>(old(cfg)@.peers, accepted_peer(id@, name@, s@, addr@)),
                ..old(cfg)@
            })
            &&& r.line@ == written(acceptance(me@, s@))
            &&& parsed(r.line@) == Some(acceptance(me@, s@))
        },
        !accepted ==> {
            &&& final(cfg)@ == old(cfg)@
            &&& r.line@ == written(refusal(me@.id))
            &&& parsed(r.line@) == Some(refusal(me@.id))
        },
{
    if !accepted {
        return Decided { line: decline_line(me.id.as_str()), secret: None };
    }
    let secret = random_hex(16);
    let line = accept_with(cfg, me, id, name, secret.as_str(), addr);
    Decided { line, secret: Some(secret) }
}

/// A message of this kind that carries this secret.
pub open spec fn carries(t: Json, kind: Seq<char>, secret: Seq<char>) -> bool {
    text_at(t, "t"@) == Some(kind) && text_at(t, "secret"@) == Some(secret)
}

/// Reads a message of this kind that carries this secret; any other is passed over.
pub fn read_trusted(line: &str, kind: &str, secret: &str) -> (r: Option<Value>)
    ensures
        match r {
            Some(v) => parsed(line@) == Some(tree(v)) && carries(tree(v), kind@, secret@),
            None => parsed(line@) matches Some(t) ==> !carries(t, kind@, secret@),
        },
{
    match parse(line) {
        Some(v) => {
            if text_is(&v, "t", kind) && text_is(&v, "secret", secret) {
                Some(v)
            } else {
                None
            }
        },
        None => None,
    }
}

/// Takes a line from a paired server. An assignment that carries the secret is applied, and what
/// then stands for its ids is returned; anything else leaves the configuration as it is.
pub fn on_server_line(cfg: &mut AppConfig, secret: &str, line: &str) -> (r: Option<Vec<Local>>)
    ensures
        r is Some <==> (parsed(line@) matches Some(t) && carries(t, "assign"@, secret@)),
        r is None ==> final(cfg)@ == old(cfg)@,
        r matches Some(out) ==> {
            &&& final(cfg)@ == (ConfigView {
                targets: merged_targets(old(cfg)@.targets, entries(parsed(line@)->0)),
                ..old(cfg)@
            })
            &&& views(out@) == merged_locals(old(cfg)@.targets, entries(parsed(line@)->0))
        },
{
    match read_trusted(line, "assign", secret) {
        Some(v) => Some(apply_assignment(cfg, &v)),
        None => None,
    }
}

// ---- what the user is shown ------------------------------------------------

/// An invitation as the user is shown it.
pub open spec fn invite_shown(id: Seq<char>, name: Seq<char>, msg: Seq<char>) -> Json {
    with(
        with(with(Json::Null, "fromId"@, Json::Text(id)), "fromName"@, Json::Text(name)),
        "msg"@,
        Json::Text(msg),
    )
}

/// An invitation as the user is shown it.
pub fn invite_event(id: &str, name: &str, msg: &str) -> (r: Value)
    ensures
        tree(r) == invite_shown(id@, name@, msg@),
{
    let mut v = null();
    put_text(&mut v, "fromId", id);
    put_text(&mut v, "fromName", name);
    put_text(&mut v, "msg", msg);
    v
}

/// What became of an invitation, as the user is shown it: the name is there where it was
/// accepted.
pub open spec fn result_shown(name: Option<Seq<char>>) -> Json {
    let t = with(Json::Null, "accepted"@, Json::Bool(name is Some));
    match name {
        Some(n) => with(t, "name"@, Json::Text(n)),
        None => t,
    }
}

/// What became of an invitation, as the user is shown it.
pub fn result_event(name: Option<&str>) -> (r: Value)
    ensures
        tree(r) == result_shown(
            match name {
                Some(n) => Some(n@),
                None => None,
            },
        ),
{
    let mut v = null();
    put(&mut v, "accepted", from_bool(name.is_some()));
    match name {
        Some(n) => put_text(&mut v, "name", n),
        None => {},
    }
    v
}

// ---- laws ------------------------------------------------------------------

/// The entries of these messages are told apart.
proof fn lemma_keys()
    ensures
        "t"@ != "id"@,
        "t"@ != "name"@,
        "t"@ != "msg"@,
        "t"@ != "secret"@,
        "t"@ != "targets"@,
        "id"@ != "name"@,
        "id"@ != "msg"@,
        "id"@ != "secret"@,
        "name"@ != "msg"@,
        "name"@ != "secret"@,
        "secret"@ != "targets"@,
{
    reveal_strlit("t");
    reveal_strlit("id");
    reveal_strlit("name");
    reveal_strlit("msg");
    reveal_strlit("secret");
    reveal_strlit("targets");
    assert("t"@.len() == 1 && "id"@.len() == 2 && "name"@.len() == 4 && "msg"@.len() == 3
        && "secret"@.len() == 6 && "targets"@.len() == 7);
}

/// What a greeting says is read from it.
proof fn lemma_hello(id: Seq<char>, secret: Seq<char>)
    ensures
        text_at(hello(id, secret), "t"@) == Some("hello"@),
        text_at(hello(id, secret), "id"@) == Some(id),
        text_at(hello(id, secret), "secret"@) == Some(secret),
{
    lemma_keys();
}

/// A greeting is trusted only where it shows the secret of the peer that it names, and never an
/// empty one.
pub proof fn only_the_secret_is_trusted(peers: Seq<PeerView>, t: Json, secret: Seq<char>)
    requires
        opened(peers, t) == OpeningView::Trusted(secret),
    ensures
        text_at(t, "t"@) == Some("hello"@),
        text_at(t, "secret"@) == Some(secret),
        secret.len() > 0,
        fetched::<Peer>(peers, or(text_at(t, "id"@), ""@)) matches Some(p) && p.secret == secret,
{
    reveal_strlit("");
    assert(""@.len() == 0);
}

/// A greeting with a wrong secret, an empty one, or from a server that is not paired is answered
/// with a rejection.
pub proof fn wrong_secret_is_rejected(peers: Seq<PeerView>, id: Seq<char>, secret: Seq<char>)
    requires
        fetched::<Peer>(peers, id) matches Some(p) ==> p.secret != secret || secret.len() == 0,
    ensures
        opened(peers, hello(id, secret)) == OpeningView::Rejected,
{
    lemma_hello(id, secret);
}

/// What an invitation says is read from it.
pub proof fn invitation_is_shown(peers: Seq<PeerView>, node: NodeView, msg: Seq<char>)
    ensures
        opened(peers, invitation(node, msg)) == (OpeningView::Invited {
            id: node.id,
            name: node.name,
            msg,
        }),
{
    lemma_keys();
    reveal_strlit("hello");
    reveal_strlit("invite");
    assert("hello"@.len() != "invite"@.len());
}

/// Once a client has accepted, both sides hold the same secret, each under the other's id, and
/// the server's later greeting is trusted.
pub proof fn pairing_is_mutual(
    client: ConfigView,
    server: ConfigView,
    secret: Seq<char>,
    server_addr: Seq<char>,
    client_addr: Seq<char>,
)
    requires
        secret.len() > 0,
    ensures
        ({
            let p = accepted_peer(server.node.id, server.node.name, secret, server_addr);
            let client_peers = placed::<Peer>(client.peers, p);
            &&& replied(acceptance(client.node, secret), client_addr) matches OutcomeView::Paired(q)
            &&& q == (PeerView {
                id: client.node.id,
                name: client.node.name,
                secret,
                role: "client"@,
                addr: Some(client_addr),
            })
            &&& fetched::<Peer>(client_peers, server.node.id) == Some(p)
            &&& fetched::<Peer>(placed::<Peer>(server.peers, q), client.node.id) == Some(q)
            &&& opened(client_peers, opening(server.node, Some(q), Seq::empty()))
                == OpeningView::Trusted(secret)
        }),
{
    lemma_keys();
    let p = accepted_peer(server.node.id, server.node.name, secret, server_addr);
    let q = PeerView {
        id: client.node.id,
        name: client.node.name,
        secret,
        role: "client"@,
        addr: Some(client_addr),
    };
    assert(replied(acceptance(client.node, secret), client_addr) == OutcomeView::Paired(q));
    crate::table::placed_is_fetched::<Peer>(client.peers, p, server.node.id);
    crate::table::placed_is_fetched::<Peer>(server.peers, q, client.node.id);
    lemma_hello(server.node.id, secret);
}

/// A refusal pairs nobody.
pub proof fn refusal_pairs_nobody(id: Seq<char>, addr: Seq<char>)
    ensures
        replied(refusal(id), addr) is Refused,
        replied(rejection(), addr) is Refused,
{
    lemma_keys();
    reveal_strlit("accept");
    reveal_strlit("decline");
    reveal_strlit("reject");
    assert("accept"@.len() != "decline"@.len());
    assert("accept"@[0] != "reject"@[0]);
}

/// An assignment is taken as it was sent where the secrets agree, and passed over where they
/// differ.
pub proof fn assignment_needs_the_secret(sent: Seq<char>, held: Seq<char>, targets: Seq<Json>)
    ensures
        carries(assignment(sent, targets), "assign"@, held) <==> sent == held,
        entries(assignment(sent, targets)) == targets,
{
    lemma_keys();
    reveal_strlit("t");
    reveal_strlit("targets");
    assert("t"@ != "targets"@);
}

/// A text entry, or the empty text where the message has none under this key.
pub open spec fn said(t: Json, key: Seq<char>, s: Seq<char>) -> bool {
    match entry_at(t, key) {
        Some(Json::Text(x)) => s == x,
        _ => s.len() == 0,
    }
}

/// Every greeting that shows the secret agreed with the peer whose id it has is trusted, with that
/// secret; every other greeting is rejected.
pub proof fn the_agreed_secret_is_trusted(
    peers: Seq<PeerView>,
    t: Json,
    id: Seq<char>,
    shown: Seq<char>,
)
    requires
        entry_at(t, "t"@) == Some(Json::Text("hello"@)),
        said(t, "id"@, id),
        said(t, "secret"@, shown),
    ensures
        (fetched::<Peer>(peers, id) matches Some(p) && p.secret == shown) && shown.len() > 0
            ==> opened(peers, t) == OpeningView::Trusted(shown),
        !((fetched::<Peer>(peers, id) matches Some(p) && p.secret == shown) && shown.len() > 0)
            ==> opened(peers, t) is Rejected,
{
    lemma_said(t, "id"@, id);
    lemma_said(t, "secret"@, shown);
}

/// What is said is what is read, or the empty text.
proof fn lemma_said(t: Json, key: Seq<char>, s: Seq<char>)
    requires
        said(t, key, s),
    ensures
        s == or(text_at(t, key), ""@),
{
    reveal_strlit("");
    if s.len() == 0 {
        assert(s =~= ""@);
    }
}

/// Every invitation is put to the user with the id, the name and the words that it has, whoever is
/// paired already; and a first message that is neither greeting nor invitation ends the connection.
pub proof fn every_invitation_is_put_to_the_user(
    peers: Seq<PeerView>,
    t: Json,
    id: Seq<char>,
    name: Seq<char>,
    msg: Seq<char>,
)
    requires
        said(t, "id"@, id),
        said(t, "name"@, name),
        said(t, "msg"@, msg),
    ensures
        entry_at(t, "t"@) == Some(Json::Text("invite"@)) ==> opened(peers, t)
            == (OpeningView::Invited { id, name, msg }),
        entry_at(t, "t"@) != Some(Json::Text("hello"@)) && entry_at(t, "t"@) != Some(
            Json::Text("invite"@),
        ) ==> opened(peers, t) is Closed,
{
    lemma_said(t, "id"@, id);
    lemma_said(t, "name"@, name);
    lemma_said(t, "msg"@, msg);
    reveal_strlit("hello");
    reveal_strlit("invite");
    assert("hello"@.len() != "invite"@.len());
}

/// Every acceptance pairs a client, under the id, the name and the secret that it has and at the
/// address of the connection; every other reply pairs nobody.
pub proof fn every_acceptance_pairs(
    t: Json,
    addr: Seq<char>,
    id: Seq<char>,
    name: Seq<char>,
    secret: Seq<char>,
)
    requires
        said(t, "id"@, id),
        said(t, "name"@, name),
        said(t, "secret"@, secret),
    ensures
        entry_at(t, "t"@) == Some(Json::Text("accept"@)) ==> (replied(
            t,
            addr,
        ) matches OutcomeView::Paired(p) && p.id == id && p.name == name && p.secret == secret
            && p.role == "client"@ && p.addr == Some(addr)),
        entry_at(t, "t"@) != Some(Json::Text("accept"@)) ==> replied(t, addr) is Refused,
{
    lemma_said(t, "id"@, id);
    lemma_said(t, "name"@, name);
    lemma_said(t, "secret"@, secret);
}

/// A server that accepted is remembered as a server, under its id and name, with the secret and the
/// address of the connection.
pub proof fn accepted_servers_are_remembered_whole(
    id: Seq<char>,
    name: Seq<char>,
    secret: Seq<char>,
    addr: Seq<char>,
)
    ensures
        accepted_peer(id, name, secret, addr).id == id,
        accepted_peer(id, name, secret, addr).name == name,
        accepted_peer(id, name, secret, addr).secret == secret,
        accepted_peer(id, name, secret, addr).role == "server"@,
        accepted_peer(id, name, secret, addr).addr == Some(addr),
{
}

/// A server greets a client that it is paired with, with its own id and the secret that it holds
/// for that client, and invites any other.
pub proof fn paired_clients_are_greeted(
    node: NodeView,
    existing: Option<PeerView>,
    msg: Seq<char>,
)
    ensures
        existing matches Some(p) ==> {
            &&& entry_at(opening(node, existing, msg), "t"@) == Some(Json::Text("hello"@))
            &&& entry_at(opening(node, existing, msg), "id"@) == Some(Json::Text(node.id))
            &&& entry_at(opening(node, existing, msg), "secret"@) == Some(Json::Text(p.secret))
        },
        existing is None ==> {
            &&& entry_at(opening(node, existing, msg), "t"@) == Some(Json::Text("invite"@))
            &&& entry_at(opening(node, existing, msg), "id"@) == Some(Json::Text(node.id))
            &&& entry_at(opening(node, existing, msg), "name"@) == Some(Json::Text(node.name))
            &&& entry_at(opening(node, existing, msg), "msg"@) == Some(Json::Text(msg))
        },
{
    lemma_keys();
}

/// A message carries a secret exactly where its kind and its secret are these very texts.
pub proof fn secrets_are_compared_whole(t: Json, kind: Seq<char>, secret: Seq<char>)
    ensures
        carries(t, kind, secret) <==> entry_at(t, "t"@) == Some(Json::Text(kind)) && entry_at(
            t,
            "secret"@,
        ) == Some(Json::Text(secret)),
{
}

/// The user is shown who invites and with what words, and what became of an invitation: whether it
/// was accepted, and by whom where it was.
pub proof fn users_see_who_invites(
    id: Seq<char>,
    name: Seq<char>,
    msg: Seq<char>,
)
    ensures
        entry_at(invite_shown(id, name, msg), "fromId"@) == Some(Json::Text(id)),
        entry_at(invite_shown(id, name, msg), "fromName"@) == Some(Json::Text(name)),
        entry_at(invite_shown(id, name, msg), "msg"@) == Some(Json::Text(msg)),
        entry_at(result_shown(Some(name)), "accepted"@) == Some(Json::Bool(true)),
        entry_at(result_shown(Some(name)), "name"@) == Some(Json::Text(name)),
        entry_at(result_shown(None), "accepted"@) == Some(Json::Bool(false)),
        entry_at(result_shown(None), "name"@) is None,
{
    reveal_strlit("fromId");
    reveal_strlit("fromName");
    reveal_strlit("msg");
    reveal_strlit("accepted");
    reveal_strlit("name");
    assert("fromId"@.len() == 6 && "fromName"@.len() == 8 && "msg"@.len() == 3 && "name"@.len()
        == 4);
    assert("accepted"@.len() == 8);
}

} // verus!
