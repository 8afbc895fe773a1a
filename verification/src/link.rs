//! The two ends of a control connection, step by step.
use crate::assign::{entries, merged_locals, merged_targets, or, Local, LocalView};
use crate::config::is_hex_of;
use crate::json::{entry_at, parsed, tree, written, Json};
use crate::model::{opt_view, views, AppConfig, ConfigView, NodeInfo, Peer};
use crate::net::{build_report, is_measure, rows, Measured};
use crate::pairing::{
    accepted_peer, answer_invite, carries, on_first_line, on_invite_line, on_server_line, opened,
    opening, opening_line, replied, result_event, result_shown, upsert_peer, Opening, OpeningView,
    Outcome, OutcomeView,
};
use crate::table::placed;
use crate::wire::{acceptance, refusal, rejection, report};
use serde_json::Value;
use vstd::prelude::*;

verus! {

// ---- the client's end ------------------------------------------------------

/// How far a connection from a server has come.
#[derive(Debug)]
pub enum ClientStage {
    /// The server has not said anything yet.
    Fresh,
    /// The server invites us, and the user has not decided.
    Asked { id: String, name: String },
    /// The server may assign targets, with this secret; these stand for the ids of its last
    /// assignment.
    Paired { secret: String, assigned: Vec<Local> },
    /// The connection is over.
    Closed,
}

/// What a [`ClientStage`] holds.
pub enum ClientView {
    Fresh,
    Asked { id: Seq<char>, name: Seq<char> },
    Paired { secret: Seq<char>, assigned: Seq<LocalView> },
    Closed,
}

impl View for ClientStage {
    type V = ClientView;

    open spec fn view(&self) -> ClientView {
        match *self {
            ClientStage::Fresh => ClientView::Fresh,
            ClientStage::Asked { id, name } => ClientView::Asked { id: id@, name: name@ },
            ClientStage::Paired { secret, assigned } => ClientView::Paired {
                secret: secret@,
                assigned: views(assigned@),
            },
            ClientStage::Closed => ClientView::Closed,
        }
    }
}

/// A connection from a server: who this node was when it began, and how far it has come.
#[derive(Debug)]
pub struct ClientLink {
    pub me: NodeInfo,
    pub stage: ClientStage,
}

/// What a step of the client calls for.
#[derive(Debug)]
pub enum ClientAct {
    /// Send a line; where the link is closed then, close.
    Send(String),
    /// Put an invitation to the user.
    Ask { id: String, name: String, msg: String },
    /// The configuration may have new targets: store it, and probe those behind the others.
    Merged,
    /// Nothing.
    Wait,
    /// Close.
    Close,
}

/// Where the link stands after a line, or after the end of the connection, and what the
/// configuration then is. Only a paired server changes it, with an assignment that carries the
/// secret.
pub open spec fn client_after(
    link: ClientView,
    cfg: ConfigView,
    line: Option<Seq<char>>,
) -> (ClientView, ConfigView) {
    match (link, line) {
        (ClientView::Fresh, Some(l)) => match opened(cfg.peers, or(parsed(l), Json::Null)) {
            OpeningView::Trusted(secret) => (
                ClientView::Paired { secret, assigned: Seq::empty() },
                cfg,
            ),
            OpeningView::Invited { id, name, .. } => (ClientView::Asked { id, name }, cfg),
            _ => (ClientView::Closed, cfg),
        },
        (ClientView::Paired { secret, assigned }, Some(l)) => match parsed(l) {
            Some(t) => if carries(t, "assign"@, secret) {
                (
                    ClientView::Paired { secret, assigned: merged_locals(cfg.targets, entries(t)) },
                    ConfigView { targets: merged_targets(cfg.targets, entries(t)), ..cfg },
                )
            } else {
                (link, cfg)
            },
            None => (link, cfg),
        },
        (ClientView::Asked { .. }, Some(_)) => (link, cfg),
        _ => (ClientView::Closed, cfg),
    }
}

/// What a line, or the end of the connection, calls for.
pub open spec fn client_acts(
    link: ClientView,
    cfg: ConfigView,
    line: Option<Seq<char>>,
    act: ClientAct,
) -> bool {
    match (link, line) {
        (ClientView::Fresh, Some(l)) => match opened(cfg.peers, or(parsed(l), Json::Null)) {
            OpeningView::Trusted(_) => act is Wait,
            OpeningView::Rejected => act matches ClientAct::Send(s) && s@ == written(rejection())
                && parsed(s@) == Some(rejection()),
            OpeningView::Invited { id, name, msg } => act matches ClientAct::Ask {
                id: i,
                name: n,
                msg: m,
            } && i@ == id && n@ == name && m@ == msg,
            OpeningView::Closed => act is Close,
        },
        (ClientView::Paired { secret, assigned }, Some(l)) => if parsed(l) matches Some(t)
            && carries(t, "assign"@, secret) {
            act is Merged
        } else {
            act is Wait
        },
        (ClientView::Asked { .. }, Some(_)) => act is Wait,
        _ => act is Close,
    }
}

impl ClientLink {
    /// A connection that a server has just made to the node `me`.
    pub fn new(me: &NodeInfo) -> (r: ClientLink)
        ensures
            r.me@ == me@,
            r.stage@ is Fresh,
    {
        ClientLink { me: me.clone(), stage: ClientStage::Fresh }
    }

    /// Takes the server's next line, or the end of the connection. Nothing needs to be read while
    /// the user decides: a line that is taken then is passed over.
    pub fn on_line(&mut self, cfg: &mut AppConfig, line: Option<&str>) -> (r: ClientAct)
        ensures
            final(self).me@ == old(self).me@,
            (final(self).stage@, final(cfg)@) == client_after(
                old(self).stage@,
                old(cfg)@,
                match line {
                    Some(l) => Some(l@),
                    None => None,
                },
            ),
            client_acts(
                old(self).stage@,
                old(cfg)@,
                match line {
                    Some(l) => Some(l@),
                    None => None,
                },
                r,
            ),
    {
        let l = match line {
            Some(l) => l,
            None => {
                self.stage = ClientStage::Closed;
                return ClientAct::Close;
            },
        };
        match &self.stage {
            ClientStage::Fresh => match on_first_line(&cfg.peers, l) {
                Opening::Trusted(secret) => {
                    let assigned: Vec<Local> = Vec::new();
                    assert(views(assigned@) =~= Seq::empty());
                    self.stage = ClientStage::Paired { secret, assigned };
                    ClientAct::Wait
                },
                Opening::Rejected(s) => {
                    self.stage = ClientStage::Closed;
                    ClientAct::Send(s)
                },
                Opening::Invited { id, name, msg } => {
                    self.stage = ClientStage::Asked { id: id.clone(), name: name.clone() };
                    ClientAct::Ask { id, name, msg }
                },
                Opening::Closed => {
                    self.stage = ClientStage::Closed;
                    ClientAct::Close
                },
            },
            ClientStage::Paired { secret, .. } => {
                let secret = secret.clone();
                match on_server_line(cfg, secret.as_str(), l) {
                    Some(assigned) => {
                        self.stage = ClientStage::Paired { secret, assigned };
                        ClientAct::Merged
                    },
                    None => ClientAct::Wait,
                }
            },
            ClientStage::Asked { .. } => ClientAct::Wait,
            ClientStage::Closed => ClientAct::Close,
        }
    }

    /// Takes the user's decision, or `false` where none came in time. Accepting remembers the
    /// server under a fresh secret of 16 bytes; declining closes the link. Either way the line
    /// names this node as it was when the connection began.
    pub fn decide(&mut self, cfg: &mut AppConfig, accepted: bool, addr: &str) -> (r: String)
        requires
            old(self).stage@ is Asked,
        ensures
            final(self).me@ == old(self).me@,
            accepted ==> {
                &&& final(self).stage@ matches ClientView::Paired { secret, assigned }
                &&& is_hex_of(secret, 16)
                &&& assigned.len() == 0
                &&& final(cfg)@ == (ConfigView {
                    peers: placed::<Peer>(
                        old(cfg)@.peers,
                        accepted_peer(
                            old(self).stage@->Asked_id,
                            old(self).stage@->Asked_name,
                            secret,
                            addr@,
                        ),
                    ),
                    ..old(cfg)@
                })
                &&& r@ == written(acceptance(old(self).me@, secret))
                &&& parsed(r@) == Some(acceptance(old(self).me@, secret))
            },
            !accepted ==> {
                &&& final(self).stage@ is Closed
                &&& final(cfg)@ == old(cfg)@
                &&& r@ == written(refusal(old(self).me@.id))
                &&& parsed(r@) == Some(refusal(old(self).me@.id))
            },
    {
        let (id, name) = match &self.stage {
            ClientStage::Asked { id, name } => (id.clone(), name.clone()),
            _ => (String::new(), String::new()),
        };
        let d = answer_invite(cfg, &self.me, accepted, id, name, addr);
        match d.secret {
            Some(secret) => {
                self.stage = ClientStage::Paired { secret, assigned: Vec::new() };
            },
            None => {
                self.stage = ClientStage::Closed;
            },
        }
        d.line
    }

    /// What stands for the ids that are to be reported on: none but for a paired server.
    pub open spec fn reported(link: ClientView) -> Seq<LocalView> {
        match link {
            ClientView::Paired { assigned, .. } => assigned,
            _ => Seq::empty(),
        }
    }

    /// The report that is due on a tick: none as long as nothing is assigned. `measured` follows
    /// the order of what is assigned.
    pub fn tick(&self, measured: Vec<Measured>) -> (r: Option<String>)
        requires
            measured@.len() == Self::reported(self.stage@).len(),
        ensures
            r is Some <==> Self::reported(self.stage@).len() > 0,
            r matches Some(line) ==> {
                let t = report(
                    self.stage@->Paired_secret,
                    self.me@,
                    rows(Self::reported(self.stage@), measured@),
                );
                &&& line@ == written(t)
                &&& (forall|i: int|
                    0 <= i < measured@.len() ==> is_measure(tree((#[trigger] measured@[i]).rtt))
                        && is_measure(tree(measured@[i].loss))) ==> crate::json::read_back(
                    t,
                    parsed(line@),
                )
            },
    {
        match &self.stage {
            ClientStage::Paired { secret, assigned } => build_report(
                secret.as_str(),
                &self.me,
                assigned,
                measured,
            ),
            _ => None,
        }
    }
}

// ---- the server's end ------------------------------------------------------

/// How far a connection to a client has come.
#[derive(Debug)]
pub enum ServerLink {
    /// The client was invited and has not replied.
    Inviting,
    /// The client is paired; its reports carry this secret.
    Paired { id: String, name: String, secret: String },
    /// The connection is over.
    Closed,
}

/// What a [`ServerLink`] holds.
pub enum ServerView {
    Inviting,
    Paired { id: Seq<char>, name: Seq<char>, secret: Seq<char> },
    Closed,
}

impl View for ServerLink {
    type V = ServerView;

    open spec fn view(&self) -> ServerView {
        match *self {
            ServerLink::Inviting => ServerView::Inviting,
            ServerLink::Paired { id, name, secret } => ServerView::Paired {
                id: id@,
                name: name@,
                secret: secret@,
            },
            ServerLink::Closed => ServerView::Closed,
        }
    }
}

/// What a step of the server calls for.
pub enum ServerAct {
    /// Store the configuration, show what became of the invitation, then register the connection.
    Welcome(Value),
    /// Show what became of the invitation, then close.
    Refused(Value),
    /// Close.
    Close,
}

impl ServerLink {
    /// A connection to a client: the line to send first, and where the link then stands. A
    /// paired client is registered at once; any other is invited.
    pub fn open(node: &NodeInfo, existing: Option<Peer>, msg: &str) -> (r: (ServerLink, String))
        ensures
            r.1@ == written(opening(node@, opt_view(existing), msg@)),
            parsed(r.1@) == Some(opening(node@, opt_view(existing), msg@)),
            r.0@ == (match opt_view(existing) {
                Some(p) => ServerView::Paired { id: p.id, name: p.name, secret: p.secret },
                None => ServerView::Inviting,
            }),
    {
        let line = opening_line(node, &existing, msg);
        let link = match existing {
            Some(p) => ServerLink::Paired { id: p.id, name: p.name, secret: p.secret },
            None => ServerLink::Inviting,
        };
        (link, line)
    }

    /// Takes the reply of a client that was invited, or the end of the connection. An acceptance
    /// pairs: the client is remembered, with the secret that it chose.
    pub fn on_reply(&mut self, cfg: &mut AppConfig, line: Option<&str>, addr: &str) -> (r:
        ServerAct)
        requires
            old(self)@ is Inviting,
        ensures
            match line {
                Some(l) => match parsed(l@) {
                    Some(t) => match replied(t, addr@) {
                        OutcomeView::Paired(p) => {
                            &&& final(self)@ == (ServerView::Paired {
                                id: p.id,
                                name: p.name,
                                secret: p.secret,
                            })
                            &&& final(cfg)@ == (ConfigView {
                                peers: placed::<Peer>(old(cfg)@.peers, p),
                                ..old(cfg)@
                            })
                            &&& r matches ServerAct::Welcome(e)
                            &&& tree(e) == result_shown(Some(p.name))
                        },
                        _ => {
                            &&& final(self)@ is Closed
                            &&& final(cfg)@ == old(cfg)@
                            &&& r matches ServerAct::Refused(e)
                            &&& tree(e) == result_shown(None)
                        },
                    },
                    None => final(self)@ is Closed && final(cfg)@ == old(cfg)@ && r is Close,
                },
                None => final(self)@ is Closed && final(cfg)@ == old(cfg)@ && r is Close,
            },
    {
        let outcome = match line {
            Some(l) => on_invite_line(l, addr),
            None => Outcome::Silent,
        };
        match outcome {
            Outcome::Paired(p) => {
                let e = result_event(Some(p.name.as_str()));
                *self = ServerLink::Paired {
                    id: p.id.clone(),
                    name: p.name.clone(),
                    secret: p.secret.clone(),
                };
                upsert_peer(cfg, p);
                ServerAct::Welcome(e)
            },
            Outcome::Refused => {
                *self = ServerLink::Closed;
                ServerAct::Refused(result_event(None))
            },
            Outcome::Silent => {
                *self = ServerLink::Closed;
                ServerAct::Close
            },
        }
    }
}

// ---- laws ------------------------------------------------------------------

/// A server that is not trusted changes no configuration: whatever it says first, and whatever
/// comes over a link that is closed or waits for the user, leaves it as it is.
pub proof fn untrusted_servers_change_nothing(
    link: ClientView,
    cfg: ConfigView,
    line: Option<Seq<char>>,
)
    requires
        !(link is Paired),
    ensures
        client_after(link, cfg, line).1 == cfg,
{
}

/// Whatever a server says, it changes nothing but the targets, and takes none of them away.
pub proof fn servers_only_add_targets(
    link: ClientView,
    cfg: ConfigView,
    line: Option<Seq<char>>,
)
    ensures
        ({
            let after = client_after(link, cfg, line).1;
            &&& after == (ConfigView { targets: after.targets, ..cfg })
            &&& after.targets.len() >= cfg.targets.len()
            &&& after.targets.take(cfg.targets.len() as int) == cfg.targets
        }),
{
    assert(cfg.targets.take(cfg.targets.len() as int) =~= cfg.targets);
    if let (ClientView::Paired { secret, .. }, Some(l)) = (link, line) {
        if let Some(t) = parsed(l) {
            crate::assign::assignment_keeps_targets(cfg.targets, entries(t));
        }
    }
}

/// A link is paired by a line only where that line is a greeting with the secret of a known peer,
/// or where the link was paired before; and the secret never changes.
pub proof fn links_are_paired_by_the_secret(
    link: ClientView,
    cfg: ConfigView,
    line: Option<Seq<char>>,
)
    requires
        client_after(link, cfg, line).0 is Paired,
    ensures
        link is Paired ==> link->Paired_secret == client_after(link, cfg, line).0->Paired_secret,
        !(link is Paired) ==> link is Fresh && line is Some && opened(
            cfg.peers,
            or(parsed(line->0), Json::Null),
        ) == OpeningView::Trusted(client_after(link, cfg, line).0->Paired_secret),
{
}

/// A link that is closed stays closed.
pub proof fn closed_links_stay_closed(cfg: ConfigView, line: Option<Seq<char>>)
    ensures
        client_after(ClientView::Closed, cfg, line) == (ClientView::Closed, cfg),
{
}

/// Every assignment that carries the secret takes effect on a paired link, whatever was assigned
/// before: its hosts are then watched, and what stands for its ids takes the place of what stood
/// before. Any other line leaves the link and the configuration as they are.
pub proof fn assignments_take_effect(
    secret: Seq<char>,
    assigned: Seq<LocalView>,
    cfg: ConfigView,
    line: Seq<char>,
)
    ensures
        ({
            let link = ClientView::Paired { secret, assigned };
            let after = client_after(link, cfg, Some(line));
            match parsed(line) {
                Some(t) => if entry_at(t, "t"@) == Some(Json::Text("assign"@)) && entry_at(
                    t,
                    "secret"@,
                ) == Some(Json::Text(secret)) {
                    &&& after.0 matches ClientView::Paired { secret: s, assigned: a }
                    &&& s == secret
                    &&& a == merged_locals(cfg.targets, entries(t))
                    &&& after.1.targets == merged_targets(cfg.targets, entries(t))
                } else {
                    after == (link, cfg)
                },
                None => after == (link, cfg),
            }
        }),
{
}

/// A link that ends is closed, at whatever stage; while the user decides, lines change nothing.
pub proof fn links_end_with_the_connection(
    link: ClientView,
    cfg: ConfigView,
    id: Seq<char>,
    name: Seq<char>,
    line: Seq<char>,
)
    ensures
        client_after(link, cfg, None) == (ClientView::Closed, cfg),
        client_after(ClientView::Asked { id, name }, cfg, Some(line)) == (
            ClientView::Asked { id, name },
            cfg,
        ),
{
}

/// A first line that is a greeting with the agreed secret pairs the link with that secret and
/// nothing assigned yet; an invitation puts it to the user; anything else closes it.
pub proof fn first_lines_decide(cfg: ConfigView, line: Seq<char>, t: Json)
    requires
        parsed(line) == Some(t),
    ensures
        ({
            let after = client_after(ClientView::Fresh, cfg, Some(line));
            match opened(cfg.peers, t) {
                OpeningView::Trusted(s) => after.0 matches ClientView::Paired { secret, assigned }
                    && secret == s && assigned.len() == 0,
                OpeningView::Invited { id: i, name: n, .. } => after.0 matches ClientView::Asked {
                    id,
                    name,
                } && id == i && name == n,
                _ => after.0 is Closed,
            }
        }),
        client_after(ClientView::Fresh, cfg, Some(line)).1 == cfg,
{
}

/// What is reported on is what the last assignment of a paired server made of its ids, and nothing
/// on any other link.
pub proof fn reports_are_on_the_assignment(secret: Seq<char>, assigned: Seq<LocalView>)
    ensures
        ClientLink::reported(ClientView::Paired { secret, assigned }) == assigned,
        ClientLink::reported(ClientView::Fresh).len() == 0,
        ClientLink::reported(ClientView::Closed).len() == 0,
        ClientLink::reported(ClientView::Asked { id: secret, name: secret }).len() == 0,
{
}

/// A server that greets without the agreed secret is answered with a rejection, and one that
/// invites is put to the user with the id, the name and the words that it sent; a first line that
/// is neither ends the connection. A paired server's assignment is merged where it carries the
/// secret.
pub proof fn servers_are_answered(
    cfg: ConfigView,
    line: Seq<char>,
    t: Json,
    secret: Seq<char>,
    assigned: Seq<LocalView>,
    act: ClientAct,
)
    requires
        parsed(line) == Some(t),
    ensures
        client_acts(ClientView::Fresh, cfg, Some(line), act) ==> {
            &&& opened(cfg.peers, t) is Trusted ==> act is Wait
            &&& opened(cfg.peers, t) is Rejected ==> (act matches ClientAct::Send(s) && parsed(s@)
                == Some(rejection()))
            &&& opened(cfg.peers, t) matches OpeningView::Invited { id, name, msg } ==> (
            act matches ClientAct::Ask { id: i, name: n, msg: m } && i@ == id && n@ == name && m@
                == msg)
            &&& opened(cfg.peers, t) is Closed ==> act is Close
        },
        client_acts(ClientView::Paired { secret, assigned }, cfg, Some(line), act) ==> if entry_at(
            t,
            "t"@,
        ) == Some(Json::Text("assign"@)) && entry_at(t, "secret"@) == Some(Json::Text(secret)) {
            act is Merged
        } else {
            act is Wait
        },
        client_acts(ClientView::Closed, cfg, Some(line), act) ==> act is Close,
        client_acts(ClientView::Paired { secret, assigned }, cfg, None, act) ==> act is Close,
        client_acts(ClientView::Fresh, cfg, None, act) ==> act is Close,
{
}

/// A first line that cannot be read closes the link without a word and changes nothing.
pub proof fn unreadable_first_lines_close(cfg: ConfigView, line: Seq<char>, act: ClientAct)
    requires
        parsed(line) is None,
    ensures
        client_after(ClientView::Fresh, cfg, Some(line)) == (ClientView::Closed, cfg),
        client_acts(ClientView::Fresh, cfg, Some(line), act) <==> act is Close,
{
}

} // verus!
