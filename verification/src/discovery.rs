//! Finding clients on the local networks: where queries go, and what a datagram calls for.
use crate::json::{
    entry_at, nat_at, nat_field, parse_bytes, parsed, text_at, text_field, text_is, tree, Json,
};
use crate::model::{NodeInfo, NodeView};
use crate::text::{begins_with, starts_with};
use crate::wire::{beacon, beacon_line};
use serde_json::Value;
use vstd::prelude::*;
use vstd::utf8::{decode_utf8, valid_utf8};

verus! {

/// The UDP port of queries and replies.
pub const DISCO_PORT: u16 = 51900;

// ---- where queries go ------------------------------------------------------

/// The IPv4 side of a network interface; addresses are numbers, highest octet first.
#[derive(Clone, Copy, Debug, PartialEq, Eq, Structural)]
pub struct V4 {
    pub ip: u32,
    pub netmask: u32,
    pub broadcast: Option<u32>,
}

/// A network interface.
#[derive(Debug)]
pub struct Interface {
    pub name: String,
    /// Whether it is in operation.
    pub up: bool,
    pub loopback: bool,
    pub v4: Option<V4>,
}

/// What an [`Interface`] holds.
#[verifier::ext_equal]
pub struct InterfaceView {
    pub name: Seq<char>,
    pub up: bool,
    pub loopback: bool,
    pub v4: Option<V4>,
}

impl View for Interface {
    type V = InterfaceView;

    open spec fn view(&self) -> InterfaceView {
        InterfaceView { name: self.name@, up: self.up, loopback: self.loopback, v4: self.v4 }
    }
}

/// The address that reaches everyone on an interface's network: the broadcast address that it
/// names, or its own with every host bit set.
pub open spec fn reach(v: V4) -> u32 {
    match v.broadcast {
        Some(b) => b,
        None => v.ip | !v.netmask,
    }
}

/// The address to which an interface adds a query: only Wi-Fi and wired Ethernet (`en*`) that is
/// up and has an IPv4 side has one, and not the loopback.
pub open spec fn query_address(i: InterfaceView) -> Option<u32> {
    if !i.up || i.loopback || !starts_with(i.name, "en"@) {
        None
    } else {
        match i.v4 {
            Some(v) => Some(reach(v)),
            None => None,
        }
    }
}

/// The addresses of these interfaces, each once, where it first comes up.
pub open spec fn query_addresses(is: Seq<InterfaceView>) -> Seq<u32>
    decreases is.len(),
{
    if is.len() == 0 {
        Seq::empty()
    } else {
        let rest = query_addresses(is.drop_last());
        match query_address(is.last()) {
            Some(a) => if rest.contains(a) {
                rest
            } else {
                rest.push(a)
            },
            None => rest,
        }
    }
}

/// The addresses that a query is sent to: the limited broadcast where no interface has one.
pub open spec fn targets_view(is: Seq<InterfaceView>) -> Seq<u32> {
    if query_addresses(is).len() == 0 {
        seq![0xffff_ffffu32]
    } else {
        query_addresses(is)
    }
}

/// Whether a number is in a list.
fn in_list(list: &Vec<u32>, a: u32) -> (r: bool)
    ensures
        r == list@.contains(a),
{
    for i in 0..list.len()
        invariant
            forall|j: int| 0 <= j < i ==> list@[j] != a,
    {
        if list[i] == a {
            return true;
        }
    }
    false
}

/// The addresses that a query is sent to.
pub fn discovery_targets(interfaces: &Vec<Interface>) -> (r: Vec<u32>)
    ensures
        r@ == targets_view(crate::model::views(interfaces@)),
{
    let ghost all = crate::model::views(interfaces@);
    let mut out: Vec<u32> = Vec::new();
    assert(out@ =~= query_addresses(all.take(0)));
    for i in 0..interfaces.len()
        invariant
            all == crate::model::views(interfaces@),
            i <= interfaces@.len(),
            out@ == query_addresses(all.take(i as int)),
    {
        proof {
            assert(all.take(i + 1).drop_last() =~= all.take(i as int));
            assert(all.take(i + 1).last() == interfaces@[i as int]@);
        }
        let face = &interfaces[i];
        if face.up && !face.loopback && begins_with(face.name.as_str(), "en") {
            match face.v4 {
                Some(v) => {
                    let a: u32 = match v.broadcast {
                        Some(b) => b,
                        None => v.ip | !v.netmask,
                    };
                    if !in_list(&out, a) {
                        out.push(a);
                    }
                },
                None => {},
            }
        }
    }
    assert(all.take(interfaces@.len() as int) =~= all);
    if out.len() == 0 {
        out.push(0xffff_ffff);
        assert(out@ =~= seq![0xffff_ffffu32]);
    }
    out
}

/// There is always an address to query, none is queried twice, and every network of an `en*`
/// interface that is up is.
pub proof fn every_network_is_queried_once(is: Seq<InterfaceView>)
    ensures
        targets_view(is).len() > 0,
        targets_view(is).no_duplicates(),
        forall|i: int|
            0 <= i < is.len() ==> (query_address(#[trigger] is[i]) matches Some(a)
                ==> targets_view(is).contains(a)),
{
    lemma_addresses(is);
    assert forall|i: int| 0 <= i < is.len() implies (query_address(#[trigger] is[i]) matches Some(a)
        ==> targets_view(is).contains(a)) by {
        if query_address(is[i]) is Some {
            assert(query_addresses(is).contains(query_address(is[i])->0));
        }
    }
}

/// The addresses of the interfaces are all there, once.
proof fn lemma_addresses(is: Seq<InterfaceView>)
    ensures
        query_addresses(is).no_duplicates(),
        forall|i: int|
            0 <= i < is.len() && (query_address(#[trigger] is[i]) is Some) ==> query_addresses(
                is,
            ).contains(query_address(is[i])->0),
    decreases is.len(),
{
    if is.len() > 0 {
        let init = is.drop_last();
        let rest = query_addresses(init);
        let all = query_addresses(is);
        lemma_addresses(init);
        assert forall|a: u32| rest.contains(a) implies #[trigger] all.contains(a) by {
            let k = rest.index_of(a);
            assert(all[k] == a);
        }
        assert forall|i: int| 0 <= i < is.len() && (query_address(#[trigger] is[i])
            is Some) implies all.contains(query_address(is[i])->0) by {
            let a = query_address(is[i])->0;
            if i < init.len() {
                assert(init[i] == is[i]);
                assert(rest.contains(a));
            } else if !rest.contains(a) {
                assert(all[rest.len() as int] == a);
            }
        }
    }
}

// ---- what a datagram calls for ---------------------------------------------

/// What a datagram calls for.
#[derive(Debug)]
pub enum Datagram {
    /// Send this to the sender: a server is looking for clients.
    Answer(String),
    /// Remember a client, which takes control connections on this port of the sender's address.
    Found { id: String, name: String, port: u16 },
    /// Nothing.
    Ignore,
}

/// What a [`Datagram`] holds.
pub enum DatagramView {
    Answer(Json),
    Found { id: Seq<char>, name: Seq<char>, port: u16 },
    Ignore,
}

/// A client answers a query. A server remembers who replied, unless the reply is its own or
/// leaves out an id, a name or a port; a port is cut to 16 bits.
pub open spec fn called_for(node: NodeView, ctrl_port: u16, t: Json) -> DatagramView {
    if text_at(t, "t"@) == Some("q"@) && node.mode == "client"@ {
        DatagramView::Answer(beacon("r"@, node, ctrl_port))
    } else if text_at(t, "t"@) == Some("r"@) && node.mode == "server"@ {
        match (text_at(t, "id"@), text_at(t, "name"@), nat_at(t, "port"@)) {
            (Some(id), Some(name), Some(port)) => if id == node.id {
                DatagramView::Ignore
            } else {
                DatagramView::Found { id, name, port: port as u16 }
            },
            _ => DatagramView::Ignore,
        }
    } else {
        DatagramView::Ignore
    }
}

impl Datagram {
    /// This is what `v` says.
    pub open spec fn says(self, v: DatagramView) -> bool {
        match (self, v) {
            (Datagram::Answer(line), DatagramView::Answer(t)) => line@ == crate::json::written(t)
                && parsed(line@) == Some(t),
            (
                Datagram::Found { id, name, port },
                DatagramView::Found { id: id2, name: name2, port: port2 },
            ) => id@ == id2 && name@ == name2 && port == port2,
            (Datagram::Ignore, DatagramView::Ignore) => true,
            _ => false,
        }
    }
}

/// Decides what a message that came as a datagram calls for.
pub fn on_udp(node: &NodeInfo, ctrl_port: u16, v: &Value) -> (r: Datagram)
    ensures
        r.says(called_for(node@, ctrl_port, tree(*v))),
{
    proof {
        reveal_strlit("q");
        reveal_strlit("r");
        assert("q"@[0] != "r"@[0]);
        reveal_strlit("client");
        reveal_strlit("server");
        assert("client"@[0] != "server"@[0]);
    }
    if text_is(v, "t", "q") && node.mode.as_str().eq("client") {
        return Datagram::Answer(beacon_line("r", node, ctrl_port));
    }
    if text_is(v, "t", "r") && node.mode.as_str().eq("server") {
        match (text_field(v, "id"), text_field(v, "name"), nat_field(v, "port")) {
            (Some(id), Some(name), Some(port)) => {
                if !id.eq(node.id.as_str()) {
                    return Datagram::Found {
                        id: id.to_owned(),
                        name: name.to_owned(),
                        port: port as u16,
                    };
                }
            },
            _ => {},
        }
    }
    Datagram::Ignore
}

/// What the bytes of a datagram call for; those that are no JSON text call for nothing.
pub open spec fn bytes_call_for(node: NodeView, ctrl_port: u16, bytes: Seq<u8>) -> DatagramView {
    if valid_utf8(bytes) {
        match parsed(decode_utf8(bytes)) {
            Some(t) => called_for(node, ctrl_port, t),
            None => DatagramView::Ignore,
        }
    } else {
        DatagramView::Ignore
    }
}

/// Decides what a datagram calls for.
pub fn on_datagram(node: &NodeInfo, ctrl_port: u16, bytes: &[u8]) -> (r: Datagram)
    ensures
        r.says(bytes_call_for(node@, ctrl_port, bytes@)),
{
    match parse_bytes(bytes) {
        Some(v) => on_udp(node, ctrl_port, &v),
        None => Datagram::Ignore,
    }
}

/// The query that a server sends.
pub fn query_line(node: &NodeInfo, ctrl_port: u16) -> (r: String)
    ensures
        r@ == crate::json::written(beacon("q"@, node@, ctrl_port)),
        parsed(r@) == Some(beacon("q"@, node@, ctrl_port)),
{
    beacon_line("q", node, ctrl_port)
}

/// What a beacon says is read from it.
pub proof fn lemma_beacon(kind: Seq<char>, node: NodeView, port: u16)
    ensures
        text_at(beacon(kind, node, port), "t"@) == Some(kind),
        text_at(beacon(kind, node, port), "id"@) == Some(node.id),
        text_at(beacon(kind, node, port), "name"@) == Some(node.name),
        nat_at(beacon(kind, node, port), "port"@) == Some(port as u64),
{
    reveal_strlit("t");
    reveal_strlit("id");
    reveal_strlit("name");
    reveal_strlit("port");
    assert("t"@.len() == 1 && "id"@.len() == 2 && "name"@.len() == 4 && "port"@.len() == 4);
    assert("name"@[0] != "port"@[0]);
}

/// A server that queries a client learns that client's id, name and port from the answer.
pub proof fn query_finds_the_client(
    server: NodeView,
    client: NodeView,
    server_port: u16,
    client_port: u16,
)
    requires
        server.mode == "server"@,
        client.mode == "client"@,
        server.id != client.id,
    ensures
        called_for(client, client_port, beacon("q"@, server, server_port))
            == DatagramView::Answer(beacon("r"@, client, client_port)),
        called_for(server, server_port, beacon("r"@, client, client_port))
            == (DatagramView::Found { id: client.id, name: client.name, port: client_port }),
{
    lemma_beacon("q"@, server, server_port);
    lemma_beacon("r"@, client, client_port);
    reveal_strlit("q");
    reveal_strlit("r");
    assert("q"@[0] != "r"@[0]);
    assert((client_port as u64) as u16 == client_port);
}

/// Servers do not answer queries, and clients remember nobody.
pub proof fn roles_are_kept(node: NodeView, ctrl_port: u16, t: Json)
    ensures
        node.mode != "client"@ ==> !(called_for(node, ctrl_port, t) is Answer),
        node.mode != "server"@ ==> !(called_for(node, ctrl_port, t) is Found),
        called_for(node, ctrl_port, t) matches DatagramView::Found { id, .. } ==> id != node.id,
{
}

/// The interface is Wi-Fi or wired Ethernet in operation: its name begins with `en`, it is up, and
/// it is not the loopback.
pub open spec fn is_ethernet(i: InterfaceView) -> bool {
    i.up && !i.loopback && i.name.len() >= 2 && i.name[0] == 'e' && i.name[1] == 'n'
}

/// This address reaches everyone on the interface's network: it is the broadcast address that the
/// interface names, or, where it names none, the address of its network with every host bit set.
pub open spec fn reaches(v: V4, a: u32) -> bool {
    match v.broadcast {
        Some(b) => a == b,
        None => a & v.netmask == v.ip & v.netmask && a | v.netmask == 0xffff_ffff,
    }
}

/// An address reaches a network exactly where it is the one that is used for it.
proof fn lemma_reaches(v: V4, a: u32)
    ensures
        reaches(v, a) <==> a == reach(v),
{
    let ip = v.ip;
    let m = v.netmask;
    assert((a & m == ip & m && a | m == 0xffff_ffff) <==> a == (ip | !m)) by (bit_vector);
}

/// An interface has an address to query exactly where it is Ethernet with an IPv4 side.
proof fn lemma_query_address(i: InterfaceView)
    ensures
        query_address(i) == if is_ethernet(i) && i.v4 is Some {
            Some(reach(i.v4->0))
        } else {
            None
        },
{
    reveal_strlit("en");
    assert("en"@ =~= seq!['e', 'n']);
    if i.name.len() >= 2 {
        assert(i.name.take(2)[0] == i.name[0] && i.name.take(2)[1] == i.name[1]);
        if i.name[0] == 'e' && i.name[1] == 'n' {
            assert(i.name.take(2) =~= "en"@);
        }
    }
}

/// A query goes to every Ethernet network that this node is on.
pub proof fn every_ethernet_network_is_reached(is: Seq<InterfaceView>, i: int, a: u32)
    requires
        0 <= i < is.len(),
        is_ethernet(is[i]),
        is[i].v4 is Some,
        reaches(is[i].v4->0, a),
    ensures
        targets_view(is).contains(a),
{
    lemma_reaches(is[i].v4->0, a);
    lemma_query_address(is[i]);
    every_network_is_queried_once(is);
}

/// A query goes nowhere else: each address that it goes to reaches an Ethernet network of this
/// node, or is the limited broadcast, which is used only where the node is on no such network.
pub proof fn nothing_else_is_reached(is: Seq<InterfaceView>, a: u32)
    requires
        targets_view(is).contains(a),
    ensures
        (exists|i: int|
            0 <= i < is.len() && is_ethernet(#[trigger] is[i]) && is[i].v4 is Some && reaches(
                is[i].v4->0,
                a,
            )) || (a == 0xffff_ffff && forall|i: int|
            0 <= i < is.len() ==> !(is_ethernet(#[trigger] is[i]) && is[i].v4 is Some)),
{
    let qs = query_addresses(is);
    lemma_addresses(is);
    if qs.len() == 0 {
        assert forall|i: int| 0 <= i < is.len() implies !(is_ethernet(#[trigger] is[i]) && is[i].v4
            is Some) by {
            lemma_query_address(is[i]);
            if query_address(is[i]) is Some {
                assert(qs.contains(query_address(is[i])->0));
            }
        }
    } else {
        lemma_from_an_interface(is, a);
        let i = choose|i: int| 0 <= i < is.len() && query_address(#[trigger] is[i]) == Some(a);
        lemma_query_address(is[i]);
        lemma_reaches(is[i].v4->0, a);
        assert(is_ethernet(is[i]));
    }
}

/// Each address to query is that of some interface.
proof fn lemma_from_an_interface(is: Seq<InterfaceView>, a: u32)
    requires
        query_addresses(is).contains(a),
    ensures
        exists|i: int| 0 <= i < is.len() && query_address(#[trigger] is[i]) == Some(a),
    decreases is.len(),
{
    if is.len() > 0 {
        let init = is.drop_last();
        let rest = query_addresses(init);
        if rest.contains(a) {
            lemma_from_an_interface(init, a);
            let i = choose|i: int| 0 <= i < init.len() && query_address(#[trigger] init[i])
                == Some(a);
            assert(is[i] == init[i]);
        } else {
            let k = query_addresses(is).index_of(a);
            if k < rest.len() {
                assert(rest[k] == a);
            }
            assert(query_address(is[is.len() - 1]) == Some(a));
        }
    }
}

/// Networks are queried in the order of their interfaces: one interface more changes nothing before
/// the address that it adds.
pub proof fn networks_are_queried_in_order(is: Seq<InterfaceView>, i: InterfaceView)
    ensures
        ({
            let before = query_addresses(is);
            let after = query_addresses(is.push(i));
            &&& before.len() <= after.len() <= before.len() + 1
            &&& after.take(before.len() as int) == before
        }),
{
    assert(is.push(i).drop_last() =~= is);
    let before = query_addresses(is);
    assert(query_addresses(is.push(i)).take(before.len() as int) =~= before);
}

/// A client answers every query, whoever sends it and whatever else it says, with its own id, name
/// and port. A server takes every reply of another node that names an id, a name and a port at its
/// word. Nothing else calls for anything.
pub proof fn datagrams_are_taken_at_their_word(node: NodeView, ctrl_port: u16, t: Json)
    ensures
        ({
            let d = called_for(node, ctrl_port, t);
            let kind = entry_at(t, "t"@);
            let id = entry_at(t, "id"@);
            let name = entry_at(t, "name"@);
            let port = entry_at(t, "port"@);
            let asks = kind == Some(Json::Text("q"@)) && node.mode == "client"@;
            let tells = kind == Some(Json::Text("r"@)) && node.mode == "server"@ && id is Some
                && id->0 is Text && id->0->Text_0 != node.id && name is Some && name->0 is Text
                && port is Some && port->0 is Nat;
            &&& asks ==> d == DatagramView::Answer(beacon("r"@, node, ctrl_port))
            &&& tells ==> (d matches DatagramView::Found { id: i, name: n, port: p } && i
                == id->0->Text_0 && n == name->0->Text_0 && p == port->0->Nat_0 % 0x1_0000)
            &&& !asks && !tells ==> d is Ignore
        }),
{
    reveal_strlit("q");
    reveal_strlit("r");
    assert("q"@[0] != "r"@[0]);
    reveal_strlit("client");
    reveal_strlit("server");
    assert("client"@[0] != "server"@[0]);
    if let Some(Json::Nat(p)) = entry_at(t, "port"@) {
        assert(p as u16 == p % 0x1_0000) by (bit_vector);
    }
}

/// Bytes that are the UTF-8 of a JSON text are taken for that message, and any others for none.
pub proof fn unreadable_datagrams_are_ignored(node: NodeView, ctrl_port: u16, bytes: Seq<u8>)
    ensures
        valid_utf8(bytes) ==> (parsed(decode_utf8(bytes)) matches Some(t) ==> bytes_call_for(
            node,
            ctrl_port,
            bytes,
        ) == called_for(node, ctrl_port, t)),
        !valid_utf8(bytes) || parsed(decode_utf8(bytes)) is None ==> bytes_call_for(
            node,
            ctrl_port,
            bytes,
        ) is Ignore,
{
}

} // verus!
