//! The messages that nodes exchange: one JSON object each, told apart by its `t`.
use crate::json::{
    entry_at, from_list, lemma_plain, message, modest, parsed, plain, put, put_nat, put_text,
    read_back, tree, trees, with, render, written, Json,
};
use crate::model::NodeInfo;
use crate::model::NodeView;
use serde_json::Value;
use vstd::prelude::*;

verus! {

/// An object that says what message it is.
pub open spec fn tagged(kind: Seq<char>) -> Json {
    with(Json::Null, "t"@, Json::Text(kind))
}

/// A query (`q`) or its reply (`r`): who sends it, and the port on which the sender takes control
/// connections.
pub open spec fn beacon(kind: Seq<char>, node: NodeView, port: u16) -> Json {
    with(
        with(
            with(tagged(kind), "id"@, Json::Text(node.id)),
            "name"@,
            Json::Text(node.name),
        ),
        "port"@,
        Json::Nat(port as u64),
    )
}

/// A server's greeting to a client that it is paired with.
pub open spec fn hello(id: Seq<char>, secret: Seq<char>) -> Json {
    with(with(tagged("hello"@), "id"@, Json::Text(id)), "secret"@, Json::Text(secret))
}

/// A server's invitation to pair.
pub open spec fn invitation(node: NodeView, msg: Seq<char>) -> Json {
    with(
        with(with(tagged("invite"@), "id"@, Json::Text(node.id)), "name"@, Json::Text(node.name)),
        "msg"@,
        Json::Text(msg),
    )
}

/// A client's acceptance, with the secret that later messages carry.
pub open spec fn acceptance(node: NodeView, secret: Seq<char>) -> Json {
    with(
        with(with(tagged("accept"@), "id"@, Json::Text(node.id)), "name"@, Json::Text(node.name)),
        "secret"@,
        Json::Text(secret),
    )
}

/// A client's refusal of an invitation.
pub open spec fn refusal(id: Seq<char>) -> Json {
    with(tagged("decline"@), "id"@, Json::Text(id))
}

/// A client's answer to a greeting that it does not trust.
pub open spec fn rejection() -> Json {
    tagged("reject"@)
}

/// A server's assignment of targets.
pub open spec fn assignment(secret: Seq<char>, targets: Seq<Json>) -> Json {
    with(
        with(tagged("assign"@), "secret"@, Json::Text(secret)),
        "targets"@,
        Json::List(targets),
    )
}

/// A client's report.
pub open spec fn report(secret: Seq<char>, node: NodeView, results: Seq<Json>) -> Json {
    with(
        with(
            with(
                with(tagged("report"@), "secret"@, Json::Text(secret)),
                "id"@,
                Json::Text(node.id),
            ),
            "name"@,
            Json::Text(node.name),
        ),
        "results"@,
        Json::List(results),
    )
}

/// An entry without fractions added to an object without fractions leaves it so.
pub proof fn lemma_plain_with(t: Json, key: Seq<char>, x: Json, depth: nat)
    requires
        plain(t, depth),
        t is Object || t is Null,
        depth > 0,
        plain(x, (depth - 1) as nat),
    ensures
        plain(with(t, key, x), depth),
        with(t, key, x) is Object,
{
    match t {
        Json::Object(m) => {
            let w = m.insert(key, x);
            assert forall|k: Seq<char>| w.dom().contains(k) implies plain(
                #[trigger] w[k],
                (depth - 1) as nat,
            ) by {
                if k != key {
                    assert(m.dom().contains(k));
                    assert(plain(m[k], (depth - 1) as nat));
                }
            }
        },
        _ => {
            let e = Map::<Seq<char>, Json>::empty();
            let w = e.insert(key, x);
            assert forall|k: Seq<char>| w.dom().contains(k) implies plain(
                #[trigger] w[k],
                (depth - 1) as nat,
            ) by {
                assert(k == key);
            }
        },
    }
}

/// What is plain to some depth is plain to any greater.
pub proof fn lemma_plain_deeper(t: Json, shallow: nat, deep: nat)
    requires
        plain(t, shallow),
        shallow <= deep,
    ensures
        plain(t, deep),
    decreases shallow,
{
    match t {
        Json::List(s) => {
            assert forall|i: int| 0 <= i < s.len() implies plain(
                #[trigger] s[i],
                (deep - 1) as nat,
            ) by {
                assert(plain(s[i], (shallow - 1) as nat));
                lemma_plain_deeper(s[i], (shallow - 1) as nat, (deep - 1) as nat);
            }
        },
        Json::Object(m) => {
            assert forall|k: Seq<char>| m.dom().contains(k) implies plain(
                #[trigger] m[k],
                (deep - 1) as nat,
            ) by {
                assert(plain(m[k], (shallow - 1) as nat));
                lemma_plain_deeper(m[k], (shallow - 1) as nat, (deep - 1) as nat);
            }
        },
        _ => {},
    }
}

/// A message of this kind, with nothing else in it.
fn start(kind: &str) -> (r: Value)
    ensures
        tree(r) == tagged(kind@),
        tree(r) is Object,
        plain(tree(r), 1),
{
    proof {
        lemma_plain_with(Json::Null, "t"@, Json::Text(kind@), 1);
    }
    message(kind)
}

/// A message with a text more.
fn and_text(v: Value, key: &str, s: &str) -> (r: Value)
    requires
        tree(v) is Object,
    ensures
        tree(r) == with(tree(v), key@, Json::Text(s@)),
        tree(r) is Object,
        plain(tree(v), 1) ==> plain(tree(r), 1),
{
    let mut r = v;
    put_text(&mut r, key, s);
    proof {
        if plain(tree(v), 1) {
            lemma_plain_with(tree(v), key@, Json::Text(s@), 1);
        }
    }
    r
}

/// A message with a natural number more.
fn and_nat(v: Value, key: &str, n: u64) -> (r: Value)
    requires
        tree(v) is Object,
    ensures
        tree(r) == with(tree(v), key@, Json::Nat(n)),
        tree(r) is Object,
        plain(tree(v), 1) ==> plain(tree(r), 1),
{
    let mut r = v;
    put_nat(&mut r, key, n);
    proof {
        if plain(tree(v), 1) {
            lemma_plain_with(tree(v), key@, Json::Nat(n), 1);
        }
    }
    r
}

/// The line that a message without fractions is sent as, which is read back as the message.
fn line(v: &Value) -> (r: String)
    requires
        plain(tree(*v), 3),
    ensures
        r@ == written(tree(*v)),
        parsed(r@) == Some(tree(*v)),
{
    let r = render(v);
    proof {
        lemma_plain_deeper(tree(*v), 3, 64);
        lemma_plain(tree(*v), parsed(r@)->0, 64);
    }
    r
}

/// The line of a query or of its reply.
pub fn beacon_line(kind: &str, node: &NodeInfo, port: u16) -> (r: String)
    ensures
        r@ == written(beacon(kind@, node@, port)),
        parsed(r@) == Some(beacon(kind@, node@, port)),
{
    let v = and_text(start(kind), "id", node.id.as_str());
    let v = and_text(v, "name", node.name.as_str());
    let v = and_nat(v, "port", port as u64);
    proof {
        lemma_plain_deeper(tree(v), 1, 3);
    }
    line(&v)
}

/// The line of a greeting.
pub fn hello_line(id: &str, secret: &str) -> (r: String)
    ensures
        r@ == written(hello(id@, secret@)),
        parsed(r@) == Some(hello(id@, secret@)),
{
    let v = and_text(and_text(start("hello"), "id", id), "secret", secret);
    proof {
        lemma_plain_deeper(tree(v), 1, 3);
    }
    line(&v)
}

/// The line of an invitation.
pub fn invite_line(node: &NodeInfo, msg: &str) -> (r: String)
    ensures
        r@ == written(invitation(node@, msg@)),
        parsed(r@) == Some(invitation(node@, msg@)),
{
    let v = and_text(start("invite"), "id", node.id.as_str());
    let v = and_text(v, "name", node.name.as_str());
    let v = and_text(v, "msg", msg);
    proof {
        lemma_plain_deeper(tree(v), 1, 3);
    }
    line(&v)
}

/// The line of an acceptance.
pub fn accept_line(node: &NodeInfo, secret: &str) -> (r: String)
    ensures
        r@ == written(acceptance(node@, secret@)),
        parsed(r@) == Some(acceptance(node@, secret@)),
{
    let v = and_text(start("accept"), "id", node.id.as_str());
    let v = and_text(v, "name", node.name.as_str());
    let v = and_text(v, "secret", secret);
    proof {
        lemma_plain_deeper(tree(v), 1, 3);
    }
    line(&v)
}

/// The line of a refusal.
pub fn decline_line(id: &str) -> (r: String)
    ensures
        r@ == written(refusal(id@)),
        parsed(r@) == Some(refusal(id@)),
{
    let v = and_text(start("decline"), "id", id);
    proof {
        lemma_plain_deeper(tree(v), 1, 3);
    }
    line(&v)
}

/// The line of a rejection.
pub fn reject_line() -> (r: String)
    ensures
        r@ == written(rejection()),
        parsed(r@) == Some(rejection()),
{
    let v = start("reject");
    proof {
        lemma_plain_deeper(tree(v), 1, 3);
    }
    line(&v)
}

/// The line of an assignment.
pub fn assign_line(secret: &str, targets: Vec<Value>) -> (r: String)
    ensures
        r@ == written(assignment(secret@, trees(targets@))),
        (forall|i: int| 0 <= i < targets@.len() ==> plain(tree(#[trigger] targets@[i]), 1))
            ==> parsed(r@) == Some(assignment(secret@, trees(targets@))),
{
    let ghost items = trees(targets@);
    let mut v = and_text(start("assign"), "secret", secret);
    let ghost head = tree(v);
    put(&mut v, "targets", from_list(targets));
    proof {
        if forall|i: int| 0 <= i < targets@.len() ==> plain(tree(#[trigger] targets@[i]), 1) {
            assert forall|i: int| 0 <= i < items.len() implies plain(#[trigger] items[i], 1) by {
                assert(items[i] == tree(targets@[i]));
            }
            assert(plain(Json::List(items), 2));
            lemma_plain_deeper(head, 1, 3);
            lemma_plain_with(head, "targets"@, Json::List(items), 3);
            lemma_plain_deeper(tree(v), 3, 64);
            lemma_plain(tree(v), parsed(written(tree(v)))->0, 64);
        }
    }
    render(&v)
}

/// The line of a report. Where its numbers are well inside the range of doubles, it is read back
/// but for the last digits of those with a fraction.
pub fn report_line(secret: &str, node: &NodeInfo, results: Vec<Value>) -> (r: String)
    ensures
        r@ == written(report(secret@, node@, trees(results@))),
        (forall|i: int| 0 <= i < results@.len() ==> modest(tree(#[trigger] results@[i]), 1))
            ==> read_back(report(secret@, node@, trees(results@)), parsed(r@)),
{
    let ghost items = trees(results@);
    let v = and_text(start("report"), "secret", secret);
    let v = and_text(v, "id", node.id.as_str());
    let mut v = and_text(v, "name", node.name.as_str());
    let ghost head = tree(v);
    put(&mut v, "results", from_list(results));
    proof {
        if forall|i: int| 0 <= i < results@.len() ==> modest(tree(#[trigger] results@[i]), 1) {
            assert forall|i: int| 0 <= i < items.len() implies modest(#[trigger] items[i], 62) by {
                assert(items[i] == tree(results@[i]));
                lemma_modest_deeper(items[i], 1, 62);
            }
            assert(modest(Json::List(items), 63));
            lemma_plain_deeper(head, 1, 64);
            lemma_plain(head, head, 64);
            lemma_modest_with(head, "results"@, Json::List(items), 64);
        }
    }
    render(&v)
}

/// What is modest to some depth is modest to any greater.
pub proof fn lemma_modest_deeper(t: Json, shallow: nat, deep: nat)
    requires
        modest(t, shallow),
        shallow <= deep,
    ensures
        modest(t, deep),
    decreases shallow,
{
    match t {
        Json::List(s) => {
            assert forall|i: int| 0 <= i < s.len() implies modest(
                #[trigger] s[i],
                (deep - 1) as nat,
            ) by {
                assert(modest(s[i], (shallow - 1) as nat));
                lemma_modest_deeper(s[i], (shallow - 1) as nat, (deep - 1) as nat);
            }
        },
        Json::Object(m) => {
            assert forall|k: Seq<char>| m.dom().contains(k) implies modest(
                #[trigger] m[k],
                (deep - 1) as nat,
            ) by {
                assert(modest(m[k], (shallow - 1) as nat));
                lemma_modest_deeper(m[k], (shallow - 1) as nat, (deep - 1) as nat);
            }
        },
        _ => {},
    }
}

/// A modest entry added to a modest object leaves it so.
pub proof fn lemma_modest_with(t: Json, key: Seq<char>, x: Json, depth: nat)
    requires
        modest(t, depth),
        t is Object || t is Null,
        depth > 0,
        modest(x, (depth - 1) as nat),
    ensures
        modest(with(t, key, x), depth),
        with(t, key, x) is Object,
{
    let m = match t {
        Json::Object(m) => m,
        _ => Map::<Seq<char>, Json>::empty(),
    };
    let w = m.insert(key, x);
    assert(with(t, key, x) == Json::Object(w));
    assert forall|k: Seq<char>| w.dom().contains(k) implies modest(
        #[trigger] w[k],
        (depth - 1) as nat,
    ) by {
        if k != key {
            assert(m.dom().contains(k));
            assert(modest(m[k], (depth - 1) as nat));
        }
    }
}

// ---- laws ------------------------------------------------------------------

/// The keys of the messages are told apart.
proof fn lemma_message_keys()
    ensures
        "t"@ != "id"@,
        "t"@ != "name"@,
        "t"@ != "port"@,
        "t"@ != "msg"@,
        "t"@ != "secret"@,
        "t"@ != "targets"@,
        "t"@ != "results"@,
        "id"@ != "name"@,
        "id"@ != "port"@,
        "id"@ != "msg"@,
        "id"@ != "secret"@,
        "id"@ != "results"@,
        "name"@ != "port"@,
        "name"@ != "msg"@,
        "name"@ != "secret"@,
        "name"@ != "results"@,
        "port"@ != "secret"@,
        "msg"@ != "secret"@,
        "secret"@ != "targets"@,
        "secret"@ != "results"@,
{
    reveal_strlit("t");
    reveal_strlit("id");
    reveal_strlit("name");
    reveal_strlit("port");
    reveal_strlit("msg");
    reveal_strlit("secret");
    reveal_strlit("targets");
    reveal_strlit("results");
    assert("t"@.len() == 1 && "id"@.len() == 2 && "name"@.len() == 4 && "port"@.len() == 4
        && "msg"@.len() == 3 && "secret"@.len() == 6 && "targets"@.len() == 7 && "results"@.len()
        == 7);
    assert("name"@[0] != "port"@[0]);
}

/// What nodes say to find each other has the kind, the sender's id and name, and its port.
pub proof fn beacons_say_who_sends_them(kind: Seq<char>, node: NodeView, port: u16)
    ensures
        entry_at(beacon(kind, node, port), "t"@) == Some(Json::Text(kind)),
        entry_at(beacon(kind, node, port), "id"@) == Some(Json::Text(node.id)),
        entry_at(beacon(kind, node, port), "name"@) == Some(Json::Text(node.name)),
        entry_at(beacon(kind, node, port), "port"@) == Some(Json::Nat(port as u64)),
        entry_at(beacon(kind, node, port), "secret"@) is None,
{
    lemma_message_keys();
}

/// What a server says first has its id; a greeting also the secret, an invitation also its name and
/// what the user wrote. An invitation shows no secret.
pub proof fn servers_say_who_they_are(
    id: Seq<char>,
    secret: Seq<char>,
    node: NodeView,
    msg: Seq<char>,
)
    ensures
        entry_at(hello(id, secret), "t"@) == Some(Json::Text("hello"@)),
        entry_at(hello(id, secret), "id"@) == Some(Json::Text(id)),
        entry_at(hello(id, secret), "secret"@) == Some(Json::Text(secret)),
        entry_at(invitation(node, msg), "t"@) == Some(Json::Text("invite"@)),
        entry_at(invitation(node, msg), "id"@) == Some(Json::Text(node.id)),
        entry_at(invitation(node, msg), "name"@) == Some(Json::Text(node.name)),
        entry_at(invitation(node, msg), "msg"@) == Some(Json::Text(msg)),
        entry_at(invitation(node, msg), "secret"@) is None,
{
    lemma_message_keys();
}

/// What a client replies has its kind; an acceptance also its id, its name and the secret, a
/// refusal its id and no secret, a rejection nothing else.
pub proof fn clients_say_what_they_decide(node: NodeView, secret: Seq<char>, id: Seq<char>)
    ensures
        entry_at(acceptance(node, secret), "t"@) == Some(Json::Text("accept"@)),
        entry_at(acceptance(node, secret), "id"@) == Some(Json::Text(node.id)),
        entry_at(acceptance(node, secret), "name"@) == Some(Json::Text(node.name)),
        entry_at(acceptance(node, secret), "secret"@) == Some(Json::Text(secret)),
        entry_at(refusal(id), "t"@) == Some(Json::Text("decline"@)),
        entry_at(refusal(id), "id"@) == Some(Json::Text(id)),
        entry_at(refusal(id), "secret"@) is None,
        entry_at(rejection(), "t"@) == Some(Json::Text("reject"@)),
        entry_at(rejection(), "id"@) is None,
        entry_at(rejection(), "secret"@) is None,
{
    lemma_message_keys();
}

/// What paired nodes say has its kind and the secret: an assignment also the targets, a report also
/// the client's id and name and the results.
pub proof fn paired_nodes_show_the_secret(secret: Seq<char>, node: NodeView, items: Seq<Json>)
    ensures
        entry_at(assignment(secret, items), "t"@) == Some(Json::Text("assign"@)),
        entry_at(assignment(secret, items), "secret"@) == Some(Json::Text(secret)),
        entry_at(assignment(secret, items), "targets"@) == Some(Json::List(items)),
        entry_at(report(secret, node, items), "t"@) == Some(Json::Text("report"@)),
        entry_at(report(secret, node, items), "secret"@) == Some(Json::Text(secret)),
        entry_at(report(secret, node, items), "id"@) == Some(Json::Text(node.id)),
        entry_at(report(secret, node, items), "name"@) == Some(Json::Text(node.name)),
        entry_at(report(secret, node, items), "results"@) == Some(Json::List(items)),
{
    lemma_message_keys();
}

} // verus!
