use serde_json::Value;
use speed_daemon::assign::{apply_assignment, assign_id, build_assignment, read_wanted, Local};
use speed_daemon::config::{default_config, target};
use speed_daemon::discovery::{
    discovery_targets, on_datagram, on_udp, query_line, Datagram, Interface, DISCO_PORT, V4,
};
use speed_daemon::link::{ClientAct, ClientLink, ClientStage, ServerAct, ServerLink};
use speed_daemon::model::{AppConfig, NodeInfo, Peer, Target};
use speed_daemon::net::{build_report, report_window, Measured, Net};
use speed_daemon::pairing::{
    accept_with, answer_invite, invite_event, on_first_line, on_invite_line, on_server_line,
    opening_line, peer_by_id, result_event, upsert_peer, Opening, Outcome,
};
use speed_daemon::wire::{
    accept_line, assign_line, decline_line, hello_line, invite_line, reject_line, report_line,
};
use std::collections::hash_map::DefaultHasher;
use std::hash::{Hash, Hasher};

fn json(s: &str) -> Value {
    serde_json::from_str(s).unwrap()
}

fn node(id: &str, name: &str, mode: &str) -> NodeInfo {
    NodeInfo { id: id.to_string(), name: name.to_string(), mode: mode.to_string() }
}

fn peer(id: &str, secret: &str, role: &str, addr: Option<&str>) -> Peer {
    Peer {
        id: id.to_string(),
        name: format!("name of {id}"),
        secret: secret.to_string(),
        role: role.to_string(),
        addr: addr.map(|a| a.to_string()),
    }
}

fn config(n: NodeInfo, targets: Vec<Target>) -> AppConfig {
    let mut c = default_config();
    c.node = n;
    c.targets = targets;
    c
}

fn hashed(t: &Target, ts: u64) -> u32 {
    let mut h = DefaultHasher::new();
    t.host.hash(&mut h);
    t.tag.hash(&mut h);
    t.interval_ms.hash(&mut h);
    t.label.hash(&mut h);
    ts.hash(&mut h);
    h.finish() as u32
}

fn pairs(ls: &[Local]) -> Vec<(u32, &str, u64)> {
    ls.iter().map(|l| (l.id, l.local.as_str(), l.interval_ms)).collect()
}

// ---- messages --------------------------------------------------------------

#[test]
fn messages_are_json_objects() {
    let n = node("n1", "den", "server");
    assert_eq!(json(&hello_line("n1", "s\"x")), json(r#"{"t":"hello","id":"n1","secret":"s\"x"}"#));
    assert_eq!(
        json(&invite_line(&n, "hi")),
        json(r#"{"t":"invite","id":"n1","name":"den","msg":"hi"}"#)
    );
    assert_eq!(
        json(&accept_line(&n, "s")),
        json(r#"{"t":"accept","id":"n1","name":"den","secret":"s"}"#)
    );
    assert_eq!(json(&decline_line("n1")), json(r#"{"t":"decline","id":"n1"}"#));
    assert_eq!(json(&reject_line()), json(r#"{"t":"reject"}"#));
    assert_eq!(reject_line(), r#"{"t":"reject"}"#);
    assert_eq!(
        json(&assign_line("s", vec![json(r#"{"id":1}"#)])),
        json(r#"{"t":"assign","secret":"s","targets":[{"id":1}]}"#)
    );
    assert_eq!(
        json(&report_line("s", &n, vec![json("1.5")])),
        json(r#"{"t":"report","secret":"s","id":"n1","name":"den","results":[1.5]}"#)
    );
    assert_eq!(
        json(&query_line(&n, 81)),
        json(r#"{"t":"q","id":"n1","name":"den","port":81}"#)
    );
}

#[test]
fn the_user_is_shown_invitations_and_their_results() {
    assert_eq!(
        invite_event("s1", "den", "please"),
        json(r#"{"fromId":"s1","fromName":"den","msg":"please"}"#)
    );
    assert_eq!(result_event(None), json(r#"{"accepted":false}"#));
    assert_eq!(result_event(Some("den")), json(r#"{"accepted":true,"name":"den"}"#));
}

// ---- discovery -------------------------------------------------------------

fn face(name: &str, loopback: bool, v4: Option<V4>) -> Interface {
    Interface { name: name.to_string(), up: true, loopback, v4 }
}

#[test]
fn each_network_is_queried_once() {
    let v = |ip: u32, netmask: u32, broadcast: Option<u32>| Some(V4 { ip, netmask, broadcast });
    let faces = vec![
        face("lo0", true, v(0x7f00_0001, 0xff00_0000, None)),
        face("en0", false, v(0xc0a8_0105, 0xffff_ff00, None)),
        face("en1", false, v(0xc0a8_0106, 0xffff_ff00, Some(0xc0a8_01ff))),
        face("utun0", false, v(0x0a00_0001, 0xffff_ff00, None)),
        face("en2", false, None),
        face("en3", true, v(0x0a00_0001, 0xffff_ff00, None)),
        face("en4", false, v(0x0a01_0203, 0xffff_0000, None)),
    ];
    assert_eq!(discovery_targets(&faces), vec![0xc0a8_01ff, 0x0a01_ffff]);
    assert_eq!(DISCO_PORT, 51900);
}

#[test]
fn an_interface_that_is_down_is_not_queried() {
    let v = |ip: u32| Some(V4 { ip, netmask: 0xffff_ff00, broadcast: None });
    let mut down = face("en0", false, v(0xc0a8_0105));
    down.up = false;
    let faces = vec![down, face("en1", false, v(0x0a00_0001))];
    assert_eq!(discovery_targets(&faces), vec![0x0a00_00ff]);
    assert_eq!(discovery_targets(&faces[..1].iter().map(copy_of).collect()), vec![0xffff_ffff]);
}

fn copy_of(i: &Interface) -> Interface {
    Interface { name: i.name.clone(), up: i.up, loopback: i.loopback, v4: i.v4 }
}

#[test]
fn without_a_network_the_limited_broadcast_is_queried() {
    assert_eq!(discovery_targets(&vec![]), vec![0xffff_ffff]);
    assert_eq!(discovery_targets(&vec![face("eth0", false, None)]), vec![0xffff_ffff]);
}

#[test]
fn a_query_finds_the_client() {
    let server = node("s", "server room", "server");
    let client = node("c", "den", "client");
    let query = query_line(&server, 1);
    let answer = match on_datagram(&client, 4000, query.as_bytes()) {
        Datagram::Answer(line) => line,
        other => panic!("{other:?}"),
    };
    assert_eq!(json(&answer), json(r#"{"t":"r","id":"c","name":"den","port":4000}"#));
    match on_datagram(&server, 1, answer.as_bytes()) {
        Datagram::Found { id, name, port } => {
            assert_eq!((id.as_str(), name.as_str(), port), ("c", "den", 4000));
        }
        other => panic!("{other:?}"),
    }
}

#[test]
fn datagrams_that_call_for_nothing() {
    let server = node("s", "server room", "server");
    let client = node("c", "den", "client");
    let ignored = |n: &NodeInfo, s: &str| matches!(on_udp(n, 1, &json(s)), Datagram::Ignore);
    assert!(ignored(&server, r#"{"t":"q","id":"x","name":"y","port":1}"#));
    assert!(ignored(&client, r#"{"t":"r","id":"x","name":"y","port":1}"#));
    assert!(ignored(&server, r#"{"t":"r","id":"s","name":"y","port":1}"#));
    assert!(ignored(&server, r#"{"t":"r","name":"y","port":1}"#));
    assert!(ignored(&server, r#"{"t":"r","id":"x","port":1}"#));
    assert!(ignored(&server, r#"{"t":"r","id":"x","name":"y"}"#));
    assert!(ignored(&server, r#"{"t":"r","id":"x","name":"y","port":-1}"#));
    assert!(ignored(&server, r#"{"t":7}"#));
    assert!(ignored(&server, r#"[1]"#));
    assert!(matches!(on_datagram(&client, 1, b"no json"), Datagram::Ignore));
    assert!(matches!(on_datagram(&client, 1, &[0x22, 0xff, 0x22]), Datagram::Ignore));
    match on_udp(&server, 1, &json(r#"{"t":"r","id":"x","name":"y","port":65537}"#)) {
        Datagram::Found { port, .. } => assert_eq!(port, 1),
        other => panic!("{other:?}"),
    }
}

// ---- assignments -----------------------------------------------------------

#[test]
fn an_assigned_id_is_a_hash_of_the_configuration() {
    let mut t = target("a", "label", "10.0.0.1", "wifi");
    for ts in [0u64, 1, 1_700_000_000_000, u64::MAX] {
        assert_eq!(assign_id(&t, ts), hashed(&t, ts));
    }
    t.interval_ms = 0x0102_0304_0506_0708;
    t.label = "größer".to_string();
    assert_eq!(assign_id(&t, 7), hashed(&t, 7));
    assert_ne!(assign_id(&t, 7), assign_id(&t, 8));
}

#[test]
fn an_assignment_lists_and_remembers() {
    let ts = vec![
        target("a", "A", "10.0.0.1", "wifi"),
        target("b", "B", "10.0.0.2", "isp"),
        target("c", "A", "10.0.0.1", "wifi"),
    ];
    let (list, map) = build_assignment(&ts, 5);
    assert_eq!(list.len(), 3);
    let id = hashed(&ts[1], 5);
    assert_eq!(
        list[1],
        json(&format!(
            r#"{{"id":{id},"host":"10.0.0.2","tag":"isp","label":"B","intervalMs":1000}}"#
        ))
    );
    assert_eq!(map.len(), 2);
    assert_eq!(map[1].id, id);
    assert_eq!(
        (map[1].host.as_str(), map[1].tag.as_str(), map[1].label.as_str()),
        ("10.0.0.2", "isp", "B")
    );
    let w = read_wanted(&list[1]);
    assert_eq!((w.id, w.host.as_str(), w.interval_ms), (id, "10.0.0.2", 1000));
}

#[test]
fn what_an_entry_leaves_out_has_a_default() {
    let w = read_wanted(&json(r#"{"host":"h"}"#));
    assert_eq!(
        (w.id, w.host.as_str(), w.tag.as_str(), w.label.as_str(), w.interval_ms),
        (0, "h", "internet", "h", 1000)
    );
    let w = read_wanted(&json(r#"{"id":4294967298,"host":5,"tag":"x","intervalMs":-1}"#));
    assert_eq!(
        (w.id, w.host.as_str(), w.tag.as_str(), w.label.as_str(), w.interval_ms),
        (2, "", "x", "", 1000)
    );
}

#[test]
fn an_assignment_reuses_and_adds() {
    let mut mine = target("mine", "Mine", "10.0.0.1", "wifi");
    mine.interval_ms = 5000;
    let mut c = config(node("c", "den", "client"), vec![mine]);
    let v = json(
        r#"{"targets":[
            {"id":1,"host":"10.0.0.1","intervalMs":1000},
            {"id":2748,"host":"example.org","tag":"isp","label":"L","intervalMs":2000},
            {"id":3,"host":""},
            {"id":4,"host":"example.org","intervalMs":9000},
            {"id":1,"host":"example.org"}]}"#,
    );
    let out = apply_assignment(&mut c, &v);
    assert_eq!(c.targets.len(), 2);
    assert_eq!(c.targets[0].id, "mine");
    let t = &c.targets[1];
    assert_eq!(
        (t.id.as_str(), t.label.as_str(), t.host.as_str(), t.tag.as_str(), t.interval_ms),
        ("asg-00000abc", "L", "example.org", "isp", 2000)
    );
    assert_eq!(
        pairs(&out),
        vec![
            (1, "asg-00000abc", 2000),
            (2748, "asg-00000abc", 2000),
            (4, "asg-00000abc", 2000)
        ]
    );
    let again = apply_assignment(&mut c, &v);
    assert_eq!(c.targets.len(), 2);
    assert_eq!(pairs(&again), pairs(&out));
}

#[test]
fn an_assignment_without_a_list_changes_nothing() {
    let mut c = config(node("c", "den", "client"), vec![]);
    assert!(apply_assignment(&mut c, &json(r#"{"t":"assign"}"#)).is_empty());
    assert!(apply_assignment(&mut c, &json(r#"{"targets":7}"#)).is_empty());
    assert!(c.targets.is_empty());
}

// ---- pairing ---------------------------------------------------------------

#[test]
fn peers_are_found_and_replaced_by_id() {
    let mut c = config(node("c", "den", "client"), vec![]);
    upsert_peer(&mut c, peer("a", "1", "server", None));
    upsert_peer(&mut c, peer("b", "2", "server", None));
    upsert_peer(&mut c, peer("a", "3", "server", None));
    assert_eq!(c.peers.len(), 2);
    assert_eq!(peer_by_id(&c.peers, "a").unwrap().secret, "3");
    assert_eq!(c.peers[0].id, "a");
    assert!(peer_by_id(&c.peers, "z").is_none());
}

#[test]
fn a_greeting_with_the_secret_is_trusted() {
    let peers = vec![peer("s", "abc", "server", None), peer("e", "", "server", None)];
    let said = |line: &str| on_first_line(&peers, line);
    match said(&hello_line("s", "abc")) {
        Opening::Trusted(secret) => assert_eq!(secret, "abc"),
        other => panic!("{other:?}"),
    }
    for line in [
        hello_line("s", "abd"),
        hello_line("s", ""),
        hello_line("e", ""),
        hello_line("x", "abc"),
        r#"{"t":"hello","id":"s"}"#.to_string(),
        r#"{"t":"hello","secret":"abc"}"#.to_string(),
    ] {
        match said(&line) {
            Opening::Rejected(r) => assert_eq!(r, r#"{"t":"reject"}"#),
            other => panic!("{other:?}"),
        }
    }
    assert!(matches!(said("not json"), Opening::Closed));
    assert!(matches!(said(r#"{"t":"assign"}"#), Opening::Closed));
}

#[test]
fn an_invitation_is_put_to_the_user() {
    let server = node("s", "server room", "server");
    match on_first_line(&vec![], &opening_line(&server, &None, "join us")) {
        Opening::Invited { id, name, msg } => {
            assert_eq!((id.as_str(), name.as_str(), msg.as_str()), ("s", "server room", "join us"));
        }
        other => panic!("{other:?}"),
    }
    match on_first_line(&vec![], r#"{"t":"invite"}"#) {
        Opening::Invited { id, name, msg } => assert_eq!(format!("{id}{name}{msg}"), ""),
        other => panic!("{other:?}"),
    }
}

#[test]
fn accepting_remembers_the_server() {
    let mut c = config(node("c", "den", "client"), vec![]);
    let me = c.node.clone();
    let line = accept_with(&mut c, &me, "s".to_string(), "room".to_string(), "k", "10.0.0.9:5");
    assert_eq!(json(&line), json(r#"{"t":"accept","id":"c","name":"den","secret":"k"}"#));
    let p = &c.peers[0];
    assert_eq!(
        (p.id.as_str(), p.name.as_str(), p.secret.as_str(), p.role.as_str(), p.addr.as_deref()),
        ("s", "room", "k", "server", Some("10.0.0.9:5"))
    );
}

#[test]
fn answers_draw_a_fresh_secret() {
    let me = node("c", "den", "client");
    let mut c = config(me.clone(), vec![]);
    let d = answer_invite(&mut c, &me, true, "s".to_string(), "room".to_string(), "a");
    let secret = d.secret.unwrap();
    assert_eq!(secret.len(), 32);
    assert_eq!(c.peers[0].secret, secret);
    let e = answer_invite(&mut c, &me, true, "s".to_string(), "room".to_string(), "a");
    assert_ne!(e.secret.unwrap(), secret);
    let n = c.peers.len();
    let d = answer_invite(&mut c, &me, false, "x".to_string(), "y".to_string(), "a");
    assert!(d.secret.is_none());
    assert_eq!(json(&d.line), json(r#"{"t":"decline","id":"c"}"#));
    assert_eq!(c.peers.len(), n);
}

#[test]
fn only_an_acceptance_pairs() {
    match on_invite_line(&accept_line(&node("c", "den", "client"), "k"), "10.0.0.7:9") {
        Outcome::Paired(p) => {
            assert_eq!(
                (p.id.as_str(), p.name.as_str(), p.secret.as_str(), p.role.as_str()),
                ("c", "den", "k", "client")
            );
            assert_eq!(p.addr.as_deref(), Some("10.0.0.7:9"));
        }
        other => panic!("{other:?}"),
    }
    match on_invite_line(r#"{"t":"accept"}"#, "a") {
        Outcome::Paired(p) => assert_eq!(format!("{}{}{}", p.id, p.name, p.secret), ""),
        other => panic!("{other:?}"),
    }
    assert!(matches!(on_invite_line(&decline_line("c"), "a"), Outcome::Refused));
    assert!(matches!(on_invite_line("7", "a"), Outcome::Refused));
    assert!(matches!(on_invite_line("{", "a"), Outcome::Silent));
}

#[test]
fn an_assignment_needs_the_secret() {
    let mut c = config(node("c", "den", "client"), vec![]);
    let (list, _) = build_assignment(&vec![target("a", "A", "10.0.0.1", "wifi")], 5);
    let line = assign_line("k", list);
    assert!(on_server_line(&mut c, "other", &line).is_none());
    assert!(on_server_line(&mut c, "k", "nothing").is_none());
    assert!(on_server_line(&mut c, "k", r#"{"t":"assign"}"#).is_none());
    assert!(c.targets.is_empty());
    let out = on_server_line(&mut c, "k", &line).unwrap();
    assert_eq!(out.len(), 1);
    assert_eq!(c.targets[0].host, "10.0.0.1");
}

// ---- the node --------------------------------------------------------------

#[test]
fn found_clients_are_listed_and_invited() {
    let mut n: Net<u8, u8> = Net::new();
    assert!(n.discovered_list().is_empty());
    n.found("c".to_string(), "old".to_string(), "10.0.0.7:1".to_string(), 5);
    n.found("d".to_string(), "D".to_string(), "10.0.0.8:1".to_string(), 6);
    n.found("c".to_string(), "den".to_string(), "10.0.0.7:2".to_string(), 7);
    assert_eq!(
        Value::from(n.discovered_list()),
        json(
            r#"[{"id":"c","name":"den","addr":"10.0.0.7:2","lastSeen":7},
                {"id":"d","name":"D","addr":"10.0.0.8:1","lastSeen":6}]"#
        )
    );
    assert_eq!(n.invite("c").as_deref(), Some("10.0.0.7:2"));
    assert_eq!(n.invite("nobody"), None);
}

#[test]
fn queries_are_due_for_servers_and_on_request() {
    let mut n: Net<u8, u8> = Net::new();
    n.start(77);
    assert_eq!(
        json(&n.upkeep(&node("s", "room", "server")).unwrap()),
        json(r#"{"t":"q","id":"s","name":"room","port":77}"#)
    );
    assert!(n.upkeep(&node("c", "den", "client")).is_none());
    assert!(n.discover_now(&node("c", "den", "client"), true).is_some());
    assert!(n.discover_now(&node("s", "room", "server"), false).is_none());
}

#[test]
fn paired_clients_are_connected_once() {
    let mut n: Net<u8, u8> = Net::new();
    let peers = vec![
        peer("a", "1", "client", Some("10.0.0.1:1")),
        peer("b", "2", "server", Some("10.0.0.2:1")),
        peer("c", "3", "client", None),
        peer("d", "4", "client", Some("10.0.0.4:1")),
    ];
    let ids = |n: &Net<u8, u8>| -> Vec<String> {
        n.connect_paired_clients(&peers).into_iter().map(|p| p.id).collect()
    };
    assert_eq!(ids(&n), vec!["a", "d"]);
    let line = n.connected("a".to_string(), "1".to_string(), 9, &vec![], 5);
    assert_eq!(json(&line), json(r#"{"t":"assign","secret":"1","targets":[]}"#));
    assert_eq!(ids(&n), vec!["d"]);
    n.disconnected("a");
    assert_eq!(ids(&n), vec!["a", "d"]);
}

#[test]
fn every_connection_is_assigned_anew() {
    let mut n: Net<u8, char> = Net::new();
    n.connected("a".to_string(), "1".to_string(), 'a', &vec![], 5);
    n.connected("b".to_string(), "2".to_string(), 'b', &vec![], 5);
    let ts = vec![target("x", "X", "10.0.0.1", "wifi")];
    let lines = n.reassign_all(&ts, 6);
    assert_eq!(lines.len(), 2);
    let id = hashed(&ts[0], 6);
    let list = format!(
        r#"[{{"id":{id},"host":"10.0.0.1","tag":"wifi","label":"X","intervalMs":1000}}]"#
    );
    assert_eq!(
        json(&lines[0]),
        json(&format!(r#"{{"t":"assign","secret":"1","targets":{list}}}"#))
    );
    assert_eq!(
        json(&lines[1]),
        json(&format!(r#"{{"t":"assign","secret":"2","targets":{list}}}"#))
    );
    assert_eq!((n.conns[0].tx, n.conns[1].tx), ('a', 'b'));
    assert_eq!(n.conns[1].assign[0].id, id);
}

#[test]
fn reports_are_shown_with_names() {
    let mut n: Net<u8, u8> = Net::new();
    let ts = vec![target("x", "X", "10.0.0.1", "wifi")];
    n.connected("c".to_string(), "k".to_string(), 0, &ts, 6);
    let id = hashed(&ts[0], 6);
    let shown = n
        .on_client_line(
            "c",
            "den",
            "k",
            &format!(
                r#"{{"t":"report","secret":"k","results":[
                    {{"id":{id},"rttMs":12.5,"lossPct":25,"intervalMs":2000}},
                    {{"rttMs":null,"lossPct":"x"}}]}}"#
            ),
            99,
        )
        .unwrap();
    assert_eq!(
        shown,
        json(&format!(
            r#"{{"fromId":"c","fromName":"den","ts":99,"results":[
                {{"id":{id},"host":"10.0.0.1","tag":"wifi","label":"X","rttMs":12.5,"lossPct":25.0,"intervalMs":2000}},
                {{"id":0,"host":"","tag":"","label":"","rttMs":null,"lossPct":0.0,"intervalMs":1000}}]}}"#
        ))
    );
}

#[test]
fn reports_that_are_passed_over() {
    let mut n: Net<u8, u8> = Net::new();
    let line = r#"{"t":"report","secret":"k","results":[]}"#;
    assert!(n.on_client_line("c", "den", "k", line, 1).is_none());
    n.connected("c".to_string(), "k".to_string(), 0, &vec![], 6);
    assert!(n.on_client_line("c", "den", "other", line, 1).is_none());
    assert!(n.on_client_line("c", "den", "k", r#"{"t":"x","secret":"k"}"#, 1).is_none());
    assert!(n.on_client_line("c", "den", "k", "{", 1).is_none());
    let shown = n.on_client_line("c", "den", "k", r#"{"t":"report","secret":"k"}"#, 1).unwrap();
    assert_eq!(shown, json(r#"{"fromId":"c","fromName":"den","ts":1,"results":[]}"#));
}

#[test]
fn a_decision_is_taken_once() {
    let mut n: Net<char, u8> = Net::new();
    n.ask("s".to_string(), 'a');
    n.ask("t".to_string(), 'b');
    n.ask("s".to_string(), 'c');
    assert_eq!(n.respond_invite("s"), Some('c'));
    assert_eq!(n.respond_invite("s"), None);
    assert_eq!(n.respond_invite("t"), Some('b'));
    assert_eq!(n.respond_invite("nobody"), None);
}

#[test]
fn reports_cover_the_last_ten_seconds() {
    assert_eq!(report_window(25_000), (15_000, 25_000));
    assert_eq!(report_window(9_999), (0, 9_999));
    let n = node("c", "den", "client");
    assert!(build_report("k", &n, &vec![], vec![]).is_none());
    let ls = vec![Local { id: 7, local: "x".to_string(), interval_ms: 1000 }];
    let ms = vec![Measured { rtt: json("1.25"), loss: json("0.0") }];
    let line = build_report("k", &n, &ls, ms).unwrap();
    assert_eq!(
        json(&line),
        json(
            r#"{"t":"report","secret":"k","id":"c","name":"den",
                "results":[{"id":7,"rttMs":1.25,"lossPct":0.0,"intervalMs":1000}]}"#
        )
    );
}

// ---- both ends -------------------------------------------------------------

#[test]
fn a_server_pairs_assigns_and_is_reported_to() {
    let shared = vec![target("x", "X", "10.0.0.1", "wifi"), target("y", "Y", "h", "isp")];
    let mut server = config(node("s", "room", "server"), shared.clone());
    let mut client = config(node("c", "den", "client"), vec![target("m", "M", "h", "isp")]);
    let mut net: Net<u8, u8> = Net::new();

    let (mut up, first) = ServerLink::open(&server.node, None, "join us");
    let mut down = ClientLink::new(&client.node);
    match down.on_line(&mut client, Some(&first)) {
        ClientAct::Ask { id, name, msg } => {
            assert_eq!((id.as_str(), name.as_str(), msg.as_str()), ("s", "room", "join us"));
        }
        other => panic!("{other:?}"),
    }
    assert!(matches!(down.on_line(&mut client, Some("{}")), ClientAct::Wait));
    client.node.name = "attic".to_string();
    let reply = down.decide(&mut client, true, "10.0.0.9:5");
    match up.on_reply(&mut server, Some(&reply), "10.0.0.7:9") {
        ServerAct::Welcome(e) => assert_eq!(e, json(r#"{"accepted":true,"name":"den"}"#)),
        _ => panic!("not paired"),
    }
    assert_eq!(server.peers[0].secret, client.peers[0].secret);
    let (id, name, secret) = match &up {
        ServerLink::Paired { id, name, secret } => (id.clone(), name.clone(), secret.clone()),
        other => panic!("{other:?}"),
    };

    let line = net.connected(id.clone(), secret.clone(), 0, &server.targets, 6);
    assert!(matches!(down.on_line(&mut client, Some(&line)), ClientAct::Merged));
    assert_eq!(client.targets.len(), 2);
    assert_eq!(client.targets[1].host, "10.0.0.1");

    let ms = vec![
        Measured { rtt: json("1.5"), loss: json("0.0") },
        Measured { rtt: Value::Null, loss: json("100.0") },
    ];
    let report = down.tick(ms).unwrap();
    let shown = net.on_client_line(&id, &name, &secret, &report, 8).unwrap();
    let results = shown.get("results").unwrap().as_array().unwrap();
    assert_eq!(results.len(), 2);
    assert_eq!(results[0].get("label").unwrap(), "X");
    assert_eq!(results[0].get("rttMs").unwrap().as_f64(), Some(1.5));
    assert_eq!(results[1].get("host").unwrap(), "h");
    assert!(results[1].get("rttMs").unwrap().is_null());
    assert_eq!(results[1].get("id").unwrap().as_u64(), Some(u64::from(hashed(&shared[1], 6))));

    assert!(matches!(down.on_line(&mut client, None), ClientAct::Close));
    let (again, greeting) = ServerLink::open(&server.node, Some(server.peers[0].clone()), "");
    assert!(matches!(again, ServerLink::Paired { .. }));
    let mut down = ClientLink::new(&client.node);
    assert!(matches!(down.on_line(&mut client, Some(&greeting)), ClientAct::Wait));
    assert!(matches!(down.stage, ClientStage::Paired { .. }));
}

#[test]
fn a_declined_server_changes_nothing() {
    let mut server = config(node("s", "room", "server"), vec![]);
    let mut client = config(node("c", "den", "client"), vec![]);
    let (mut up, first) = ServerLink::open(&server.node, None, "");
    let mut down = ClientLink::new(&client.node);
    down.on_line(&mut client, Some(&first));
    let reply = down.decide(&mut client, false, "a");
    assert!(matches!(down.stage, ClientStage::Closed));
    match up.on_reply(&mut server, Some(&reply), "b") {
        ServerAct::Refused(e) => assert_eq!(e, json(r#"{"accepted":false}"#)),
        _ => panic!("not refused"),
    }
    assert!(matches!(up, ServerLink::Closed));
    assert!(server.peers.is_empty() && client.peers.is_empty());
    assert!(matches!(down.on_line(&mut client, Some("{}")), ClientAct::Close));
}

#[test]
fn a_silent_client_is_given_up() {
    let mut server = config(node("s", "room", "server"), vec![]);
    for line in [None, Some("{")] {
        let (mut up, _) = ServerLink::open(&server.node, None, "");
        assert!(matches!(up.on_reply(&mut server, line, "b"), ServerAct::Close));
        assert!(matches!(up, ServerLink::Closed));
    }
}

#[test]
fn an_unknown_server_is_rejected() {
    let mut client = config(node("c", "den", "client"), vec![]);
    let mut down = ClientLink::new(&client.node);
    match down.on_line(&mut client, Some(&hello_line("s", "k"))) {
        ClientAct::Send(line) => assert_eq!(line, r#"{"t":"reject"}"#),
        other => panic!("{other:?}"),
    }
    assert!(matches!(down.stage, ClientStage::Closed));
    assert!(down.tick(vec![]).is_none());
    let mut down = ClientLink::new(&client.node);
    assert!(matches!(down.on_line(&mut client, Some("7")), ClientAct::Close));
}
