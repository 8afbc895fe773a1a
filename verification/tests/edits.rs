use speed_daemon::config::{default_config, target};
use speed_daemon::edits::{
    add_target, get_config, get_node, get_peers, remove_target, reorder_targets, set_aggregate,
    set_mode, set_node_name, set_sets, set_theme, update_target,
};
use speed_daemon::model::{AppConfig, Peer};

fn ids(c: &AppConfig) -> Vec<&str> {
    c.targets.iter().map(|t| t.id.as_str()).collect()
}

fn small() -> AppConfig {
    let mut c = default_config();
    c.targets = vec![
        target("a", "A", "10.0.0.1", "wifi"),
        target("b", "B", "10.0.0.2", "isp"),
        target("c", "C", "10.0.0.3", "internet"),
    ];
    c
}

#[test]
fn a_target_is_added_behind_the_others() {
    let mut c = small();
    assert!(add_target(&mut c, target("d", "D", "10.0.0.4", "wifi")).is_ok());
    assert_eq!(ids(&c), vec!["a", "b", "c", "d"]);
}

#[test]
fn a_taken_id_is_refused() {
    let mut c = small();
    let r = add_target(&mut c, target("b", "other", "10.0.0.9", "wifi"));
    assert_eq!(r, Err("target id 'b' already exists".to_string()));
    assert_eq!(ids(&c), vec!["a", "b", "c"]);
    assert_eq!(c.targets[1].label, "B");
}

#[test]
fn an_update_replaces_in_place_or_adds() {
    let mut c = small();
    update_target(&mut c, target("b", "new", "10.9.9.9", "wifi"));
    assert_eq!(ids(&c), vec!["a", "b", "c"]);
    assert_eq!(c.targets[1].label, "new");
    update_target(&mut c, target("z", "Z", "10.0.0.7", "wifi"));
    assert_eq!(ids(&c), vec!["a", "b", "c", "z"]);
}

#[test]
fn removing_undoes_adding() {
    let mut c = small();
    add_target(&mut c, target("d", "D", "10.0.0.4", "wifi")).unwrap();
    remove_target(&mut c, "d");
    assert_eq!(ids(&c), vec!["a", "b", "c"]);
    remove_target(&mut c, "nobody");
    assert_eq!(ids(&c), vec!["a", "b", "c"]);
}

#[test]
fn reordering_follows_the_order_and_keeps_the_rest() {
    let mut c = small();
    let order = vec!["c".to_string(), "nobody".to_string(), "a".to_string(), "c".to_string()];
    reorder_targets(&mut c, &order);
    assert_eq!(ids(&c), vec!["c", "a", "b"]);
    reorder_targets(&mut c, &vec![]);
    assert_eq!(ids(&c), vec!["c", "a", "b"]);
}

#[test]
fn reordering_keeps_the_last_of_two_with_one_id() {
    let mut c = small();
    c.targets.push(target("a", "again", "10.0.0.5", "wifi"));
    reorder_targets(&mut c, &vec!["a".to_string()]);
    assert_eq!(ids(&c), vec!["a", "b", "c"]);
    assert_eq!(c.targets[0].label, "again");
}

#[test]
fn settings_take_known_names_only() {
    let mut c = small();
    for (given, kept) in [("dark", "dark"), ("light", "light"), ("neon", "system"), ("system", "system")] {
        set_theme(&mut c, given.to_string());
        assert_eq!(c.theme, kept);
    }
    for (given, kept) in [
        ("best", "best"),
        ("trimmed", "trimmed"),
        ("mean", "mean"),
        ("median", "median"),
        ("worst", "worst"),
        ("x", "worst"),
    ] {
        set_aggregate(&mut c, given.to_string());
        assert_eq!(c.aggregate, kept);
    }
    assert_eq!(set_mode(&mut c, "server").mode, "server");
    assert_eq!(set_mode(&mut c, "Server").mode, "client");
    assert_eq!(set_node_name(&mut c, "den".to_string()).name, "den");
    assert_eq!(get_node(&c).name, "den");
}

#[test]
fn sets_are_replaced_as_a_whole() {
    let mut c = small();
    let mut sets = c.sets.clone();
    sets.truncate(1);
    set_sets(&mut c, sets);
    assert_eq!(c.sets.len(), 1);
    assert_eq!(c.sets[0].name, "LAN");
}

#[test]
fn reads_give_copies() {
    let mut c = small();
    c.peers.push(Peer {
        id: "p".to_string(),
        name: "P".to_string(),
        secret: "s".to_string(),
        role: "client".to_string(),
        addr: Some("10.0.0.8:1".to_string()),
    });
    let copy = get_config(&c);
    assert_eq!(ids(&copy), ids(&c));
    let peers = get_peers(&c);
    assert_eq!(peers.len(), 1);
    assert_eq!(peers[0].addr.as_deref(), Some("10.0.0.8:1"));
}
