use speed_daemon::config::{
    built_in_sets, config_path, data_dir, default_config, ensure_node, fill_node, hex_text,
    load_or_default, migrate_tags_to_sets, random_hex, settle,
};
use speed_daemon::model::{
    default_aggregate, default_interval, default_theme, AppConfig, Millis, NodeInfo, TagProfile,
    Target,
};

fn ms(x: f64) -> Millis {
    Millis { bits: x.to_bits() }
}

fn profile(tag: &str, good: f64, ok: f64, poor: f64, terrible: f64) -> TagProfile {
    TagProfile {
        tag: tag.to_string(),
        good: ms(good),
        ok: ms(ok),
        poor: ms(poor),
        terrible: ms(terrible),
    }
}

fn bare(targets: Vec<Target>, tags: Vec<TagProfile>) -> AppConfig {
    AppConfig {
        targets,
        sets: vec![],
        tags,
        node: NodeInfo::default(),
        peers: vec![],
        theme: default_theme(),
        aggregate: default_aggregate(),
    }
}

#[test]
fn built_in_sets_are_three() {
    let sets = built_in_sets();
    assert_eq!(sets.len(), 3);
    let names: Vec<&str> = sets.iter().map(|s| s.name.as_str()).collect();
    assert_eq!(names, vec!["LAN", "ISP", "Internet"]);
    let colors: Vec<&str> = sets.iter().map(|s| s.color.as_str()).collect();
    assert_eq!(colors, vec!["#5fa85f", "#2bb0c4", "#c9a227"]);
    let figures: Vec<[f64; 4]> = sets
        .iter()
        .map(|s| {
            [
                f64::from_bits(s.good.bits),
                f64::from_bits(s.ok.bits),
                f64::from_bits(s.poor.bits),
                f64::from_bits(s.terrible.bits),
            ]
        })
        .collect();
    assert_eq!(
        figures,
        vec![[10.0, 20.0, 40.0, 100.0], [25.0, 40.0, 80.0, 150.0], [30.0, 50.0, 100.0, 300.0]]
    );
    assert!(sets.iter().all(|s| s.builtin));
    assert_eq!(sets[0].aliases[0].text, "wifi");
    assert_eq!(sets[0].aliases[0].color, None);
    assert_eq!(sets[0].aliases[1].text, "gateway");
    assert_eq!(sets[0].aliases[1].color.as_deref(), Some("#d2679a"));
    assert_eq!(sets[1].aliases.len(), 1);
    assert_eq!(sets[2].aliases[0].text, "internet");
}

#[test]
fn whole_milliseconds_have_the_bits_of_doubles() {
    for n in [0u16, 1, 2, 3, 10, 40, 300, 1000, 4095, 4096, 65534, 65535] {
        assert_eq!(Millis::whole(n).bits, f64::from(n).to_bits());
    }
}

#[test]
fn default_configuration_is_the_described_layout() {
    let c = default_config();
    let ids: Vec<&str> = c.targets.iter().map(|t| t.id.as_str()).collect();
    assert_eq!(
        ids,
        vec![
            "wifi-a", "wifi-b", "gw-int", "isp-dns1", "isp-dns2", "net-cf", "net-google",
            "net-apple", "net-ibm"
        ]
    );
    assert_eq!(c.targets[2].label, "Router (internal)");
    assert_eq!(c.targets[2].host, "192.168.1.1");
    assert_eq!(c.targets[2].tag, "gateway");
    assert!(c.targets.iter().all(|t| t.interval_ms == 1000));
    assert_eq!(c.sets.len(), 3);
    assert!(c.tags.is_empty() && c.peers.is_empty());
    assert_eq!(c.node.mode, "client");
    assert_eq!(c.node.id, "");
    assert_eq!(c.theme, "system");
    assert_eq!(c.aggregate, "worst");
    assert_eq!(default_interval(), 1000);
}

#[test]
fn every_default_tag_is_a_name_or_an_alias() {
    let c = default_config();
    for t in &c.targets {
        assert!(c
            .sets
            .iter()
            .any(|s| s.name == t.tag || s.aliases.iter().any(|a| a.text == t.tag)));
    }
}

#[test]
fn migration_folds_profiles_into_sets() {
    let tags = vec![
        profile("gateway", 1.0, 2.0, 3.0, 4.0),
        profile("isp", 5.5, 6.0, 7.0, 8.0),
        profile("vpn", 9.0, 10.0, 11.0, 12.5),
        profile("isp", 50.0, 60.0, 70.0, 80.0),
    ];
    let sets = migrate_tags_to_sets(&tags);
    assert_eq!(sets.len(), 4);
    assert_eq!(sets[0].good, ms(1.0));
    assert_eq!(sets[0].terrible, ms(4.0));
    assert_eq!(sets[1].good, ms(5.5));
    assert_eq!(sets[2].good, ms(30.0));
    assert_eq!(sets[3].name, "vpn");
    assert_eq!(sets[3].color, "#5fa85f");
    assert_eq!(sets[3].poor, ms(11.0));
    assert_eq!(sets[3].terrible, ms(12.5));
    assert!(!sets[3].builtin);
    assert!(sets[3].aliases.is_empty());
}

#[test]
fn migration_prefers_wifi_to_gateway() {
    let tags = vec![
        profile("gateway", 1.0, 2.0, 3.0, 4.0),
        profile("wifi", 11.0, 12.0, 13.0, 14.0),
    ];
    let sets = migrate_tags_to_sets(&tags);
    assert_eq!(sets[0].good, ms(11.0));
    assert_eq!(sets.len(), 3);
}

#[test]
fn settling_migrates_once_and_drops_the_old_profiles() {
    let mut c = bare(vec![], vec![profile("vpn", 1.0, 2.0, 3.0, 4.0)]);
    settle(&mut c);
    assert_eq!(c.sets.len(), 4);
    assert!(c.tags.is_empty());

    let mut c = bare(vec![], vec![]);
    settle(&mut c);
    assert_eq!(c.sets.len(), 3);

    let mut kept = default_config();
    kept.sets.truncate(1);
    kept.tags = vec![profile("vpn", 1.0, 2.0, 3.0, 4.0)];
    settle(&mut kept);
    assert_eq!(kept.sets.len(), 1);
    assert!(kept.tags.is_empty());
}

#[test]
fn identities_are_filled_in_where_they_are_missing() {
    let mut c = bare(vec![], vec![]);
    c.node.mode = String::new();
    fill_node(&mut c, "abc".to_string(), "host".to_string());
    assert_eq!(c.node.id, "abc");
    assert_eq!(c.node.name, "host");
    assert_eq!(c.node.mode, "client");
    c.node.mode = "server".to_string();
    fill_node(&mut c, "other".to_string(), "other".to_string());
    assert_eq!(c.node.id, "abc");
    assert_eq!(c.node.name, "host");
    assert_eq!(c.node.mode, "server");
}

#[test]
fn fresh_identities_are_eight_bytes_of_hex_and_the_host_name() {
    let mut c = bare(vec![], vec![]);
    ensure_node(&mut c);
    assert_eq!(c.node.id.len(), 16);
    assert!(c.node.id.chars().all(|x| x.is_ascii_digit() || ('a'..='f').contains(&x)));
    assert_eq!(c.node.name, gethostname::gethostname().to_string_lossy().to_string());
}

#[test]
fn loading_falls_back_to_the_defaults() {
    let c = load_or_default(None);
    assert_eq!(c.targets.len(), 9);
    assert_eq!(c.sets.len(), 3);
    assert_eq!(c.node.id.len(), 16);
    assert_eq!(c.node.mode, "client");
}

#[test]
fn loading_again_changes_nothing() {
    let first = load_or_default(Some(bare(vec![], vec![profile("vpn", 1.0, 2.0, 3.0, 4.0)])));
    let id = first.node.id.clone();
    let name = first.node.name.clone();
    let again = load_or_default(Some(first));
    assert_eq!(again.node.id, id);
    assert_eq!(again.node.name, name);
    assert_eq!(again.sets.len(), 4);
    assert!(again.targets.is_empty());
}

#[test]
fn random_hex_has_two_digits_for_each_byte() {
    assert_eq!(random_hex(0), "");
    let a = random_hex(16);
    let b = random_hex(16);
    assert_eq!(a.len(), 32);
    assert_ne!(a, b);
    assert!(a.chars().all(|x| x.is_ascii_digit() || ('a'..='f').contains(&x)));
    assert_eq!(hex_text(&vec![0, 15, 16, 255]), "000f10ff");
}

#[test]
fn the_data_directory_can_be_overridden() {
    assert_eq!(data_dir(Some("/tmp/x".to_string()), Some("/Users/me".to_string())), "/tmp/x");
    assert_eq!(
        data_dir(None, Some("/Users/me".to_string())),
        "/Users/me/Library/Application Support/org.est.speeddaemon"
    );
    assert_eq!(data_dir(None, None), "./Library/Application Support/org.est.speeddaemon");
    assert_eq!(config_path(Some("/tmp/x".to_string()), "/app"), "/tmp/x/config.toml");
    assert_eq!(config_path(None, "/app"), "/app/config.toml");
}
