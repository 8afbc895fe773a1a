//! The configuration: its identity, its defaults, and its migration from older forms.
use crate::model::{
    opt_view, views, Alias, AliasView, AppConfig, ConfigView, Millis, NodeInfo, NodeView, PeerView,
    SetView, TagProfile, TagView, Target, TargetView, ThresholdSet,
};
use crate::text::{hex, hex_shape, is_hex_digit, join_path, joined, push_hex};
use rand::RngExt;
use vstd::prelude::*;

verus! {

// ---- identity --------------------------------------------------------------

/// One byte from `rand::rng().random()`: any value. It panics where the operating system cannot
/// seed the generator.
#[verifier::external_body]
fn random_byte() -> (b: u8) {
    rand::rng().random()
}

/// The machine's name from `gethostname::gethostname`, with what is not Unicode replaced. It
/// is whatever the machine says.
#[verifier::external_body]
fn default_name() -> (name: String) {
    gethostname::gethostname().to_string_lossy().to_string()
}

/// Two hexadecimal digits for each byte, in order.
pub open spec fn bytes_hex(bytes: Seq<u8>) -> Seq<char>
    decreases bytes.len(),
{
    if bytes.len() == 0 {
        Seq::empty()
    } else {
        bytes_hex(bytes.drop_last()) + hex(bytes.last() as nat, 2)
    }
}

proof fn lemma_bytes_hex(bytes: Seq<u8>)
    ensures
        bytes_hex(bytes).len() == 2 * bytes.len(),
        forall|i: int| 0 <= i < 2 * bytes.len() ==> is_hex_digit(#[trigger] bytes_hex(bytes)[i]),
    decreases bytes.len(),
{
    if bytes.len() > 0 {
        lemma_bytes_hex(bytes.drop_last());
        hex_shape(bytes.last() as nat, 2);
    }
}

/// Writes bytes as lower-case hexadecimal.
pub fn hex_text(bytes: &Vec<u8>) -> (r: String)
    ensures
        r@ == bytes_hex(bytes@),
{
    let mut r = String::new();
    for i in 0..bytes.len()
        invariant
            i <= bytes@.len(),
            r@ == bytes_hex(bytes@.take(i as int)),
    {
        push_hex(&mut r, bytes[i] as u32, 2);
        assert(bytes@.take(i + 1).drop_last() =~= bytes@.take(i as int));
        assert(bytes@.take(i + 1).last() == bytes@[i as int]);
    }
    assert(bytes@.take(bytes@.len() as int) =~= bytes@);
    r
}

/// `s` is `n` bytes in lower-case hexadecimal.
pub open spec fn is_hex_of(s: Seq<char>, n: nat) -> bool {
    &&& s.len() == 2 * n
    &&& forall|i: int| 0 <= i < s.len() ==> is_hex_digit(#[trigger] s[i])
    &&& exists|bytes: Seq<u8>| bytes.len() == n && s == #[trigger] bytes_hex(bytes)
}

/// A random lower-case hexadecimal string of `n` bytes, for identities and secrets.
pub fn random_hex(n: usize) -> (r: String)
    ensures
        is_hex_of(r@, n as nat),
{
    let mut bytes: Vec<u8> = Vec::new();
    for i in 0..n
        invariant
            bytes@.len() == i,
    {
        let b = random_byte();
        bytes.push(b);
    }
    proof {
        lemma_bytes_hex(bytes@);
    }
    hex_text(&bytes)
}

/// A node with its empty fields filled: `id` and `name` as given, the mode `client`.
pub open spec fn filled_node(n: NodeView, id: Seq<char>, name: Seq<char>) -> NodeView {
    NodeView {
        id: if n.id.len() == 0 {
            id
        } else {
            n.id
        },
        name: if n.name.len() == 0 {
            name
        } else {
            n.name
        },
        mode: if n.mode.len() == 0 {
            "client"@
        } else {
            n.mode
        },
    }
}

/// Fills the empty fields of a configuration's node.
pub fn fill_node(cfg: &mut AppConfig, id: String, name: String)
    ensures
        final(cfg)@ == (ConfigView { node: filled_node(old(cfg)@.node, id@, name@), ..old(cfg)@ }),
{
    if cfg.node.id.as_str().is_empty() {
        cfg.node.id = id;
    }
    if cfg.node.name.as_str().is_empty() {
        cfg.node.name = name;
    }
    if cfg.node.mode.as_str().is_empty() {
        cfg.node.mode = "client".to_owned();
    }
}

/// Gives a configuration a node identity where it has none: a random id of eight bytes, the
/// machine's name, the mode `client`.
pub fn ensure_node(cfg: &mut AppConfig)
    ensures
        exists|id: Seq<char>, name: Seq<char>|
            is_hex_of(id, 8) && final(cfg)@ == (ConfigView {
                node: #[trigger] filled_node(old(cfg)@.node, id, name),
                ..old(cfg)@
            }),
{
    let ghost before = cfg@;
    let id = if cfg.node.id.as_str().is_empty() {
        random_hex(8)
    } else {
        String::new()
    };
    let name = if cfg.node.name.as_str().is_empty() {
        default_name()
    } else {
        String::new()
    };
    let ghost given = name@;
    let ghost zeros: Seq<u8> = Seq::new(8, |i: int| 0u8);
    let ghost fresh = if before.node.id.len() == 0 {
        id@
    } else {
        bytes_hex(zeros)
    };
    fill_node(cfg, id, name);
    proof {
        lemma_bytes_hex(zeros);
        assert(is_hex_of(fresh, 8));
        assert(cfg@ == (ConfigView { node: filled_node(before.node, fresh, given), ..before }));
    }
}

// ---- where it lives --------------------------------------------------------

/// The data directory: `overridden` (the value of `SPEED_DAEMON_DIR`) where there is one, else
/// the application-support directory under `home`, or under `.` without a home.
pub open spec fn data_dir_view(
    overridden: Option<Seq<char>>,
    home: Option<Seq<char>>,
) -> Seq<char> {
    match overridden {
        Some(dir) => dir,
        None => joined(
            match home {
                Some(h) => h,
                None => "."@,
            },
            "Library/Application Support/org.est.speeddaemon"@,
        ),
    }
}

/// The directory that holds `config.toml` and `history.db`, from the values of
/// `SPEED_DAEMON_DIR` and `HOME`.
pub fn data_dir(overridden: Option<String>, home: Option<String>) -> (r: String)
    ensures
        r@ == data_dir_view(opt_view(overridden), opt_view(home)),
{
    match overridden {
        Some(dir) => dir,
        None => {
            let base = match home {
                Some(h) => h,
                None => ".".to_owned(),
            };
            join_path(base.as_str(), "Library/Application Support/org.est.speeddaemon")
        },
    }
}

/// Where the configuration is kept: `config.toml` in the overriding directory where there is
/// one, else in the application's own configuration directory.
pub fn config_path(overridden: Option<String>, app_config_dir: &str) -> (r: String)
    ensures
        r@ == joined(
            match overridden {
                Some(dir) => dir@,
                None => app_config_dir@,
            },
            "config.toml"@,
        ),
{
    match overridden {
        Some(dir) => join_path(dir.as_str(), "config.toml"),
        None => join_path(app_config_dir, "config.toml"),
    }
}

// ---- defaults --------------------------------------------------------------

/// The colour of the `LAN` set, and of a set that has been given none.
pub const GREEN: &'static str = "#5fa85f";

/// The colour of the `gateway` alias.
pub const PINK: &'static str = "#d2679a";

/// The colour of the `ISP` set.
pub const CYAN: &'static str = "#2bb0c4";

/// The colour of the `Internet` set.
pub const GOLD: &'static str = "#c9a227";

/// A target that is probed once a second.
pub open spec fn target_view(
    id: Seq<char>,
    label: Seq<char>,
    host: Seq<char>,
    tag: Seq<char>,
) -> TargetView {
    TargetView { id, label, host, tag, interval_ms: 1000 }
}

/// A target that is probed once a second.
pub fn target(id: &str, label: &str, host: &str, tag: &str) -> (r: Target)
    ensures
        r@ == target_view(id@, label@, host@, tag@),
{
    Target {
        id: id.to_owned(),
        label: label.to_owned(),
        host: host.to_owned(),
        tag: tag.to_owned(),
        interval_ms: 1000,
    }
}

/// An alias tag, with a colour of its own or without.
pub fn alias(text: &str, color: Option<&str>) -> (r: Alias)
    ensures
        r@.text == text@,
        r@.color == (match color {
            Some(c) => Some(c@),
            None => None,
        }),
{
    Alias {
        text: text.to_owned(),
        color: match color {
            Some(c) => Some(c.to_owned()),
            None => None,
        },
    }
}

/// The set for local destinations.
pub open spec fn lan_set() -> SetView {
    SetView {
        name: "LAN"@,
        color: GREEN@,
        good: Millis::of(10),
        ok: Millis::of(20),
        poor: Millis::of(40),
        terrible: Millis::of(100),
        aliases: seq![
            AliasView { text: "wifi"@, color: None },
            AliasView { text: "gateway"@, color: Some(PINK@) },
        ],
        builtin: true,
    }
}

/// The set for the provider's own hosts.
pub open spec fn isp_set() -> SetView {
    SetView {
        name: "ISP"@,
        color: CYAN@,
        good: Millis::of(25),
        ok: Millis::of(40),
        poor: Millis::of(80),
        terrible: Millis::of(150),
        aliases: seq![AliasView { text: "isp"@, color: None }],
        builtin: true,
    }
}

/// The set for everything beyond.
pub open spec fn internet_set() -> SetView {
    SetView {
        name: "Internet"@,
        color: GOLD@,
        good: Millis::of(30),
        ok: Millis::of(50),
        poor: Millis::of(100),
        terrible: Millis::of(300),
        aliases: seq![AliasView { text: "internet"@, color: None }],
        builtin: true,
    }
}

/// The three built-in sets.
pub fn built_in_sets() -> (r: Vec<ThresholdSet>)
    ensures
        views(r@) == seq![lan_set(), isp_set(), internet_set()],
{
    let lan_aliases = vec![alias("wifi", None), alias("gateway", Some(PINK))];
    let isp_aliases = vec![alias("isp", None)];
    let internet_aliases = vec![alias("internet", None)];
    proof {
        assert(views(lan_aliases@) =~= lan_set().aliases);
        assert(views(isp_aliases@) =~= isp_set().aliases);
        assert(views(internet_aliases@) =~= internet_set().aliases);
    }
    let r = vec![
        ThresholdSet {
            name: "LAN".to_owned(),
            color: GREEN.to_owned(),
            good: Millis::whole(10),
            ok: Millis::whole(20),
            poor: Millis::whole(40),
            terrible: Millis::whole(100),
            aliases: lan_aliases,
            builtin: true,
        },
        ThresholdSet {
            name: "ISP".to_owned(),
            color: CYAN.to_owned(),
            good: Millis::whole(25),
            ok: Millis::whole(40),
            poor: Millis::whole(80),
            terrible: Millis::whole(150),
            aliases: isp_aliases,
            builtin: true,
        },
        ThresholdSet {
            name: "Internet".to_owned(),
            color: GOLD.to_owned(),
            good: Millis::whole(30),
            ok: Millis::whole(50),
            poor: Millis::whole(100),
            terrible: Millis::whole(300),
            aliases: internet_aliases,
            builtin: true,
        },
    ];
    assert(views(r@) =~= seq![lan_set(), isp_set(), internet_set()]);
    r
}

/// The targets of a fresh configuration.
pub open spec fn default_targets() -> Seq<TargetView> {
    seq![
        target_view("wifi-a"@, "LAN host A"@, "192.168.1.2"@, "wifi"@),
        target_view("wifi-b"@, "LAN host B"@, "192.168.1.3"@, "wifi"@),
        target_view("gw-int"@, "Router (internal)"@, "192.168.1.1"@, "gateway"@),
        target_view("isp-dns1"@, "ISP resolver 1"@, "75.75.75.75"@, "isp"@),
        target_view("isp-dns2"@, "ISP resolver 2"@, "75.75.76.76"@, "isp"@),
        target_view("net-cf"@, "Cloudflare 1.1.1.1"@, "1.1.1.1"@, "internet"@),
        target_view("net-google"@, "Google 8.8.8.8"@, "8.8.8.8"@, "internet"@),
        target_view("net-apple"@, "apple.com"@, "apple.com"@, "internet"@),
        target_view("net-ibm"@, "ibm.com"@, "ibm.com"@, "internet"@),
    ]
}

/// A fresh configuration: a few targets, the built-in sets, no identity yet.
pub open spec fn default_view() -> ConfigView {
    ConfigView {
        targets: default_targets(),
        sets: seq![lan_set(), isp_set(), internet_set()],
        tags: Seq::empty(),
        node: NodeView { id: Seq::empty(), name: Seq::empty(), mode: "client"@ },
        peers: Seq::empty(),
        theme: "system"@,
        aggregate: "worst"@,
    }
}

/// A fresh configuration.
pub fn default_config() -> (r: AppConfig)
    ensures
        r@ == default_view(),
{
    let targets = vec![
        target("wifi-a", "LAN host A", "192.168.1.2", "wifi"),
        target("wifi-b", "LAN host B", "192.168.1.3", "wifi"),
        target("gw-int", "Router (internal)", "192.168.1.1", "gateway"),
        target("isp-dns1", "ISP resolver 1", "75.75.75.75", "isp"),
        target("isp-dns2", "ISP resolver 2", "75.75.76.76", "isp"),
        target("net-cf", "Cloudflare 1.1.1.1", "1.1.1.1", "internet"),
        target("net-google", "Google 8.8.8.8", "8.8.8.8", "internet"),
        target("net-apple", "apple.com", "apple.com", "internet"),
        target("net-ibm", "ibm.com", "ibm.com", "internet"),
    ];
    let r = AppConfig {
        targets,
        sets: built_in_sets(),
        tags: Vec::new(),
        node: NodeInfo::default(),
        peers: Vec::new(),
        theme: "system".to_owned(),
        aggregate: "worst".to_owned(),
    };
    proof {
        assert(views(r.targets@) =~= default_targets());
        assert(views(r.tags@) =~= Seq::<TagView>::empty());
        assert(views(r.peers@) =~= Seq::<PeerView>::empty());
    }
    r
}

// ---- migration -------------------------------------------------------------

/// The first profile with this tag.
pub open spec fn profile_of(tags: Seq<TagView>, tag: Seq<char>) -> Option<TagView>
    decreases tags.len(),
{
    if tags.len() == 0 {
        None
    } else if tags[0].tag == tag {
        Some(tags[0])
    } else {
        profile_of(tags.skip(1), tag)
    }
}

/// A set with the thresholds of a profile, where there is one.
pub open spec fn with_profile(s: SetView, p: Option<TagView>) -> SetView {
    match p {
        Some(p) => SetView { good: p.good, ok: p.ok, poor: p.poor, terrible: p.terrible, ..s },
        None => s,
    }
}

/// One of the four tags that the built-in sets cover.
pub open spec fn is_built_in_tag(tag: Seq<char>) -> bool {
    tag == "wifi"@ || tag == "gateway"@ || tag == "isp"@ || tag == "internet"@
}

/// A set of its own for a profile that no built-in set covers.
pub open spec fn custom_set(p: TagView) -> SetView {
    SetView {
        name: p.tag,
        color: GREEN@,
        good: p.good,
        ok: p.ok,
        poor: p.poor,
        terrible: p.terrible,
        aliases: Seq::empty(),
        builtin: false,
    }
}

/// The profiles that no built-in set covers, as sets of their own.
pub open spec fn custom_sets(tags: Seq<TagView>) -> Seq<SetView> {
    tags.filter(|p: TagView| !is_built_in_tag(p.tag)).map_values(|p: TagView| custom_set(p))
}

/// Profiles as threshold sets: the built-in sets with the thresholds that the profiles give
/// their tags (for local hosts those of `wifi`, else those of `gateway`), then a set of its own
/// for every other profile.
pub open spec fn migrated(tags: Seq<TagView>) -> Seq<SetView> {
    let local = match profile_of(tags, "wifi"@) {
        Some(p) => Some(p),
        None => profile_of(tags, "gateway"@),
    };
    seq![
        with_profile(lan_set(), local),
        with_profile(isp_set(), profile_of(tags, "isp"@)),
        with_profile(internet_set(), profile_of(tags, "internet"@)),
    ] + custom_sets(tags)
}

proof fn lemma_profile_of(tags: Seq<TagView>, tag: Seq<char>, i: int)
    requires
        0 <= i <= tags.len(),
        forall|j: int| 0 <= j < i ==> (#[trigger] tags[j]).tag != tag,
        i < tags.len() ==> tags[i].tag == tag,
    ensures
        profile_of(tags, tag) == if i < tags.len() {
            Some(tags[i])
        } else {
            None
        },
    decreases tags.len(),
{
    if i > 0 {
        let rest = tags.skip(1);
        assert(tags[0].tag != tag);
        assert forall|j: int| 0 <= j < i - 1 implies (#[trigger] rest[j]).tag != tag by {
            assert(rest[j] == tags[j + 1]);
        }
        lemma_profile_of(rest, tag, i - 1);
    }
}

/// The first profile with this tag.
fn find_profile<'a>(tags: &'a Vec<TagProfile>, tag: &str) -> (r: Option<&'a TagProfile>)
    ensures
        (match r {
            Some(p) => Some(p@),
            None => None,
        }) == profile_of(views(tags@), tag@),
{
    let mut i: usize = 0;
    while i < tags.len() && !tags[i].tag.as_str().eq(tag)
        invariant
            i <= tags@.len(),
            forall|j: int| 0 <= j < i ==> (#[trigger] views(tags@)[j]).tag != tag@,
        decreases tags@.len() - i,
    {
        i = i + 1;
    }
    proof {
        lemma_profile_of(views(tags@), tag@, i as int);
    }
    if i < tags.len() {
        Some(&tags[i])
    } else {
        None
    }
}

/// Gives a set the thresholds of a profile, where there is one.
fn apply_profile(set: ThresholdSet, p: Option<&TagProfile>) -> (r: ThresholdSet)
    ensures
        r@ == with_profile(
            set@,
            match p {
                Some(p) => Some(p@),
                None => None,
            },
        ),
{
    match p {
        Some(p) => ThresholdSet {
            name: set.name,
            color: set.color,
            good: p.good,
            ok: p.ok,
            poor: p.poor,
            terrible: p.terrible,
            aliases: set.aliases,
            builtin: set.builtin,
        },
        None => set,
    }
}

/// Folds the profiles of an old configuration into threshold sets.
pub fn migrate_tags_to_sets(tags: &Vec<TagProfile>) -> (r: Vec<ThresholdSet>)
    ensures
        views(r@) == migrated(views(tags@)),
{
    let ghost all = views(tags@);
    let local = match find_profile(tags, "wifi") {
        Some(p) => Some(p),
        None => find_profile(tags, "gateway"),
    };
    let mut built_in = built_in_sets();
    proof {
        assert(built_in@.len() == views(built_in@).len());
        assert(views(built_in@)[2] == built_in@[2]@);
        assert(views(built_in@)[1] == built_in@[1]@);
        assert(views(built_in@)[0] == built_in@[0]@);
    }
    let internet = apply_profile(built_in.remove(2), find_profile(tags, "internet"));
    let isp = apply_profile(built_in.remove(1), find_profile(tags, "isp"));
    let lan = apply_profile(built_in.remove(0), local);
    let ghost head = seq![lan@, isp@, internet@];
    let mut sets = vec![lan, isp, internet];
    proof {
        reveal(Seq::filter);
        assert(custom_sets(all.take(0)) =~= Seq::<SetView>::empty());
        assert(views(sets@) =~= head + custom_sets(all.take(0)));
    }
    for i in 0..tags.len()
        invariant
            all == views(tags@),
            i <= tags@.len(),
            views(sets@) == head + custom_sets(all.take(i as int)),
    {
        proof {
            reveal(Seq::filter);
            assert(all.take(i + 1).drop_last() =~= all.take(i as int));
            assert(all.take(i + 1).last() == tags@[i as int]@);
        }
        let ghost before = views(sets@);
        let tag = tags[i].tag.as_str();
        if !(tag.eq("wifi") || tag.eq("gateway") || tag.eq("isp") || tag.eq("internet")) {
            let set = ThresholdSet {
                name: tags[i].tag.clone(),
                color: GREEN.to_owned(),
                good: tags[i].good,
                ok: tags[i].ok,
                poor: tags[i].poor,
                terrible: tags[i].terrible,
                aliases: Vec::new(),
                builtin: false,
            };
            assert(views(set.aliases@) =~= Seq::<AliasView>::empty());
            sets.push(set);
            assert(views(sets@) =~= before.push(custom_set(all[i as int])));
            assert(custom_sets(all.take(i + 1)) =~= custom_sets(all.take(i as int)).push(
                custom_set(all[i as int]),
            ));
            assert(views(sets@) =~= head + custom_sets(all.take(i + 1)));
        }
    }
    assert(all.take(tags@.len() as int) =~= all);
    sets
}

/// A configuration in its present form: with threshold sets (those it has, else its profiles
/// migrated, else the built-in ones) and without profiles.
pub open spec fn settled(c: ConfigView) -> ConfigView {
    ConfigView {
        sets: if c.sets.len() > 0 {
            c.sets
        } else if c.tags.len() == 0 {
            seq![lan_set(), isp_set(), internet_set()]
        } else {
            migrated(c.tags)
        },
        tags: Seq::empty(),
        ..c
    }
}

/// Brings a configuration into its present form.
pub fn settle(cfg: &mut AppConfig)
    ensures
        final(cfg)@ == settled(old(cfg)@),
{
    if cfg.sets.is_empty() {
        cfg.sets = if cfg.tags.is_empty() {
            built_in_sets()
        } else {
            migrate_tags_to_sets(&cfg.tags)
        };
    }
    cfg.tags.clear();
    assert(cfg@.tags =~= Seq::<TagView>::empty());
}

/// What a configuration file that was read as `parsed`, or could not be, stands for before its
/// node is filled.
pub open spec fn loaded(parsed: Option<ConfigView>) -> ConfigView {
    settled(
        match parsed {
            Some(c) => c,
            None => default_view(),
        },
    )
}

/// The configuration to run with, from the file's contents where they could be read: a fresh
/// one otherwise, in its present form, with an identity.
pub fn load_or_default(parsed: Option<AppConfig>) -> (r: AppConfig)
    ensures
        exists|id: Seq<char>, name: Seq<char>|
            is_hex_of(id, 8) && r@ == (ConfigView {
                node: #[trigger] filled_node(loaded(opt_view(parsed)).node, id, name),
                ..loaded(opt_view(parsed))
            }),
{
    let mut cfg = match parsed {
        Some(c) => c,
        None => default_config(),
    };
    settle(&mut cfg);
    let ghost before = cfg@;
    assert(before == loaded(opt_view(parsed)));
    ensure_node(&mut cfg);
    proof {
        let (id, name) = choose|id: Seq<char>, name: Seq<char>|
            is_hex_of(id, 8) && cfg@ == (ConfigView {
                node: #[trigger] filled_node(before.node, id, name),
                ..before
            });
        assert(cfg@ == (ConfigView {
            node: filled_node(loaded(opt_view(parsed)).node, id, name),
            ..loaded(opt_view(parsed))
        }));
    }
    cfg
}

// ---- laws ------------------------------------------------------------------

/// A set goes by this tag: it is the set's name or one of its aliases.
pub open spec fn covers(s: SetView, tag: Seq<char>) -> bool {
    s.name == tag || exists|k: int| 0 <= k < s.aliases.len() && (#[trigger] s.aliases[k]).text == tag
}

/// Some set goes by this tag.
pub open spec fn tag_known(sets: Seq<SetView>, tag: Seq<char>) -> bool {
    exists|i: int| 0 <= i < sets.len() && covers(#[trigger] sets[i], tag)
}

proof fn lemma_built_in_tags_known(sets: Seq<SetView>, tag: Seq<char>)
    requires
        sets.len() >= 3,
        sets[0].aliases == lan_set().aliases,
        sets[1].aliases == isp_set().aliases,
        sets[2].aliases == internet_set().aliases,
        is_built_in_tag(tag),
    ensures
        tag_known(sets, tag),
{
    assert(sets[0].aliases[0].text == "wifi"@);
    assert(sets[0].aliases[1].text == "gateway"@);
    assert(sets[1].aliases[0].text == "isp"@);
    assert(sets[2].aliases[0].text == "internet"@);
    if tag == "wifi"@ || tag == "gateway"@ {
        assert(covers(sets[0], tag));
    } else if tag == "isp"@ {
        assert(covers(sets[1], tag));
    } else {
        assert(covers(sets[2], tag));
    }
}

/// In a fresh configuration every target's tag is that of some threshold set.
pub proof fn default_tags_are_known(i: int)
    requires
        0 <= i < default_targets().len(),
    ensures
        tag_known(default_view().sets, default_targets()[i].tag),
{
    lemma_built_in_tags_known(default_view().sets, default_targets()[i].tag);
}

/// Migration loses no tag: whatever tag a profile had, some set goes by it.
pub proof fn migration_keeps_tags(tags: Seq<TagView>, i: int)
    requires
        0 <= i < tags.len(),
    ensures
        tag_known(migrated(tags), tags[i].tag),
{
    let sets = migrated(tags);
    if is_built_in_tag(tags[i].tag) {
        lemma_built_in_tags_known(sets, tags[i].tag);
    } else {
        let own = tags.filter(|p: TagView| !is_built_in_tag(p.tag));
        broadcast use vstd::seq_lib::group_filter_ensures;

        assert(own.contains(tags[i]));
        let k = choose|k: int| 0 <= k < own.len() && own[k] == tags[i];
        assert(custom_sets(tags)[k] == custom_set(own[k]));
        assert(sets[3 + k] == custom_set(tags[i]));
        assert(covers(sets[3 + k], tags[i].tag));
    }
}

/// Migration carries edited thresholds over: the local set has those of `wifi` (or of `gateway`
/// where there is no `wifi`), the other two those of their tags, and without a profile a set
/// keeps its own.
pub proof fn migration_keeps_thresholds(tags: Seq<TagView>)
    ensures
        profile_of(tags, "wifi"@) matches Some(p) ==> migrated(tags)[0] == with_profile(
            lan_set(),
            Some(p),
        ),
        profile_of(tags, "wifi"@) is None ==> migrated(tags)[0] == with_profile(
            lan_set(),
            profile_of(tags, "gateway"@),
        ),
        migrated(tags)[1] == with_profile(isp_set(), profile_of(tags, "isp"@)),
        migrated(tags)[2] == with_profile(internet_set(), profile_of(tags, "internet"@)),
{
}

/// Loading what was loaded before changes nothing: the migration happens once, and an identity
/// stays.
pub proof fn loading_is_stable(
    c: ConfigView,
    id: Seq<char>,
    name: Seq<char>,
    id2: Seq<char>,
    name2: Seq<char>,
)
    requires
        id.len() > 0,
        name.len() > 0,
    ensures
        ({
            let once = ConfigView {
                node: filled_node(settled(c).node, id, name),
                ..settled(c)
            };
            let again = ConfigView {
                node: filled_node(settled(once).node, id2, name2),
                ..settled(once)
            };
            again == once
        }),
{
    reveal_strlit("client");
    assert(migrated(c.tags).len() >= 3);
}

/// A profile is the first of its tag.
pub open spec fn first_of_tag(tags: Seq<TagView>, tag: Seq<char>, i: int) -> bool {
    &&& 0 <= i < tags.len()
    &&& tags[i].tag == tag
    &&& forall|j: int| 0 <= j < i ==> (#[trigger] tags[j]).tag != tag
}

/// No profile has this tag.
pub open spec fn no_profile(tags: Seq<TagView>, tag: Seq<char>) -> bool {
    forall|j: int| 0 <= j < tags.len() ==> (#[trigger] tags[j]).tag != tag
}

/// A built-in set that goes by a tag with a profile has, after migration, that profile's four
/// thresholds: for the local set those of the first `wifi` profile, else those of the first
/// `gateway` one.
pub proof fn migrated_thresholds_are_the_profiles(tags: Seq<TagView>, i: int)
    ensures
        ({
            let p = tags[i];
            let local = migrated(tags)[0];
            let isp = migrated(tags)[1];
            let internet = migrated(tags)[2];
            &&& first_of_tag(tags, "wifi"@, i) || (no_profile(tags, "wifi"@) && first_of_tag(
                tags,
                "gateway"@,
                i,
            )) ==> local.good == p.good && local.ok == p.ok && local.poor == p.poor
                && local.terrible == p.terrible
            &&& first_of_tag(tags, "isp"@, i) ==> isp.good == p.good && isp.ok == p.ok && isp.poor
                == p.poor && isp.terrible == p.terrible
            &&& first_of_tag(tags, "internet"@, i) ==> internet.good == p.good && internet.ok
                == p.ok && internet.poor == p.poor && internet.terrible == p.terrible
        }),
{
    if first_of_tag(tags, "wifi"@, i) {
        lemma_profile_of(tags, "wifi"@, i);
    }
    if no_profile(tags, "wifi"@) {
        lemma_profile_of(tags, "wifi"@, tags.len() as int);
    }
    if first_of_tag(tags, "gateway"@, i) {
        lemma_profile_of(tags, "gateway"@, i);
    }
    if first_of_tag(tags, "isp"@, i) {
        lemma_profile_of(tags, "isp"@, i);
    }
    if first_of_tag(tags, "internet"@, i) {
        lemma_profile_of(tags, "internet"@, i);
    }
}

/// Whatever the profiles, the built-in sets keep their names, colours, aliases and that they are
/// built in; and one without a profile keeps its thresholds.
pub proof fn built_in_sets_keep_their_names(tags: Seq<TagView>)
    ensures
        ({
            let sets = migrated(tags);
            let own = default_view().sets;
            &&& sets.len() >= 3
            &&& own.len() == 3
            &&& forall|k: int|
                0 <= k < 3 ==> (#[trigger] sets[k]).name == own[k].name && sets[k].color
                    == own[k].color && sets[k].aliases == own[k].aliases && sets[k].builtin
            &&& no_profile(tags, "wifi"@) && no_profile(tags, "gateway"@) ==> sets[0] == own[0]
            &&& no_profile(tags, "isp"@) ==> sets[1] == own[1]
            &&& no_profile(tags, "internet"@) ==> sets[2] == own[2]
            &&& own[0].name == "LAN"@ && own[1].name == "ISP"@ && own[2].name == "Internet"@
            &&& own[0].color == "#5fa85f"@ && own[1].color == "#2bb0c4"@
            &&& own[2].color == "#c9a227"@
            &&& own[0].aliases.len() == 2 && own[1].aliases.len() == 1 && own[2].aliases.len() == 1
            &&& own[0].aliases[0].text == "wifi"@ && own[0].aliases[0].color is None
            &&& own[0].aliases[1].text == "gateway"@
            &&& own[0].aliases[1].color == Some("#d2679a"@)
            &&& own[1].aliases[0].text == "isp"@ && own[1].aliases[0].color is None
            &&& own[2].aliases[0].text == "internet"@ && own[2].aliases[0].color is None
            &&& own[0].builtin && own[1].builtin && own[2].builtin
        }),
{
    let n = tags.len() as int;
    if no_profile(tags, "wifi"@) {
        lemma_profile_of(tags, "wifi"@, n);
    }
    if no_profile(tags, "gateway"@) {
        lemma_profile_of(tags, "gateway"@, n);
    }
    if no_profile(tags, "isp"@) {
        lemma_profile_of(tags, "isp"@, n);
    }
    if no_profile(tags, "internet"@) {
        lemma_profile_of(tags, "internet"@, n);
    }
}

/// One profile more adds a set of its own, with its tag for a name and its four thresholds, behind
/// the others, unless a built-in set goes by its tag; then it adds none.
pub proof fn other_profiles_become_sets(tags: Seq<TagView>, p: TagView)
    ensures
        ({
            let before = migrated(tags);
            let after = migrated(tags.push(p));
            if p.tag == "wifi"@ || p.tag == "gateway"@ || p.tag == "isp"@ || p.tag == "internet"@ {
                &&& after.len() == before.len()
                &&& after.skip(3) == before.skip(3)
            } else {
                let s = after.last();
                &&& after.len() == before.len() + 1
                &&& after.drop_last() == before
                &&& s.name == p.tag && s.good == p.good && s.ok == p.ok && s.poor == p.poor
                &&& s.terrible == p.terrible && s.color == "#5fa85f"@ && s.aliases.len() == 0
                &&& !s.builtin
            }
        }),
        migrated(Seq::<TagView>::empty()).len() == 3,
{
    reveal(Seq::filter);
    let all = tags.push(p);
    assert(all.drop_last() =~= tags);
    let own = tags.filter(|p: TagView| !is_built_in_tag(p.tag));
    if is_built_in_tag(p.tag) {
        assert(custom_sets(all) =~= custom_sets(tags));
        assert(migrated(all).skip(3) =~= custom_sets(all));
        assert(migrated(tags).skip(3) =~= custom_sets(tags));
    } else {
        assert(all.filter(|p: TagView| !is_built_in_tag(p.tag)) =~= own.push(p));
        assert(custom_sets(all) =~= custom_sets(tags).push(custom_set(p)));
        lemma_profile_push(tags, p, "wifi"@);
        lemma_profile_push(tags, p, "gateway"@);
        lemma_profile_push(tags, p, "isp"@);
        lemma_profile_push(tags, p, "internet"@);
        assert(migrated(all).drop_last() =~= migrated(tags));
    }
    assert(custom_sets(Seq::<TagView>::empty()) =~= Seq::<SetView>::empty());
}

/// A profile with another tag changes nothing for this one.
proof fn lemma_profile_push(tags: Seq<TagView>, p: TagView, tag: Seq<char>)
    requires
        p.tag != tag,
    ensures
        profile_of(tags.push(p), tag) == profile_of(tags, tag),
    decreases tags.len(),
{
    let all = tags.push(p);
    if tags.len() == 0 {
        assert(all.skip(1) =~= tags);
    } else {
        assert(all[0] == tags[0]);
        assert(all.skip(1) =~= tags.skip(1).push(p));
        lemma_profile_push(tags.skip(1), p, tag);
    }
}

/// Bringing a configuration into its present form touches its sets and profiles alone: sets that it
/// has stay, without sets and profiles it gets the built-in ones, and no profile is left.
pub proof fn settling_keeps_the_rest(c: ConfigView)
    ensures
        ({
            let s = settled(c);
            &&& s.targets == c.targets && s.node == c.node && s.peers == c.peers
            &&& s.theme == c.theme && s.aggregate == c.aggregate
            &&& s.tags.len() == 0
            &&& s.sets.len() > 0
            &&& c.sets.len() > 0 ==> s.sets == c.sets
            &&& c.sets.len() == 0 && c.tags.len() == 0 ==> s.sets == default_view().sets
            &&& c.sets.len() == 0 && c.tags.len() > 0 ==> s.sets == migrated(c.tags)
        }),
{
    assert(migrated(c.tags).len() >= 3);
}

/// What could be read is what is loaded, but for its sets and profiles; what could not be read
/// gives the defaults.
pub proof fn loading_keeps_what_was_read(c: ConfigView)
    ensures
        loaded(Some(c)).targets == c.targets,
        loaded(Some(c)).node == c.node,
        loaded(Some(c)).peers == c.peers,
        loaded(Some(c)).theme == c.theme,
        loaded(Some(c)).aggregate == c.aggregate,
        c.sets.len() > 0 ==> loaded(Some(c)).sets == c.sets,
        loaded(None) == (ConfigView { tags: Seq::empty(), ..default_view() }),
{
}

/// An identity is completed, never changed: each of its fields stays where it is not empty, and is
/// filled where it is.
pub proof fn identity_is_only_completed(n: NodeView, id: Seq<char>, name: Seq<char>)
    ensures
        n.id.len() > 0 ==> filled_node(n, id, name).id == n.id,
        n.id.len() == 0 ==> filled_node(n, id, name).id == id,
        n.name.len() > 0 ==> filled_node(n, id, name).name == n.name,
        n.name.len() == 0 ==> filled_node(n, id, name).name == name,
        n.mode.len() > 0 ==> filled_node(n, id, name).mode == n.mode,
        n.mode.len() == 0 ==> filled_node(n, id, name).mode == "client"@,
{
}

/// The overriding directory is taken as it is, whatever the home directory; without one the data
/// lies in the application-support directory of the home directory.
pub proof fn data_lies_where_it_is_told(dir: Seq<char>, home: Option<Seq<char>>, h: Seq<char>)
    requires
        h.len() > 0,
        h.last() != '/',
    ensures
        data_dir_view(Some(dir), home) == dir,
        data_dir_view(None, Some(h)) == h + "/"@
            + "Library/Application Support/org.est.speeddaemon"@,
        data_dir_view(None, None) == data_dir_view(None, Some("."@)),
{
    reveal_strlit("/");
    reveal_strlit("Library/Application Support/org.est.speeddaemon");
    let sub = "Library/Application Support/org.est.speeddaemon"@;
    assert(sub[0] == 'L');
    assert(h.push('/') + sub =~= h + "/"@ + sub);
}

/// The hexadecimal text of bytes has the two digits of each byte at its place.
pub proof fn bytes_have_two_digits_each(bytes: Seq<u8>, i: int)
    requires
        0 <= i < bytes.len(),
    ensures
        bytes_hex(bytes).len() == 2 * bytes.len(),
        bytes_hex(bytes).subrange(2 * i, 2 * i + 2) == hex(bytes[i] as nat, 2),
    decreases bytes.len(),
{
    lemma_bytes_hex(bytes);
    lemma_bytes_hex(bytes.drop_last());
    hex_shape(bytes.last() as nat, 2);
    let all = bytes_hex(bytes);
    let front = bytes_hex(bytes.drop_last());
    if i < bytes.len() - 1 {
        bytes_have_two_digits_each(bytes.drop_last(), i);
        assert(all.subrange(2 * i, 2 * i + 2) =~= front.subrange(2 * i, 2 * i + 2));
    } else {
        assert(all.subrange(2 * i, 2 * i + 2) =~= hex(bytes.last() as nat, 2));
    }
}

/// A target has the names that it was given, and is probed once a second.
pub proof fn targets_have_their_names(
    id: Seq<char>,
    label: Seq<char>,
    host: Seq<char>,
    tag: Seq<char>,
)
    ensures
        target_view(id, label, host, tag).id == id,
        target_view(id, label, host, tag).label == label,
        target_view(id, label, host, tag).host == host,
        target_view(id, label, host, tag).tag == tag,
        target_view(id, label, host, tag).interval_ms == 1000,
{
}

/// A fresh configuration knows nobody and has no identity yet: it is a client without id or name,
/// shows the system's theme and the worst round trips, and probes each of its targets, which have
/// different ids, once a second.
pub proof fn fresh_configurations_know_nobody(i: int, j: int)
    ensures
        ({
            let c = default_view();
            &&& c.peers.len() == 0 && c.tags.len() == 0
            &&& c.node.id.len() == 0 && c.node.name.len() == 0 && c.node.mode == "client"@
            &&& c.theme == "system"@ && c.aggregate == "worst"@
            &&& c.targets.len() == 9
            &&& 0 <= i < 9 ==> c.targets[i].interval_ms == 1000
            &&& 0 <= i < j < 9 ==> c.targets[i].id != c.targets[j].id
        }),
{
    reveal_strlit("wifi-a");
    reveal_strlit("wifi-b");
    reveal_strlit("gw-int");
    reveal_strlit("isp-dns1");
    reveal_strlit("isp-dns2");
    reveal_strlit("net-cf");
    reveal_strlit("net-google");
    reveal_strlit("net-apple");
    reveal_strlit("net-ibm");
    assert("wifi-a"@[5] != "wifi-b"@[5]);
    assert("wifi-a"@[0] != "gw-int"@[0] && "wifi-b"@[0] != "gw-int"@[0]);
    assert("wifi-a"@[0] != "net-cf"@[0] && "wifi-b"@[0] != "net-cf"@[0]);
    assert("gw-int"@[0] != "net-cf"@[0]);
    assert("isp-dns1"@[7] != "isp-dns2"@[7]);
    assert("wifi-a"@.len() == 6 && "wifi-b"@.len() == 6 && "gw-int"@.len() == 6 && "net-cf"@.len()
        == 6);
    assert("isp-dns1"@.len() == 8 && "isp-dns2"@.len() == 8 && "net-google"@.len() == 10);
    assert("net-apple"@.len() == 9 && "net-ibm"@.len() == 7);
}

} // verus!
