//! Control of the background poller: the launch agent that runs it, and the steps that install,
//! start, stop and restart it.
use crate::model::{opt_view, views};
use crate::text::{
    all_white, chars_of, contains, contains_text, decimal, decimal_reads_back, decimals_differ,
    find, find_chars, first_at, join_path, joined, lacks, lemma_find, lemma_find_concat,
    lemma_first, lemma_lacks, occurs_at, parse_unsigned, push_decimal, read_unsigned,
    texts_are_found_where_they_stand, trim, trim_keeps_words, trim_takes_the_white_space_around,
    trimmed,
};
use vstd::prelude::*;
use vstd::string::StringExecFns;

verus! {

/// The launch agent's label.
pub const LABEL: &'static str = "org.est.speeddaemon";

/// The launch domain of the user `uid`: `gui/<uid>`.
pub open spec fn domain_view(uid: u32) -> Seq<char> {
    "gui/"@ + decimal(uid as nat)
}

/// The launch domain of the user `uid`.
pub fn svc_domain(uid: u32) -> (r: String)
    ensures
        r@ == domain_view(uid),
{
    let mut r = "gui/".to_owned();
    push_decimal(&mut r, uid as u64);
    r
}

/// The service of the user `uid`: `gui/<uid>/<label>`.
pub open spec fn service_view(uid: u32) -> Seq<char> {
    domain_view(uid) + "/"@ + LABEL@
}

/// The service of the user `uid`.
pub fn svc_target(uid: u32) -> (r: String)
    ensures
        r@ == service_view(uid),
{
    let mut r = svc_domain(uid);
    r.append("/");
    r.append(LABEL);
    r
}

/// Where the agent's property list is kept, under the value of `HOME` (or under nothing).
pub fn plist_path(home: Option<String>) -> (r: String)
    ensures
        r@ == joined(
            joined(
                match home {
                    Some(h) => h@,
                    None => Seq::empty(),
                },
                "Library/LaunchAgents"@,
            ),
            LABEL@ + ".plist"@,
        ),
{
    let base = match home {
        Some(h) => h,
        None => String::new(),
    };
    let dir = join_path(base.as_str(), "Library/LaunchAgents");
    let mut name = LABEL.to_owned();
    name.append(".plist");
    join_path(dir.as_str(), name.as_str())
}

/// The poller binary, at a path that application updates do not replace.
pub fn speedd_path(data_dir: &str) -> (r: String)
    ensures
        r@ == joined(data_dir@, "speedd"@),
{
    join_path(data_dir, "speedd")
}

/// Whether the service is running, from what `launchctl print` wrote.
pub fn poller_running(printed: Option<String>) -> (r: bool)
    ensures
        r == (printed is Some && contains(printed->0@, "state = running"@)),
{
    match printed {
        Some(out) => contains_text(out.as_str(), "state = running"),
        None => false,
    }
}

// ---- the property list -----------------------------------------------------

/// A property list starts its agent at login when the `<true/>` after `RunAtLoad` comes before
/// any `<false/>`.
pub open spec fn starts_at_login(text: Seq<char>) -> bool {
    match find(text, "RunAtLoad"@) {
        Some(i) => {
            let rest = text.skip(i + 9);
            match (find(rest, "<true/>"@), find(rest, "<false/>"@)) {
                (Some(_), None) => true,
                (Some(a), Some(b)) => a < b,
                _ => false,
            }
        },
        None => false,
    }
}

/// Whether the installed property list starts the agent at login; it does not where there is
/// none to read.
pub fn plist_at_login(text: Option<String>) -> (r: bool)
    ensures
        r == (text is Some && starts_at_login(text->0@)),
{
    let text = match text {
        Some(t) => t,
        None => {
            return false;
        },
    };
    proof {
        reveal_strlit("RunAtLoad");
    }
    let mut chars = chars_of(text.as_str());
    let at = match find_chars(&chars, &chars_of("RunAtLoad")) {
        Some(i) => i,
        None => {
            return false;
        },
    };
    assert(at + 9 <= chars.len());
    let rest = chars.split_off(at + 9);
    assert(rest@ =~= text@.skip(at + 9));
    match (find_chars(&rest, &chars_of("<true/>")), find_chars(&rest, &chars_of("<false/>"))) {
        (Some(_), None) => true,
        (Some(a), Some(b)) => a < b,
        _ => false,
    }
}

/// A boolean in a property list.
pub open spec fn plist_bool(b: bool) -> Seq<char> {
    if b {
        "<true/>"@
    } else {
        "<false/>"@
    }
}

/// The property list up to the path of the program it runs.
pub open spec fn plist_head() -> Seq<char> {
    "<?xml version=\"1.0\" encoding=\"UTF-8\"?>\n"@
        + "<!DOCTYPE plist PUBLIC \"-//Apple//DTD PLIST 1.0//EN\" "@
        + "\"http://www.apple.com/DTDs/PropertyList-1.0.dtd\">\n"@
        + "<plist version=\"1.0\">\n<dict>\n    <key>Label</key>\n    <string>"@ + LABEL@
        + "</string>\n    <key>ProgramArguments</key>\n    <array>\n        <string>"@
}

/// The property list from `RunAtLoad` on.
pub open spec fn plist_tail(log: Seq<char>, at_login: bool) -> Seq<char> {
    "</key>\n    "@ + plist_bool(at_login) + "\n    <key>KeepAlive</key>\n    "@ + plist_bool(
        at_login,
    ) + "\n    <key>ProcessType</key>\n    <string>Interactive</string>\n"@
        + "    <key>StandardErrorPath</key>\n    <string>"@ + log
        + "</string>\n    <key>StandardOutPath</key>\n    <string>"@ + log
        + "</string>\n</dict>\n</plist>\n"@
}

/// The agent's property list: it runs `bin`, writes to `log`, and is started at login and kept
/// alive where `at_login` says so.
pub open spec fn plist_view(bin: Seq<char>, log: Seq<char>, at_login: bool) -> Seq<char> {
    plist_head() + bin + "</string>\n    </array>\n    <key>"@ + "RunAtLoad"@ + plist_tail(
        log,
        at_login,
    )
}

/// The agent's property list.
pub fn plist_text(bin: &str, log: &str, at_login: bool) -> (r: String)
    ensures
        r@ == plist_view(bin@, log@, at_login),
{
    let value = if at_login {
        "<true/>"
    } else {
        "<false/>"
    };
    let mut r = "<?xml version=\"1.0\" encoding=\"UTF-8\"?>\n".to_owned();
    r.append("<!DOCTYPE plist PUBLIC \"-//Apple//DTD PLIST 1.0//EN\" ");
    r.append("\"http://www.apple.com/DTDs/PropertyList-1.0.dtd\">\n");
    r.append("<plist version=\"1.0\">\n<dict>\n    <key>Label</key>\n    <string>");
    r.append(LABEL);
    r.append("</string>\n    <key>ProgramArguments</key>\n    <array>\n        <string>");
    r.append(bin);
    r.append("</string>\n    </array>\n    <key>");
    r.append("RunAtLoad");
    r.append("</key>\n    ");
    r.append(value);
    r.append("\n    <key>KeepAlive</key>\n    ");
    r.append(value);
    r.append("\n    <key>ProcessType</key>\n    <string>Interactive</string>\n");
    r.append("    <key>StandardErrorPath</key>\n    <string>");
    r.append(log);
    r.append("</string>\n    <key>StandardOutPath</key>\n    <string>");
    r.append(log);
    r.append("</string>\n</dict>\n</plist>\n");
    assert(r@ =~= plist_view(bin@, log@, at_login));
    r
}

/// The path `bin` itself holds a `RunAtLoad`, and after its first one the value that is the
/// opposite of `at_login` before the value `at_login`.
pub open spec fn misleading(bin: Seq<char>, at_login: bool) -> bool {
    match find(bin, "RunAtLoad"@) {
        Some(i) => {
            let rest = bin.skip(i + 9);
            match (find(rest, plist_bool(!at_login)), find(rest, plist_bool(at_login))) {
                (Some(_), None) => true,
                (Some(a), Some(b)) => a < b,
                _ => false,
            }
        },
        None => false,
    }
}

proof fn lemma_head()
    ensures
        find(plist_head(), "RunAtLoad"@) is None,
        plist_head().len() > 0,
        plist_head().last() == '>',
{
    let a = "<?xml version=\"1.0\" encoding=\"UTF-8\"?>\n"@;
    let b = "<!DOCTYPE plist PUBLIC \"-//Apple//DTD PLIST 1.0//EN\" "@;
    let c = "\"http://www.apple.com/DTDs/PropertyList-1.0.dtd\">\n"@;
    let d = "<plist version=\"1.0\">\n<dict>\n    <key>Label</key>\n    <string>"@;
    let e = "</string>\n    <key>ProgramArguments</key>\n    <array>\n        <string>"@;
    assert(lacks(a, 'R')) by {
        reveal_strlit("<?xml version=\"1.0\" encoding=\"UTF-8\"?>\n");
    }
    assert(lacks(b, 'R')) by {
        reveal_strlit("<!DOCTYPE plist PUBLIC \"-//Apple//DTD PLIST 1.0//EN\" ");
    }
    assert(lacks(c, 'R')) by {
        reveal_strlit("\"http://www.apple.com/DTDs/PropertyList-1.0.dtd\">\n");
    }
    assert(lacks(d, 'R')) by {
        reveal_strlit("<plist version=\"1.0\">\n<dict>\n    <key>Label</key>\n    <string>");
    }
    assert(lacks(LABEL@, 'R')) by {
        reveal_strlit("org.est.speeddaemon");
    }
    assert(lacks(e, 'R') && e.len() > 0 && e.last() == '>') by {
        reveal_strlit(
            "</string>\n    <key>ProgramArguments</key>\n    <array>\n        <string>",
        );
    }
    reveal_strlit("RunAtLoad");
    assert(plist_head() == a + b + c + d + LABEL@ + e);
    assert(lacks(plist_head(), 'R'));
    lemma_lacks(plist_head(), "RunAtLoad"@, 0);
}

/// The text between a program's path and the value of `RunAtLoad` holds `RunAtLoad` once and
/// neither value.
proof fn lemma_lead(value: bool)
    ensures
        ({
            let x = "</string>\n    </array>\n    <key>"@;
            let y = "</key>\n    "@;
            &&& find(x, "RunAtLoad"@) is None
            &&& find(x, plist_bool(value)) is None
            &&& find("RunAtLoad"@, plist_bool(value)) is None
            &&& find(y, plist_bool(value)) is None
            &&& x.len() > 0 && x[0] == '<' && x.last() == '>'
            &&& y.len() > 0 && y[0] == '<'
            &&& "RunAtLoad"@.len() == 9
            &&& "RunAtLoad"@[0] == 'R'
            &&& lacks("RunAtLoad"@, '<')
            &&& lacks("RunAtLoad"@, '>')
            &&& plist_bool(value).len() > 0
            &&& plist_bool(value)[0] == '<'
            &&& lacks(plist_bool(value), 'R')
            &&& forall|k: int| 1 <= k < plist_bool(value).len() ==> plist_bool(value)[k] != '<'
        }),
{
    let x = "</string>\n    </array>\n    <key>"@;
    let y = "</key>\n    "@;
    let r = "RunAtLoad"@;
    reveal_strlit("</string>\n    </array>\n    <key>");
    reveal_strlit("</key>\n    ");
    reveal_strlit("RunAtLoad");
    reveal_strlit("<true/>");
    reveal_strlit("<false/>");
    assert(lacks(x, 'R') && lacks(x, 'u') && lacks(x, 'f'));
    assert(lacks(y, 'u') && lacks(y, 'f'));
    lemma_lacks(x, r, 0);
    lemma_lacks(r, plist_bool(value), 0);
    if value {
        lemma_lacks(x, plist_bool(value), 3);
        lemma_lacks(y, plist_bool(value), 3);
    } else {
        lemma_lacks(x, plist_bool(value), 1);
        lemma_lacks(y, plist_bool(value), 1);
    }
}

/// The first value after some text that does not name the opposite value first.
proof fn lemma_value_first(lead: Seq<char>, more: Seq<char>, at_login: bool)
    requires
        match (find(lead, plist_bool(!at_login)), find(lead, plist_bool(at_login))) {
            (Some(_), None) => false,
            (Some(a), Some(b)) => b <= a,
            _ => true,
        },
    ensures
        ({
            let rest = lead + (plist_bool(at_login) + more);
            match (find(rest, "<true/>"@), find(rest, "<false/>"@)) {
                (Some(_), None) => true,
                (Some(a), Some(b)) => a < b,
                _ => false,
            }
        }) == at_login,
{
    let own = plist_bool(at_login);
    let opp = plist_bool(!at_login);
    let y = own + more;
    lemma_lead(at_login);
    lemma_lead(!at_login);
    lemma_find_concat(lead, y, own);
    lemma_find_concat(lead, y, opp);
    assert(y.subrange(0, own.len() as int) =~= own);
    lemma_find(y, own, 0);
    reveal_strlit("<true/>");
    reveal_strlit("<false/>");
    if contains(lead, own) {
        lemma_first(lead, own);
    }
    if contains(lead, opp) {
        lemma_first(lead, opp);
        if find(lead, own) == find(lead, opp) {
            let i = find(lead, own)->0;
            assert(lead.subrange(i, i + own.len())[1] == lead[i + 1]);
            assert(lead.subrange(i, i + opp.len())[1] == lead[i + 1]);
        }
    }
    if contains(y, opp) {
        lemma_first(y, opp);
        if find(y, opp) == Some(0int) {
            assert(y.subrange(0, opp.len() as int)[1] == y[1]);
        }
    }
}

/// A property list that was written to start the agent at login, or not to, is read back as
/// such, whatever the log's path, and whatever the program's path unless it is misleading.
pub proof fn login_setting_reads_back(bin: Seq<char>, log: Seq<char>, at_login: bool)
    requires
        !misleading(bin, at_login),
    ensures
        starts_at_login(plist_view(bin, log, at_login)) == at_login,
{
    let run = "RunAtLoad"@;
    let head = plist_head();
    let x = "</string>\n    </array>\n    <key>"@;
    let y = "</key>\n    "@;
    let own = plist_bool(at_login);
    let opp = plist_bool(!at_login);
    lemma_head();
    lemma_lead(at_login);
    lemma_lead(!at_login);
    let more = "\n    <key>KeepAlive</key>\n    "@ + own
        + "\n    <key>ProcessType</key>\n    <string>Interactive</string>\n"@
        + "    <key>StandardErrorPath</key>\n    <string>"@ + log
        + "</string>\n    <key>StandardOutPath</key>\n    <string>"@ + log
        + "</string>\n</dict>\n</plist>\n"@;
    let value = own + more;
    let tail = run + (y + value);
    let after = x + tail;
    let all = plist_view(bin, log, at_login);
    assert(plist_tail(log, at_login) =~= y + value);
    assert(all =~= head + (bin + after));
    // The first `RunAtLoad` is the path's first one, or the key.
    assert(tail.subrange(0, 9) =~= run);
    lemma_find(tail, run, 0);
    lemma_find_concat(x, tail, run);
    lemma_find_concat(bin, after, run);
    lemma_find_concat(head, bin + after, run);
    // Between the path and the value stands neither value.
    lemma_find_concat(run, y, own);
    lemma_find_concat(run, y, opp);
    lemma_find_concat(x, run + y, own);
    lemma_find_concat(x, run + y, opp);
    if contains(bin, run) {
        lemma_first(bin, run);
        let i = find(bin, run)->0;
        let part = bin.skip(i + 9);
        let lead = part + (x + (run + y));
        lemma_find_concat(part, x + (run + y), own);
        lemma_find_concat(part, x + (run + y), opp);
        assert(all.skip(head.len() + i + 9) =~= lead + value);
        if contains(part, opp) && contains(part, own) {
            lemma_first(part, opp);
            lemma_first(part, own);
        }
        lemma_value_first(lead, more, at_login);
    } else {
        let at: int = head.len() + bin.len() + x.len() as int;
        assert(find(all, run) == Some(at));
        assert(all.skip(at + 9) =~= y + value);
        lemma_value_first(y, more, at_login);
    }
}

// ---- status ----------------------------------------------------------------

/// What is known of the poller.
#[derive(Clone, Copy, PartialEq, Eq, Structural, Debug)]
pub struct PollerStatus {
    pub running: bool,
    pub at_login: bool,
    pub installed: bool,
}

/// The poller's status: whether it runs, and, from the property list where there is one, whether
/// it starts at login. `present` says whether the list is there; `text` is what could be read of
/// it.
pub fn poller_state(running: bool, present: bool, text: Option<String>) -> (r: PollerStatus)
    ensures
        r == (PollerStatus {
            running,
            at_login: present && text is Some && starts_at_login(text->0@),
            installed: present,
        }),
        r.running <==> running,
        r.installed <==> present,
        !present || text is None ==> !r.at_login,
{
    PollerStatus { running, at_login: present && plist_at_login(text), installed: present }
}

// ---- launchctl -------------------------------------------------------------

/// A call of `launchctl`.
#[derive(Clone, Copy, PartialEq, Eq, Structural, Debug)]
pub enum LaunchCall {
    /// Load the agent.
    Bootstrap,
    /// Start it where it is loaded and not running.
    Kickstart,
    /// Stop and unload it.
    Bootout,
    /// Describe it: succeeds exactly while it is loaded.
    Print,
    /// Have it read its configuration again.
    Reload,
}

/// The arguments of a `launchctl` call.
pub open spec fn launch_args(call: LaunchCall, uid: u32, plist: Seq<char>) -> Seq<Seq<char>> {
    match call {
        LaunchCall::Bootstrap => seq!["bootstrap"@, domain_view(uid), plist],
        LaunchCall::Kickstart => seq!["kickstart"@, service_view(uid)],
        LaunchCall::Bootout => seq!["bootout"@, service_view(uid)],
        LaunchCall::Print => seq!["print"@, service_view(uid)],
        LaunchCall::Reload => seq!["kill"@, "SIGHUP"@, service_view(uid)],
    }
}

/// The arguments of a `launchctl` call, for the user `uid` and the agent's property list.
pub fn launchctl_args(call: LaunchCall, uid: u32, plist: &str) -> (r: Vec<String>)
    ensures
        views(r@) == launch_args(call, uid, plist@),
{
    let r = match call {
        LaunchCall::Bootstrap => vec![
            "bootstrap".to_owned(),
            svc_domain(uid),
            plist.to_owned(),
        ],
        LaunchCall::Kickstart => vec!["kickstart".to_owned(), svc_target(uid)],
        LaunchCall::Bootout => vec!["bootout".to_owned(), svc_target(uid)],
        LaunchCall::Print => vec!["print".to_owned(), svc_target(uid)],
        LaunchCall::Reload => vec!["kill".to_owned(), "SIGHUP".to_owned(), svc_target(uid)],
    };
    assert(views(r@) =~= launch_args(call, uid, plist@));
    r
}

/// How the poller is stopped: the arguments of the `launchctl` call that unloads it.
pub fn stop_poller(uid: u32) -> (r: Vec<String>)
    ensures
        views(r@) == seq!["bootout"@, service_view(uid)],
{
    launchctl_args(LaunchCall::Bootout, uid, "")
}

// ---- starting and restarting -----------------------------------------------

/// What is to be done next while the poller is started or restarted.
#[derive(Clone, Copy, PartialEq, Eq, Structural, Debug)]
pub enum PollerAction {
    /// Say whether the property list is there.
    LookForPlist,
    /// Write a property list that starts the agent at login.
    WritePlist,
    /// Say whether the service is loaded.
    CheckLoaded,
    Call(LaunchCall),
    SleepMs(u64),
    Done,
}

/// Where a start or restart of the poller stands. `left` counts the rounds of the current loop
/// that may still be made, this one included.
#[derive(Clone, Copy, PartialEq, Eq, Structural, Debug)]
pub enum PollerPhase {
    /// The old instance is being unloaded.
    Stopping,
    /// Waiting for the old instance to be gone.
    Draining { left: u8 },
    DrainPause { left: u8 },
    /// Looking for a property list.
    Looking,
    WritingPlist,
    /// Is the service loaded already?
    Checking { left: u8 },
    Bootstrapping { left: u8 },
    /// Has loading it worked? It fails while an old instance is still being unloaded.
    Rechecking { left: u8 },
    Pausing { left: u8 },
    Kickstarting,
    Finished,
}

/// How often loading, or waiting for an unload, is tried.
pub const ROUNDS: u8 = 15;

/// The phase after `p`, when the action of `p` was answered with `yes`. Only the two questions
/// have an answer that counts.
pub open spec fn phase_after(p: PollerPhase, yes: bool) -> PollerPhase {
    match p {
        PollerPhase::Stopping => PollerPhase::Draining { left: ROUNDS },
        PollerPhase::Draining { left } => if yes {
            PollerPhase::DrainPause { left }
        } else {
            PollerPhase::Looking
        },
        PollerPhase::DrainPause { left } => if left > 1 {
            PollerPhase::Draining { left: (left - 1) as u8 }
        } else {
            PollerPhase::Looking
        },
        PollerPhase::Looking => if yes {
            PollerPhase::Checking { left: ROUNDS }
        } else {
            PollerPhase::WritingPlist
        },
        PollerPhase::WritingPlist => PollerPhase::Checking { left: ROUNDS },
        PollerPhase::Checking { left } => if yes {
            PollerPhase::Kickstarting
        } else {
            PollerPhase::Bootstrapping { left }
        },
        PollerPhase::Bootstrapping { left } => PollerPhase::Rechecking { left },
        PollerPhase::Rechecking { left } => if yes {
            PollerPhase::Kickstarting
        } else {
            PollerPhase::Pausing { left }
        },
        PollerPhase::Pausing { left } => if left > 1 {
            PollerPhase::Checking { left: (left - 1) as u8 }
        } else {
            PollerPhase::Kickstarting
        },
        PollerPhase::Kickstarting => PollerPhase::Finished,
        PollerPhase::Finished => PollerPhase::Finished,
    }
}

/// What a phase asks to be done.
pub open spec fn phase_action(p: PollerPhase) -> PollerAction {
    match p {
        PollerPhase::Stopping => PollerAction::Call(LaunchCall::Bootout),
        PollerPhase::Draining { .. } => PollerAction::CheckLoaded,
        PollerPhase::DrainPause { .. } => PollerAction::SleepMs(200),
        PollerPhase::Looking => PollerAction::LookForPlist,
        PollerPhase::WritingPlist => PollerAction::WritePlist,
        PollerPhase::Checking { .. } => PollerAction::CheckLoaded,
        PollerPhase::Bootstrapping { .. } => PollerAction::Call(LaunchCall::Bootstrap),
        PollerPhase::Rechecking { .. } => PollerAction::CheckLoaded,
        PollerPhase::Pausing { .. } => PollerAction::SleepMs(300),
        PollerPhase::Kickstarting => PollerAction::Call(LaunchCall::Kickstart),
        PollerPhase::Finished => PollerAction::Done,
    }
}

/// The first phase of starting the poller.
pub fn start_poller() -> (r: PollerPhase)
    ensures
        r == PollerPhase::Looking,
{
    PollerPhase::Looking
}

/// The first phase of restarting the poller.
pub fn restart_poller() -> (r: PollerPhase)
    ensures
        r == PollerPhase::Stopping,
{
    PollerPhase::Stopping
}

impl PollerPhase {
    /// What this phase asks to be done.
    pub fn action(self) -> (r: PollerAction)
        ensures
            r == phase_action(self),
    {
        match self {
            PollerPhase::Stopping => PollerAction::Call(LaunchCall::Bootout),
            PollerPhase::Draining { .. } => PollerAction::CheckLoaded,
            PollerPhase::DrainPause { .. } => PollerAction::SleepMs(200),
            PollerPhase::Looking => PollerAction::LookForPlist,
            PollerPhase::WritingPlist => PollerAction::WritePlist,
            PollerPhase::Checking { .. } => PollerAction::CheckLoaded,
            PollerPhase::Bootstrapping { .. } => PollerAction::Call(LaunchCall::Bootstrap),
            PollerPhase::Rechecking { .. } => PollerAction::CheckLoaded,
            PollerPhase::Pausing { .. } => PollerAction::SleepMs(300),
            PollerPhase::Kickstarting => PollerAction::Call(LaunchCall::Kickstart),
            PollerPhase::Finished => PollerAction::Done,
        }
    }

    /// The phase that follows once this one's action has been done, and answered with `yes`
    /// where it is a question.
    pub fn next(self, yes: bool) -> (r: PollerPhase)
        ensures
            r == phase_after(self, yes),
    {
        match self {
            PollerPhase::Stopping => PollerPhase::Draining { left: ROUNDS },
            PollerPhase::Draining { left } => if yes {
                PollerPhase::DrainPause { left }
            } else {
                PollerPhase::Looking
            },
            PollerPhase::DrainPause { left } => if left > 1 {
                PollerPhase::Draining { left: left - 1 }
            } else {
                PollerPhase::Looking
            },
            PollerPhase::Looking => if yes {
                PollerPhase::Checking { left: ROUNDS }
            } else {
                PollerPhase::WritingPlist
            },
            PollerPhase::WritingPlist => PollerPhase::Checking { left: ROUNDS },
            PollerPhase::Checking { left } => if yes {
                PollerPhase::Kickstarting
            } else {
                PollerPhase::Bootstrapping { left }
            },
            PollerPhase::Bootstrapping { left } => PollerPhase::Rechecking { left },
            PollerPhase::Rechecking { left } => if yes {
                PollerPhase::Kickstarting
            } else {
                PollerPhase::Pausing { left }
            },
            PollerPhase::Pausing { left } => if left > 1 {
                PollerPhase::Checking { left: left - 1 }
            } else {
                PollerPhase::Kickstarting
            },
            PollerPhase::Kickstarting => PollerPhase::Finished,
            PollerPhase::Finished => PollerPhase::Finished,
        }
    }
}

/// How many steps can still be made from a phase.
pub open spec fn steps_left(p: PollerPhase) -> nat {
    match p {
        PollerPhase::Stopping => 2000,
        PollerPhase::Draining { left } => 1401 + 2 * left as nat,
        PollerPhase::DrainPause { left } => 1400 + 2 * left as nat,
        PollerPhase::Looking => 1302,
        PollerPhase::WritingPlist => 1301,
        PollerPhase::Checking { left } => 5 + 4 * left as nat,
        PollerPhase::Bootstrapping { left } => 4 + 4 * left as nat,
        PollerPhase::Rechecking { left } => 3 + 4 * left as nat,
        PollerPhase::Pausing { left } => 2 + 4 * left as nat,
        PollerPhase::Kickstarting => 1,
        PollerPhase::Finished => 0,
    }
}

/// How often an action is taken from phase `p` on, when the `k`-th answer is `answers(k)`.
pub open spec fn times(
    action: PollerAction,
    p: PollerPhase,
    answers: spec_fn(nat) -> bool,
    k: nat,
) -> nat
    decreases steps_left(p),
{
    if p == PollerPhase::Finished {
        0
    } else {
        (if phase_action(p) == action {
            1nat
        } else {
            0nat
        }) + times(action, phase_after(p, answers(k)), answers, k + 1)
    }
}

/// How often loading can still be tried from a phase.
pub open spec fn bootstraps_left(p: PollerPhase) -> nat {
    match p {
        PollerPhase::Checking { left } => if left == 0 {
            1
        } else {
            left as nat
        },
        PollerPhase::Bootstrapping { left } => if left == 0 {
            1
        } else {
            left as nat
        },
        PollerPhase::Rechecking { left } => if left == 0 {
            0
        } else {
            (left - 1) as nat
        },
        PollerPhase::Pausing { left } => if left == 0 {
            0
        } else {
            (left - 1) as nat
        },
        PollerPhase::Kickstarting => 0,
        PollerPhase::Finished => 0,
        _ => ROUNDS as nat,
    }
}

/// However the questions are answered, a start or restart of the poller that has not finished
/// comes to an end and asks for exactly one kickstart, and tries to load the service no more
/// often than it has rounds left.
pub proof fn poller_run_ends(p: PollerPhase, answers: spec_fn(nat) -> bool, k: nat)
    requires
        p != PollerPhase::Finished,
    ensures
        times(PollerAction::Call(LaunchCall::Kickstart), p, answers, k) == 1,
        times(PollerAction::Call(LaunchCall::Bootstrap), p, answers, k) <= bootstraps_left(p),
    decreases steps_left(p),
{
    let q = phase_after(p, answers(k));
    if q == PollerPhase::Finished {
        assert(times(PollerAction::Call(LaunchCall::Kickstart), q, answers, k + 1) == 0);
        assert(times(PollerAction::Call(LaunchCall::Bootstrap), q, answers, k + 1) == 0);
    } else {
        poller_run_ends(q, answers, k + 1);
    }
}

// ---- installing ------------------------------------------------------------

/// The bundled poller's version marker (its modification time) as it was last stamped.
pub open spec fn stamped(stamp: Option<Seq<char>>) -> Option<nat> {
    match stamp {
        Some(s) => read_unsigned(trim(s), u64::MAX as nat),
        None => None,
    }
}

/// Whether the bundled poller has to be copied to its stable path: it is not there, or the
/// bundle's marker is unknown or is not the one that was stamped.
pub open spec fn copy_needed(
    stable_exists: bool,
    marker: Option<u64>,
    stamp: Option<Seq<char>>,
) -> bool {
    !stable_exists || marker is None || stamped(stamp) != Some(marker->0 as nat)
}

/// Whether the bundled poller has to be copied to its stable path.
pub fn needs_copy(stable_exists: bool, marker: Option<u64>, stamp: Option<String>) -> (r: bool)
    ensures
        r == copy_needed(stable_exists, marker, opt_view(stamp)),
{
    let last: Option<u64> = match stamp {
        Some(s) => parse_unsigned(&trimmed(s.as_str()), u64::MAX),
        None => None,
    };
    if !stable_exists {
        return true;
    }
    match (marker, last) {
        (Some(m), Some(l)) => m != l,
        _ => true,
    }
}

/// The text of a stamp.
pub fn stamp_text(marker: u64) -> (r: String)
    ensures
        r@ == decimal(marker as nat),
{
    let mut r = String::new();
    push_decimal(&mut r, marker);
    r
}

/// A poller that was copied and stamped is copied again exactly when it is gone or the bundle
/// has another marker.
pub proof fn stamped_copy_is_kept(present: bool, stamped_marker: u64, marker: u64)
    ensures
        copy_needed(present, Some(marker), Some(decimal(stamped_marker as nat))) == (!present
            || marker != stamped_marker),
{
    decimal_reads_back(stamped_marker as nat, u64::MAX as nat);
    trim_keeps_words(decimal(stamped_marker as nat));
    assert(stamped(Some(decimal(stamped_marker as nat))) == Some(stamped_marker as nat));
}

/// What an application start does about the agent.
#[derive(Clone, Copy, PartialEq, Eq, Structural, Debug)]
pub enum InstallAction {
    /// Write a property list that starts the agent at login, and start the poller.
    Install,
    /// Restart the poller onto its new binary.
    Restart,
    Nothing,
}

/// What an application start does about the agent: a first run installs it; a run that replaced
/// the binary of a running poller restarts it. One that is paused stays paused.
pub fn install_action(plist_exists: bool, updated: bool, running: bool) -> (r: InstallAction)
    ensures
        r == (if !plist_exists {
            InstallAction::Install
        } else if updated && running {
            InstallAction::Restart
        } else {
            InstallAction::Nothing
        }),
        r is Install <==> !plist_exists,
        r is Restart <==> plist_exists && updated && running,
        r is Nothing <==> plist_exists && !(updated && running),
{
    if !plist_exists {
        InstallAction::Install
    } else if updated && running {
        InstallAction::Restart
    } else {
        InstallAction::Nothing
    }
}

// ---- laws ------------------------------------------------------------------

/// A start looks for the property list and writes one exactly where there is none; it never unloads
/// anything.
pub proof fn a_missing_list_is_written_once(answers: spec_fn(nat) -> bool, k: nat)
    ensures
        phase_action(PollerPhase::Looking) == PollerAction::LookForPlist,
        times(PollerAction::WritePlist, PollerPhase::Looking, answers, k) == if answers(k) {
            0nat
        } else {
            1nat
        },
        times(PollerAction::Call(LaunchCall::Bootout), PollerPhase::Looking, answers, k) == 0,
{
    let q = phase_after(PollerPhase::Looking, answers(k));
    lemma_loading_only(PollerPhase::Checking { left: ROUNDS }, answers, k + 1);
    lemma_loading_only(PollerPhase::Checking { left: ROUNDS }, answers, k + 2);
    if !answers(k) {
        assert(times(PollerAction::WritePlist, q, answers, k + 1) == 1 + times(
            PollerAction::WritePlist,
            phase_after(q, answers(k + 1)),
            answers,
            k + 2,
        ));
        assert(times(PollerAction::Call(LaunchCall::Bootout), q, answers, k + 1) == times(
            PollerAction::Call(LaunchCall::Bootout),
            phase_after(q, answers(k + 1)),
            answers,
            k + 2,
        ));
    }
}

/// From the first question on, whether the service is loaded, nothing is written or unloaded.
proof fn lemma_loading_only(p: PollerPhase, answers: spec_fn(nat) -> bool, k: nat)
    requires
        !(p is Stopping) && !(p is Draining) && !(p is DrainPause) && !(p is Looking) && !(p
            is WritingPlist),
    ensures
        times(PollerAction::WritePlist, p, answers, k) == 0,
        times(PollerAction::Call(LaunchCall::Bootout), p, answers, k) == 0,
    decreases steps_left(p),
{
    if !(p is Finished) {
        lemma_loading_only(phase_after(p, answers(k)), answers, k + 1);
    }
}

/// A restart unloads the old instance first, and once.
pub proof fn a_restart_unloads_first(answers: spec_fn(nat) -> bool, k: nat)
    ensures
        phase_action(PollerPhase::Stopping) == PollerAction::Call(LaunchCall::Bootout),
        times(PollerAction::Call(LaunchCall::Bootout), PollerPhase::Stopping, answers, k) == 1,
{
    lemma_draining_only(PollerPhase::Draining { left: ROUNDS }, answers, k + 1);
}

/// Waiting for the old instance to be gone unloads nothing more.
proof fn lemma_draining_only(p: PollerPhase, answers: spec_fn(nat) -> bool, k: nat)
    requires
        p is Draining || p is DrainPause || p is Looking,
    ensures
        times(PollerAction::Call(LaunchCall::Bootout), p, answers, k) == 0,
    decreases steps_left(p),
{
    if p is Looking {
        a_missing_list_is_written_once(answers, k);
    } else {
        lemma_draining_only(phase_after(p, answers(k)), answers, k + 1);
    }
}

/// As long as the old instance is loaded a restart waits a fifth of a second and asks again, up to
/// fifteen times; once it is gone, or the rounds are used up, the start goes on.
pub proof fn restarts_wait_for_the_old_instance(left: u8)
    ensures
        phase_after(PollerPhase::Stopping, true) == (PollerPhase::Draining { left: 15 }),
        phase_after(PollerPhase::Stopping, false) == (PollerPhase::Draining { left: 15 }),
        phase_action(PollerPhase::Draining { left }) is CheckLoaded,
        phase_after(PollerPhase::Draining { left }, false) is Looking,
        phase_action(phase_after(PollerPhase::Draining { left }, true)) == PollerAction::SleepMs(
            200,
        ),
        left > 1 ==> phase_after(phase_after(PollerPhase::Draining { left }, true), true) == (
        PollerPhase::Draining { left: (left - 1) as u8 }),
        left <= 1 ==> phase_after(phase_after(PollerPhase::Draining { left }, true), true)
            is Looking,
{
}

/// A service that is loaded is not loaded again but kicked off; one that is not is loaded, and
/// where that did not work the next try follows three tenths of a second later.
pub proof fn services_are_loaded_where_they_are_not(left: u8)
    ensures
        phase_action(PollerPhase::Checking { left }) is CheckLoaded,
        phase_action(phase_after(PollerPhase::Checking { left }, true)) == PollerAction::Call(
            LaunchCall::Kickstart,
        ),
        phase_action(phase_after(PollerPhase::Checking { left }, false)) == PollerAction::Call(
            LaunchCall::Bootstrap,
        ),
        ({
            let asked = phase_after(phase_after(PollerPhase::Checking { left }, false), true);
            let failed = phase_after(asked, false);
            &&& phase_action(asked) is CheckLoaded
            &&& phase_action(phase_after(asked, true)) == PollerAction::Call(LaunchCall::Kickstart)
            &&& phase_action(failed) == PollerAction::SleepMs(300)
            &&& left > 1 ==> phase_after(failed, true) == (PollerPhase::Checking {
                left: (left - 1) as u8,
            })
            &&& left <= 1 ==> phase_action(phase_after(failed, true)) == PollerAction::Call(
                LaunchCall::Kickstart,
            )
        }),
{
}

/// A start that is told each time that the service is not loaded tries to load it in every round
/// that it has left before it gives up.
pub proof fn loading_is_tried_in_every_round(
    p: PollerPhase,
    left: u8,
    answers: spec_fn(nat) -> bool,
    k: nat,
)
    requires
        left > 0,
        p == (PollerPhase::Checking { left }),
        forall|j: nat| k <= j ==> !#[trigger] answers(j),
    ensures
        times(PollerAction::Call(LaunchCall::Bootstrap), p, answers, k) == left,
    decreases left,
{
    let a = PollerAction::Call(LaunchCall::Bootstrap);
    let p1 = PollerPhase::Bootstrapping { left };
    let p2 = PollerPhase::Rechecking { left };
    let p3 = PollerPhase::Pausing { left };
    assert(!answers(k) && !answers(k + 2));
    assert(times(a, p, answers, k) == times(a, p1, answers, k + 1));
    assert(times(a, p1, answers, k + 1) == 1 + times(a, p2, answers, k + 2));
    assert(times(a, p2, answers, k + 2) == times(a, p3, answers, k + 3));
    let p4 = phase_after(p3, answers(k + 3));
    assert(times(a, p3, answers, k + 3) == times(a, p4, answers, k + 4));
    if left > 1 {
        loading_is_tried_in_every_round(p4, (left - 1) as u8, answers, k + 4);
    } else {
        assert(times(a, p4, answers, k + 4) == times(
            a,
            PollerPhase::Finished,
            answers,
            k + 5,
        ));
    }
}

/// Every user has a launch domain and a service of their own, and the service is in the domain.
pub proof fn users_have_their_own_services(a: u32, b: u32)
    ensures
        domain_view(a) == domain_view(b) <==> a == b,
        service_view(a) == service_view(b) <==> a == b,
        service_view(a).take(domain_view(a).len() as int) == domain_view(a),
        service_view(a).skip(domain_view(a).len() as int) == "/org.est.speeddaemon"@,
{
    let g = "gui/"@;
    let t = "/"@ + LABEL@;
    let (x, y) = (domain_view(a), domain_view(b));
    reveal_strlit("/");
    reveal_strlit("org.est.speeddaemon");
    reveal_strlit("/org.est.speeddaemon");
    assert(service_view(a).take(x.len() as int) =~= x);
    assert(service_view(a).skip(x.len() as int) =~= t);
    assert(t =~= "/org.est.speeddaemon"@);
    if service_view(a) == service_view(b) {
        assert(x.len() == y.len());
        assert(service_view(b).take(y.len() as int) =~= y);
    }
    if x == y {
        assert(x.skip(g.len() as int) =~= decimal(a as nat));
        assert(y.skip(g.len() as int) =~= decimal(b as nat));
        decimals_differ(a as nat, b as nat);
    }
}

/// Each call of `launchctl` names its verb first and what it is about last: the property list where
/// the agent is loaded into the user's domain, the user's service otherwise.
pub proof fn calls_name_the_service(call: LaunchCall, uid: u32, plist: Seq<char>)
    ensures
        ({
            let args = launch_args(call, uid, plist);
            match call {
                LaunchCall::Bootstrap => args.len() == 3 && args[0] == "bootstrap"@ && args[1]
                    == domain_view(uid) && args[2] == plist,
                LaunchCall::Kickstart => args.len() == 2 && args[0] == "kickstart"@ && args[1]
                    == service_view(uid),
                LaunchCall::Bootout => args.len() == 2 && args[0] == "bootout"@ && args[1]
                    == service_view(uid),
                LaunchCall::Print => args.len() == 2 && args[0] == "print"@ && args[1]
                    == service_view(uid),
                LaunchCall::Reload => args.len() == 3 && args[0] == "kill"@ && args[1] == "SIGHUP"@
                    && args[2] == service_view(uid),
            }
        }),
{
}

/// A property list runs the program that it was written for, and writes its errors and its output
/// to the log that it was written for.
pub proof fn lists_name_their_program_and_log(bin: Seq<char>, log: Seq<char>, at_login: bool)
    ensures
        contains(
            plist_view(bin, log, at_login),
            "<key>ProgramArguments</key>\n    <array>\n        <string>"@ + bin
                + "</string>\n    </array>"@,
        ),
        contains(
            plist_view(bin, log, at_login),
            "<key>StandardErrorPath</key>\n    <string>"@ + log + "</string>"@,
        ),
        contains(
            plist_view(bin, log, at_login),
            "<key>StandardOutPath</key>\n    <string>"@ + log + "</string>"@,
        ),
        contains(
            plist_view(bin, log, at_login),
            "<key>RunAtLoad</key>\n    "@ + plist_bool(at_login),
        ),
        contains(
            plist_view(bin, log, at_login),
            "<key>KeepAlive</key>\n    "@ + plist_bool(at_login),
        ),
        plist_bool(true) == "<true/>"@,
        plist_bool(false) == "<false/>"@,
{
    lemma_program_named(bin, "RunAtLoad"@, plist_tail(log, at_login));
    let front = plist_head() + bin + "</string>\n    </array>\n    <key>"@ + "RunAtLoad"@;
    lemma_tail_names(log, at_login);
    lemma_within_back(
        front,
        plist_tail(log, at_login),
        "<key>KeepAlive</key>\n    "@ + plist_bool(at_login),
    );
    lemma_within_back(
        front,
        plist_tail(log, at_login),
        "<key>StandardErrorPath</key>\n    <string>"@ + log + "</string>"@,
    );
    lemma_within_back(
        front,
        plist_tail(log, at_login),
        "<key>StandardOutPath</key>\n    <string>"@ + log + "</string>"@,
    );
    lemma_login_named(bin, log, at_login);
}

/// What occurs in the back of a text occurs in the text.
proof fn lemma_within_back(a: Seq<char>, b: Seq<char>, needle: Seq<char>)
    requires
        contains(b, needle),
    ensures
        contains(a + b, needle),
{
    let at = choose|at: int| occurs_at(b, needle, at);
    assert((a + b).subrange(a.len() + at, a.len() + at + needle.len()) =~= b.subrange(
        at,
        at + needle.len(),
    ));
    assert(occurs_at(a + b, needle, a.len() + at));
}

/// What occurs in the front of a text occurs in the text.
proof fn lemma_within_front(a: Seq<char>, b: Seq<char>, needle: Seq<char>)
    requires
        contains(a, needle),
    ensures
        contains(a + b, needle),
{
    let at = choose|at: int| occurs_at(a, needle, at);
    assert((a + b).subrange(at, at + needle.len()) =~= a.subrange(at, at + needle.len()));
    assert(occurs_at(a + b, needle, at));
}

/// What stands between two texts occurs in them.
proof fn lemma_between(all: Seq<char>, a: Seq<char>, needle: Seq<char>, b: Seq<char>)
    requires
        all == a + needle + b,
    ensures
        contains(all, needle),
{
    texts_are_found_where_they_stand(a, needle, b);
}

/// A property list names its program.
proof fn lemma_program_named(bin: Seq<char>, key: Seq<char>, tail: Seq<char>)
    ensures
        contains(
            plist_head() + bin + "</string>\n    </array>\n    <key>"@ + key + tail,
            "<key>ProgramArguments</key>\n    <array>\n        <string>"@ + bin
                + "</string>\n    </array>"@,
        ),
{
    let pre = "<?xml version=\"1.0\" encoding=\"UTF-8\"?>\n"@
        + "<!DOCTYPE plist PUBLIC \"-//Apple//DTD PLIST 1.0//EN\" "@
        + "\"http://www.apple.com/DTDs/PropertyList-1.0.dtd\">\n"@
        + "<plist version=\"1.0\">\n<dict>\n    <key>Label</key>\n    <string>"@ + LABEL@;
    let s1 = "</string>\n    "@;
    let args = "<key>ProgramArguments</key>\n    <array>\n        <string>"@;
    let end = "</string>\n    </array>"@;
    let more = "\n    <key>"@;
    assert("</string>\n    <key>ProgramArguments</key>\n    <array>\n        <string>"@ =~= s1
        + args) by {
        reveal_strlit(
            "</string>\n    <key>ProgramArguments</key>\n    <array>\n        <string>",
        );
        reveal_strlit("</string>\n    ");
        reveal_strlit("<key>ProgramArguments</key>\n    <array>\n        <string>");
    }
    assert("</string>\n    </array>\n    <key>"@ =~= end + more) by {
        reveal_strlit("</string>\n    </array>\n    <key>");
        reveal_strlit("</string>\n    </array>");
        reveal_strlit("\n    <key>");
    }
    assert(plist_head() == pre + (s1 + args));
    let needle = args + bin + end;
    let part = pre + (s1 + args) + bin + (end + more);
    assert(part =~= (pre + s1) + needle + more);
    lemma_between(part, pre + s1, needle, more);
    lemma_within_front(part, key, needle);
    lemma_within_front(part + key, tail, needle);
}

/// The back of a property list says whether the agent is kept alive, and where it writes.
proof fn lemma_tail_names(log: Seq<char>, at_login: bool)
    ensures
        contains(
            plist_tail(log, at_login),
            "<key>KeepAlive</key>\n    "@ + plist_bool(at_login),
        ),
        contains(
            plist_tail(log, at_login),
            "<key>StandardErrorPath</key>\n    <string>"@ + log + "</string>"@,
        ),
        contains(
            plist_tail(log, at_login),
            "<key>StandardOutPath</key>\n    <string>"@ + log + "</string>"@,
        ),
{
    let own = plist_bool(at_login);
    let y = "</key>\n    "@;
    let keep = "<key>KeepAlive</key>\n    "@;
    let kind = "\n    <key>ProcessType</key>\n    <string>Interactive</string>\n"@;
    let err = "<key>StandardErrorPath</key>\n    <string>"@;
    let out = "<key>StandardOutPath</key>\n    <string>"@;
    let gap = "\n    "@;
    let four = "    "@;
    let close = "</string>"@;
    let last = "\n</dict>\n</plist>\n"@;
    assert("\n    <key>KeepAlive</key>\n    "@ =~= gap + keep) by {
        reveal_strlit("\n    <key>KeepAlive</key>\n    ");
        reveal_strlit("\n    ");
        reveal_strlit("<key>KeepAlive</key>\n    ");
    }
    assert("    <key>StandardErrorPath</key>\n    <string>"@ =~= four + err) by {
        reveal_strlit("    <key>StandardErrorPath</key>\n    <string>");
        reveal_strlit("    ");
        reveal_strlit("<key>StandardErrorPath</key>\n    <string>");
    }
    assert("</string>\n    <key>StandardOutPath</key>\n    <string>"@ =~= close + (gap + out)) by {
        reveal_strlit("</string>\n    <key>StandardOutPath</key>\n    <string>");
        reveal_strlit("</string>");
        reveal_strlit("\n    ");
        reveal_strlit("<key>StandardOutPath</key>\n    <string>");
    }
    assert("</string>\n</dict>\n</plist>\n"@ =~= close + last) by {
        reveal_strlit("</string>\n</dict>\n</plist>\n");
        reveal_strlit("</string>");
        reveal_strlit("\n</dict>\n</plist>\n");
    }
    let p1 = y + own + (gap + keep) + own;
    let p2 = p1 + kind;
    let p3 = p2 + (four + err);
    let p4 = p3 + log;
    let p5 = p4 + (close + (gap + out));
    let p6 = p5 + log;
    let p7 = p6 + (close + last);
    assert(plist_tail(log, at_login) == p7);
    let n1 = keep + own;
    assert(p1 =~= (y + own + gap) + n1 + Seq::<char>::empty());
    lemma_between(p1, y + own + gap, n1, Seq::empty());
    lemma_within_front(p1, kind, n1);
    lemma_within_front(p2, four + err, n1);
    lemma_within_front(p3, log, n1);
    lemma_within_front(p4, close + (gap + out), n1);
    lemma_within_front(p5, log, n1);
    lemma_within_front(p6, close + last, n1);
    let n2 = err + log + close;
    assert(p5 =~= (p2 + four) + n2 + (gap + out));
    lemma_between(p5, p2 + four, n2, gap + out);
    lemma_within_front(p5, log, n2);
    lemma_within_front(p6, close + last, n2);
    let n3 = out + log + close;
    assert(p7 =~= (p4 + close + gap) + n3 + last);
    lemma_between(p7, p4 + close + gap, n3, last);
}

/// A property list says whether the agent is started at login.
proof fn lemma_login_named(bin: Seq<char>, log: Seq<char>, at_login: bool)
    ensures
        contains(
            plist_view(bin, log, at_login),
            "<key>RunAtLoad</key>\n    "@ + plist_bool(at_login),
        ),
{
    let own = plist_bool(at_login);
    let y = "</key>\n    "@;
    let run = "<key>RunAtLoad</key>\n    "@;
    let x = "</string>\n    </array>\n    <key>"@;
    let open = "</string>\n    </array>\n    "@;
    let key = "<key>"@;
    assert(x =~= open + key) by {
        reveal_strlit("</string>\n    </array>\n    <key>");
        reveal_strlit("</string>\n    </array>\n    ");
        reveal_strlit("<key>");
    }
    assert(run =~= key + "RunAtLoad"@ + y) by {
        reveal_strlit("<key>");
        reveal_strlit("RunAtLoad");
        reveal_strlit("</key>\n    ");
        reveal_strlit("<key>RunAtLoad</key>\n    ");
    }
    let tail = plist_tail(log, at_login);
    let more = tail.skip((y + own).len() as int);
    assert(tail =~= (y + own) + more);
    let head = plist_head() + bin;
    let r = "RunAtLoad"@;
    assert(plist_view(bin, log, at_login) == head + (open + key) + r + tail);
    assert(head + (open + key) + r + ((y + own) + more) =~= (head + open) + (key + r + y + own)
        + more);
    lemma_between(plist_view(bin, log, at_login), head + open, run + own, more);
}

/// A poller is copied wherever it is missing, its bundle's marker is not known, or nothing that can
/// be read was stamped; white space around a stamp does not matter.
pub proof fn doubtful_copies_are_renewed(
    present: bool,
    marker: Option<u64>,
    stamp: Option<Seq<char>>,
    n: u64,
    a: Seq<char>,
    b: Seq<char>,
)
    requires
        all_white(a),
        all_white(b),
    ensures
        copy_needed(false, marker, stamp),
        copy_needed(present, None, stamp),
        copy_needed(present, marker, None),
        marker matches Some(m) ==> copy_needed(present, marker, Some(a + decimal(n as nat) + b))
            == (!present || m != n),
{
    decimal_reads_back(n as nat, u64::MAX as nat);
    trim_takes_the_white_space_around(a, decimal(n as nat), b);
}

/// Whether a list starts its agent at login is decided by the first value after its first
/// `RunAtLoad`: a list without that key, or without `<true/>` behind it, does not start it.
pub proof fn the_first_value_decides(text: Seq<char>, i: int, j: int)
    ensures
        !contains(text, "RunAtLoad"@) ==> !starts_at_login(text),
        first_at(text, "RunAtLoad"@, i) && !contains(text.skip(i + 9), "<true/>"@)
            ==> !starts_at_login(text),
        first_at(text, "RunAtLoad"@, i) && occurs_at(text.skip(i + 9), "<true/>"@, j) && (forall|
            k: int,
        | 0 <= k < j ==> !#[trigger] occurs_at(text.skip(i + 9), "<false/>"@, k))
            ==> starts_at_login(text),
        first_at(text, "RunAtLoad"@, i) && occurs_at(text.skip(i + 9), "<false/>"@, j) && (forall|
            k: int,
        | 0 <= k < j ==> !#[trigger] occurs_at(text.skip(i + 9), "<true/>"@, k))
            ==> !starts_at_login(text),
{
    let yes = "<true/>"@;
    let no = "<false/>"@;
    if first_at(text, "RunAtLoad"@, i) {
        lemma_find(text, "RunAtLoad"@, i);
        let rest = text.skip(i + 9);
        if contains(rest, yes) {
            lemma_first(rest, yes);
        }
        if contains(rest, no) {
            lemma_first(rest, no);
        }
        reveal_strlit("<true/>");
        reveal_strlit("<false/>");
        if occurs_at(rest, yes, j) {
            if occurs_at(rest, no, j) {
                assert(rest.subrange(j, j + yes.len())[1] == rest[j + 1]);
                assert(rest.subrange(j, j + no.len())[1] == rest[j + 1]);
            }
            let a = find(rest, yes)->0;
            assert(a <= j);
            if contains(rest, no) {
                let b = find(rest, no)->0;
                if b == a {
                    assert(rest.subrange(a, a + yes.len())[1] == rest[a + 1]);
                    assert(rest.subrange(a, a + no.len())[1] == rest[a + 1]);
                }
            }
        }
        if occurs_at(rest, no, j) {
            let b = find(rest, no)->0;
            assert(b <= j);
            if contains(rest, yes) {
                let a = find(rest, yes)->0;
                if b == a {
                    assert(rest.subrange(a, a + yes.len())[1] == rest[a + 1]);
                    assert(rest.subrange(a, a + no.len())[1] == rest[a + 1]);
                }
            }
        }
    }
}

/// Loading is given fifteen rounds, whether the list was there or had to be written; what is done
/// last is the kickstart, and then nothing. Only the two questions have an answer that counts.
pub proof fn loading_is_given_fifteen_rounds(p: PollerPhase, any: bool)
    ensures
        phase_after(PollerPhase::Looking, true) == (PollerPhase::Checking { left: 15 }),
        phase_action(phase_after(PollerPhase::Looking, false)) == PollerAction::WritePlist,
        phase_after(phase_after(PollerPhase::Looking, false), any) == (PollerPhase::Checking {
            left: 15,
        }),
        phase_action(p) == PollerAction::Call(LaunchCall::Kickstart) ==> phase_action(
            phase_after(p, any),
        ) is Done,
        phase_action(p) is Done ==> phase_after(p, any) == p,
        !(phase_action(p) is CheckLoaded) && !(phase_action(p) is LookForPlist) ==> phase_after(
            p,
            true,
        ) == phase_after(p, false),
{
}

} // verus!
