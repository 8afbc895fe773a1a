use speed_daemon::poller::{
    install_action, launchctl_args, needs_copy, plist_at_login, plist_path, plist_text,
    poller_running, poller_state, restart_poller, speedd_path, stamp_text, start_poller,
    stop_poller, svc_domain, svc_target, InstallAction, LaunchCall, PollerAction, PollerPhase,
};

#[test]
fn the_service_is_named_after_the_user() {
    assert_eq!(svc_domain(501), "gui/501");
    assert_eq!(svc_target(501), "gui/501/org.est.speeddaemon");
    assert_eq!(svc_target(0), "gui/0/org.est.speeddaemon");
}

#[test]
fn files_have_their_places() {
    assert_eq!(
        plist_path(Some("/Users/me".to_string())),
        "/Users/me/Library/LaunchAgents/org.est.speeddaemon.plist"
    );
    assert_eq!(plist_path(None), "Library/LaunchAgents/org.est.speeddaemon.plist");
    assert_eq!(speedd_path("/data"), "/data/speedd");
}

#[test]
fn calls_have_their_arguments() {
    assert_eq!(launchctl_args(LaunchCall::Bootstrap, 7, "/p"), vec!["bootstrap", "gui/7", "/p"]);
    assert_eq!(
        launchctl_args(LaunchCall::Kickstart, 7, "/p"),
        vec!["kickstart", "gui/7/org.est.speeddaemon"]
    );
    assert_eq!(
        launchctl_args(LaunchCall::Bootout, 7, "/p"),
        vec!["bootout", "gui/7/org.est.speeddaemon"]
    );
    assert_eq!(
        launchctl_args(LaunchCall::Print, 7, "/p"),
        vec!["print", "gui/7/org.est.speeddaemon"]
    );
    assert_eq!(
        launchctl_args(LaunchCall::Reload, 7, "/p"),
        vec!["kill", "SIGHUP", "gui/7/org.est.speeddaemon"]
    );
    assert_eq!(stop_poller(7), vec!["bootout", "gui/7/org.est.speeddaemon"]);
}

#[test]
fn the_printed_state_tells_whether_it_runs() {
    assert!(poller_running(Some("x\n\tstate = running\n".to_string())));
    assert!(!poller_running(Some("state = waiting".to_string())));
    assert!(!poller_running(None));
}

#[test]
fn the_property_list_is_the_agents() {
    let expected = "<?xml version=\"1.0\" encoding=\"UTF-8\"?>\n<!DOCTYPE plist PUBLIC \"-//Apple//DTD PLIST 1.0//EN\" \"http://www.apple.com/DTDs/PropertyList-1.0.dtd\">\n<plist version=\"1.0\">\n<dict>\n    <key>Label</key>\n    <string>org.est.speeddaemon</string>\n    <key>ProgramArguments</key>\n    <array>\n        <string>/d/speedd</string>\n    </array>\n    <key>RunAtLoad</key>\n    <true/>\n    <key>KeepAlive</key>\n    <true/>\n    <key>ProcessType</key>\n    <string>Interactive</string>\n    <key>StandardErrorPath</key>\n    <string>/d/speedd.log</string>\n    <key>StandardOutPath</key>\n    <string>/d/speedd.log</string>\n</dict>\n</plist>\n";
    assert_eq!(plist_text("/d/speedd", "/d/speedd.log", true), expected);
    assert_eq!(
        plist_text("/d/speedd", "/d/speedd.log", false),
        expected.replace("<true/>", "<false/>")
    );
}

#[test]
fn the_login_setting_is_read_back() {
    for at_login in [true, false] {
        let text = plist_text("/d/speedd", "/d/speedd.log", at_login);
        assert_eq!(plist_at_login(Some(text)), at_login);
    }
    assert!(!plist_at_login(None));
    assert!(!plist_at_login(Some("<true/>".to_string())));
    assert!(!plist_at_login(Some("RunAtLoad".to_string())));
    assert!(!plist_at_login(Some("RunAtLoad <false/> <true/>".to_string())));
    assert!(plist_at_login(Some("<false/> RunAtLoad <true/>".to_string())));
    assert!(plist_at_login(Some("RunAtLoad <true/> <false/>".to_string())));
}

#[test]
fn a_misleading_path_hides_the_login_setting() {
    let text = plist_text("RunAtLoad<false/>", "/log", true);
    assert!(!plist_at_login(Some(text)));
}

#[test]
fn the_state_needs_a_property_list_to_start_at_login() {
    let text = plist_text("/b", "/l", true);
    let s = poller_state(true, true, Some(text.clone()));
    assert!(s.running && s.at_login && s.installed);
    let s = poller_state(false, false, Some(text));
    assert!(!s.running && !s.at_login && !s.installed);
    let s = poller_state(false, true, None);
    assert!(!s.at_login && s.installed);
}

fn run(mut p: PollerPhase, plist: bool, loaded: impl Fn(usize) -> bool) -> Vec<PollerAction> {
    let mut seen = Vec::new();
    let mut checks = 0;
    loop {
        let a = p.action();
        if a == PollerAction::Done {
            return seen;
        }
        seen.push(a);
        let yes = match a {
            PollerAction::LookForPlist => plist,
            PollerAction::CheckLoaded => {
                checks += 1;
                loaded(checks)
            }
            _ => true,
        };
        p = p.next(yes);
    }
}

#[test]
fn starting_a_loaded_poller_only_kicks_it() {
    assert_eq!(
        run(start_poller(), true, |_| true),
        vec![
            PollerAction::LookForPlist,
            PollerAction::CheckLoaded,
            PollerAction::Call(LaunchCall::Kickstart)
        ]
    );
}

#[test]
fn starting_writes_a_missing_property_list_and_bootstraps() {
    assert_eq!(
        run(start_poller(), false, |n| n > 1),
        vec![
            PollerAction::LookForPlist,
            PollerAction::WritePlist,
            PollerAction::CheckLoaded,
            PollerAction::Call(LaunchCall::Bootstrap),
            PollerAction::CheckLoaded,
            PollerAction::Call(LaunchCall::Kickstart)
        ]
    );
}

#[test]
fn starting_gives_up_after_fifteen_rounds() {
    let seen = run(start_poller(), true, |_| false);
    let boots = seen.iter().filter(|a| **a == PollerAction::Call(LaunchCall::Bootstrap)).count();
    let naps = seen.iter().filter(|a| **a == PollerAction::SleepMs(300)).count();
    assert_eq!((boots, naps), (15, 15));
    assert_eq!(seen.last(), Some(&PollerAction::Call(LaunchCall::Kickstart)));
}

#[test]
fn restarting_waits_for_the_old_instance() {
    let seen = run(restart_poller(), true, |n| n < 3 || n > 3);
    assert_eq!(
        seen,
        vec![
            PollerAction::Call(LaunchCall::Bootout),
            PollerAction::CheckLoaded,
            PollerAction::SleepMs(200),
            PollerAction::CheckLoaded,
            PollerAction::SleepMs(200),
            PollerAction::CheckLoaded,
            PollerAction::LookForPlist,
            PollerAction::CheckLoaded,
            PollerAction::Call(LaunchCall::Kickstart)
        ]
    );
    let seen = run(restart_poller(), true, |_| true);
    assert_eq!(seen.iter().filter(|a| **a == PollerAction::SleepMs(200)).count(), 15);
}

#[test]
fn a_stamped_copy_is_kept() {
    assert!(!needs_copy(true, Some(1700), Some(stamp_text(1700))));
    assert!(!needs_copy(true, Some(1700), Some(" 1700\n".to_string())));
    assert!(!needs_copy(true, Some(1700), Some("+1700".to_string())));
    assert!(needs_copy(false, Some(1700), Some("1700".to_string())));
    assert!(needs_copy(true, None, Some("1700".to_string())));
    assert!(needs_copy(true, Some(1700), None));
    assert!(needs_copy(true, Some(1700), Some("1701".to_string())));
    assert!(needs_copy(true, Some(1700), Some("seventeen".to_string())));
    assert!(needs_copy(true, Some(0), Some("18446744073709551616".to_string())));
    assert_eq!(stamp_text(u64::MAX), "18446744073709551615");
}

#[test]
fn installing_comes_before_restarting() {
    assert_eq!(install_action(false, true, true), InstallAction::Install);
    assert_eq!(install_action(true, true, true), InstallAction::Restart);
    // A paused poller is not started by an update.
    assert_eq!(install_action(true, true, false), InstallAction::Nothing);
    assert_eq!(install_action(true, false, true), InstallAction::Nothing);
}
