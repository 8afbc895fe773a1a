use speed_daemon::handoff::{
    learned, log_line, poller_path, read_pid, sem_text, takeover_path, Act, Learned, Note, Stage,
    TICK_MS, WAIT_MS,
};

#[test]
fn semaphores_lie_in_the_data_directory() {
    assert_eq!(poller_path("/d"), "/d/poller.sem");
    assert_eq!(takeover_path("/d/"), "/d/takeover.sem");
}

#[test]
fn a_written_pid_is_read() {
    assert_eq!(sem_text(42, 1700), "42 1700");
    assert_eq!(read_pid(Some(sem_text(42, 1700))), Some(42));
    assert_eq!(read_pid(Some(sem_text(u32::MAX, 0))), Some(u32::MAX));
    assert_eq!(read_pid(Some("  7\n".to_string())), Some(7));
    assert_eq!(read_pid(Some("+7".to_string())), Some(7));
    assert_eq!(read_pid(Some("4294967296 1".to_string())), None);
    assert_eq!(read_pid(Some("x 1".to_string())), None);
    assert_eq!(read_pid(Some("-1".to_string())), None);
    assert_eq!(read_pid(Some("".to_string())), None);
    assert_eq!(read_pid(Some(" \t".to_string())), None);
    assert_eq!(read_pid(None), None);
}

#[test]
fn transitions_are_logged() {
    assert_eq!(log_line(12, 34, "hello"), "12 pid=34 hello\n");
    assert_eq!(Note::Waiting(5).text(), "waiting to take over from pid 5");
    assert_eq!(Note::StalePoller(5).text(), "clearing stale poller.sem (dead pid 5)");
    assert_eq!(Note::TookOver.text(), "promoted to active poller (took over)");
    assert_eq!(Note::ColdStart.text(), "claimed active poller (cold start)");
    assert_eq!(Note::HandingOff(5).text(), "handing off to pid 5; releasing and quitting");
    assert_eq!(Note::StaleTakeover(5).text(), "clearing stale takeover.sem (dead pid 5)");
}

#[test]
fn what_a_semaphore_tells() {
    assert_eq!(learned(None, true), Learned::NoOne);
    assert_eq!(learned(Some(5), true), Learned::Alive(5));
    assert_eq!(learned(Some(5), false), Learned::Dead(5));
    assert_eq!(learned(Some(0), true), Learned::Dead(0));
}

#[test]
fn a_cold_start_collects_at_once() {
    let mut s = Stage::start();
    assert_eq!(
        s.learn(Learned::Claimed),
        vec![
            Act::RemoveTakeover,
            Act::Log(Note::ColdStart),
            Act::StartCollecting,
            Act::SleepMs(TICK_MS),
            Act::CheckIn
        ]
    );
    assert_eq!(s, Stage::Collecting);
}

#[test]
fn a_newcomer_waits_and_takes_over() {
    let mut s = Stage::start();
    assert_eq!(
        s.learn(Learned::Alive(9)),
        vec![
            Act::Log(Note::Waiting(9)),
            Act::WriteTakeover,
            Act::SleepMs(WAIT_MS),
            Act::Claim
        ]
    );
    assert_eq!(
        s.learn(Learned::Alive(9)),
        vec![Act::WriteTakeover, Act::SleepMs(WAIT_MS), Act::Claim]
    );
    assert_eq!(s.learn(Learned::Claimed)[1], Act::Log(Note::TookOver));
}

#[test]
fn stale_semaphores_are_cleared() {
    let mut s = Stage::start();
    assert_eq!(
        s.learn(Learned::Dead(3)),
        vec![Act::Log(Note::StalePoller(3)), Act::RemovePoller, Act::Claim]
    );
    assert_eq!(s.learn(Learned::NoOne), vec![Act::RemovePoller, Act::Claim]);
    s.learn(Learned::Claimed);
    assert_eq!(
        s.learn(Learned::Dead(4)),
        vec![
            Act::Log(Note::StaleTakeover(4)),
            Act::RemoveTakeover,
            Act::SleepMs(TICK_MS),
            Act::CheckIn
        ]
    );
    assert_eq!(s.learn(Learned::NoOne), vec![Act::SleepMs(TICK_MS), Act::CheckIn]);
}

#[test]
fn handing_off_releases_before_it_exits() {
    let mut s = Stage::start();
    s.learn(Learned::Claimed);
    assert_eq!(
        s.learn(Learned::Alive(8)),
        vec![Act::Log(Note::HandingOff(8)), Act::RemovePoller, Act::Exit]
    );
    assert_eq!(s, Stage::Gone);
    assert!(s.learn(Learned::Claimed).is_empty());
}

#[test]
fn collecting_starts_once_for_whoever_claims() {
    let learnt = [
        Learned::Alive(1),
        Learned::Dead(1),
        Learned::Claimed,
        Learned::NoOne,
        Learned::Claimed,
        Learned::Alive(2),
        Learned::Claimed,
    ];
    let starts = |ls: &[Learned]| {
        let mut s = Stage::start();
        let acts: Vec<Act> = ls.iter().flat_map(|l| s.learn(*l)).collect();
        acts.iter().filter(|a| **a == Act::StartCollecting).count()
    };
    assert_eq!(starts(&learnt), 1);
    assert_eq!(starts(&learnt[..2]), 0);
}
