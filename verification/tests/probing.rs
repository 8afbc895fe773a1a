use speed_daemon::icmp::{
    build_echo, checksum, delta_us, next_ident, received, reply_seq, Ip, Ping, PingEvent, Reply,
    TimeVal, Verdict,
};
use speed_daemon::poll::{
    file_changed, poll_interval, reply_timeout, resolve, sample_event, Pace, PollAct, PollEvent,
    PollLoop, PollStyle, ProbeLoop, Sample,
};
use speed_daemon::probes::Probes;
use std::sync::atomic::Ordering;

fn tv(sec: i64, usec: i64) -> TimeVal {
    TimeVal { sec, usec }
}

#[test]
fn identifiers_differ_within_a_process() {
    assert_eq!(next_ident(100, 5), 105);
    assert_eq!(next_ident(0x1_ffff, 1), 0);
    assert_ne!(next_ident(4242, 1), next_ident(4242, 2));
}

#[test]
fn the_checksum_is_the_internet_checksum() {
    assert_eq!(checksum(&[0x00, 0x01, 0xf2, 0x03, 0xf4, 0xf5, 0xf6, 0xf7]), 0x220d);
    assert_eq!(checksum(&[]), 0xffff);
    assert_eq!(checksum(&[1]), 0xfeff);
}

#[test]
fn an_echo_request_is_laid_out() {
    let p = build_echo(false, 0x1234, 7);
    assert_eq!(p.len(), 26);
    assert_eq!(&p[..8], &[8, 0, 0x6d, 0x3f, 0x12, 0x34, 0, 7]);
    assert_eq!(&p[8..], b"speed-daemon-probe");
    let p = build_echo(true, 0x1234, 0x0102);
    assert_eq!(&p[..8], &[128, 0, 0, 0, 0x12, 0x34, 1, 2]);
}

#[test]
fn a_request_with_its_checksum_sums_to_nothing() {
    for seq in [0u16, 1, 255, 256, 65535] {
        assert_eq!(checksum(&build_echo(false, 0xbeef, seq)), 0);
    }
}

#[test]
fn a_reply_gives_back_the_sequence_number() {
    let mut p = build_echo(false, 9, 0x0a0b);
    assert_eq!(reply_seq(&p), None);
    p[0] = 0;
    assert_eq!(reply_seq(&p), Some(0x0a0b));
    let mut v6 = build_echo(true, 9, 300);
    v6[0] = 129;
    assert_eq!(reply_seq(&v6), Some(300));
    let mut with_header = vec![0x45u8; 20];
    with_header.extend_from_slice(&p);
    assert_eq!(reply_seq(&with_header), Some(0x0a0b));
    assert_eq!(reply_seq(&p[..7]), None);
    assert_eq!(reply_seq(&[]), None);
    assert_eq!(reply_seq(&[0x4f, 0, 0]), None);
}

#[test]
fn a_reply_is_stamped_by_the_kernel_or_by_the_clock() {
    let mut p = build_echo(false, 9, 3);
    p[0] = 0;
    let r = received(&p, Some(tv(5, 6)), tv(7, 8), Some(Ip::V4(9))).unwrap();
    assert_eq!(r, Reply { seq: 3, at: tv(5, 6), from_kernel: true, src: Ip::V4(9) });
    let r = received(&p, None, tv(7, 8), None).unwrap();
    assert_eq!(r, Reply { seq: 3, at: tv(7, 8), from_kernel: false, src: Ip::V4(0) });
    p[0] = 8;
    assert_eq!(received(&p, None, tv(7, 8), None), None);
}

#[test]
fn a_round_trip_is_never_negative() {
    assert_eq!(delta_us(tv(10, 900_000), tv(11, 100_250)), 200_250);
    assert_eq!(delta_us(tv(11, 0), tv(10, 999_999)), 0);
    assert_eq!(delta_us(tv(1, 1), tv(1, 1)), 0);
}

#[test]
fn only_the_own_reply_counts() {
    let ping = Ping { seq: 3, send: tv(1, 0), from: Some(Ip::V4(1)) };
    let reply = |seq: u16, src: Ip, at: TimeVal| {
        PingEvent::Packet(Some(Reply { seq, at, from_kernel: true, src }))
    };
    assert_eq!(ping.hear(reply(3, Ip::V4(1), tv(1, 1500))), Verdict::Rtt(1500));
    assert_eq!(ping.hear(reply(4, Ip::V4(1), tv(1, 1500))), Verdict::Wait);
    assert_eq!(ping.hear(reply(3, Ip::V4(2), tv(1, 1500))), Verdict::Wait);
    assert_eq!(ping.hear(reply(3, Ip::V4(1), tv(1, 0))), Verdict::Wait);
    assert_eq!(ping.hear(PingEvent::Packet(None)), Verdict::Wait);
    assert_eq!(ping.hear(PingEvent::NothingYet), Verdict::Wait);
    assert_eq!(ping.hear(PingEvent::TimeUp), Verdict::Lost);
    assert_eq!(ping.hear(PingEvent::SendFailed), Verdict::Lost);
    assert_eq!(ping.hear(PingEvent::TimerFailed), Verdict::Lost);
    assert_eq!(ping.hear(PingEvent::ReceiveFailed), Verdict::Lost);
    let any = Ping { seq: 3, send: tv(1, 0), from: None };
    assert_eq!(any.hear(reply(3, Ip::V4(2), tv(1, 0))), Verdict::Rtt(0));
}

#[test]
fn polls_are_at_least_a_second_apart() {
    assert_eq!(poll_interval(10), 1000);
    assert_eq!(poll_interval(2500), 2500);
    let mut pace = Pace::new(10, 5_000);
    assert_eq!(pace.wait(5_000), 0);
    pace.sent(6_000);
    assert_eq!(pace.wait(6_000), 1_000_000_000);
    assert_eq!(pace.wait(1_000_006_000), 0);
    assert_eq!(pace.wait(1_000_005_999), 1);
}

#[test]
fn replies_are_awaited_for_less_than_the_interval() {
    assert_eq!(reply_timeout(1000), 950);
    assert_eq!(reply_timeout(0), 200);
    assert_eq!(reply_timeout(249), 200);
    assert_eq!(reply_timeout(251), 201);
    assert_eq!(reply_timeout(60_000), 5000);
}

#[test]
fn ipv4_is_preferred() {
    let found = vec![Ip::V6(1), Ip::V4(2), Ip::V4(3)];
    assert_eq!(resolve(None, Some(found)), Some(Ip::V4(2)));
    assert_eq!(resolve(None, Some(vec![Ip::V6(1), Ip::V6(2)])), Some(Ip::V6(1)));
    assert_eq!(resolve(None, Some(vec![])), None);
    assert_eq!(resolve(None, None), None);
    assert_eq!(resolve(Some(Ip::V6(9)), Some(vec![Ip::V4(1)])), Some(Ip::V6(9)));
}

#[test]
fn a_probe_opens_a_socket_for_each_new_address() {
    let mut p = ProbeLoop::new();
    assert!(p.needs_resolve(0));
    assert_eq!(p.wants_socket(), None);
    p.resolved(Some(Ip::V4(1)));
    assert!(!p.needs_resolve(59_999));
    assert!(p.needs_resolve(60_000));
    assert_eq!(p.wants_socket(), Some(Ip::V4(1)));
    p.opened(false);
    assert!(!p.can_send());
    assert_eq!(p.wants_socket(), Some(Ip::V4(1)));
    p.opened(true);
    assert!(p.can_send());
    assert_eq!(p.wants_socket(), None);
    p.resolved(None);
    assert!(p.can_send());
    p.resolved(Some(Ip::V4(1)));
    assert!(p.can_send());
    p.resolved(Some(Ip::V6(1)));
    assert!(!p.can_send());
    assert_eq!(p.wants_socket(), Some(Ip::V6(1)));
    p.seq = 65535;
    p.advance();
    assert_eq!(p.seq, 0);
    let e = sample_event("t", &p, Sample { ts: 4, rtt_us: Some(9) });
    assert_eq!(e.target_id, "t");
    assert_eq!(e.resolved_ip, Some(Ip::V6(1)));
    assert_eq!(e.sample, Sample { ts: 4, rtt_us: Some(9) });
}

#[test]
fn a_changed_file_is_read_again() {
    assert!(file_changed(Some(1), Some(2)));
    assert!(file_changed(None, Some(2)));
    assert!(file_changed(Some(2), None));
    assert!(!file_changed(Some(2), Some(2)));
    assert!(!file_changed(None, None));
}

#[test]
fn stopping_a_probe_raises_its_own_flag() {
    let mut probes = Probes::new();
    let a = probes.start("a");
    let b = probes.start("b");
    assert!(!a.load(Ordering::Relaxed) && !b.load(Ordering::Relaxed));
    probes.stop("a");
    assert!(a.load(Ordering::Relaxed));
    assert!(!b.load(Ordering::Relaxed));
    let again = probes.start("b");
    probes.stop("b");
    assert!(again.load(Ordering::Relaxed));
    assert!(!b.load(Ordering::Relaxed));
    probes.stop("nobody");
}

#[test]
fn a_flag_can_be_taken_without_raising_it() {
    let mut probes = Probes::new();
    let a = probes.start("a");
    let taken = probes.take_flag("a").unwrap();
    assert!(std::sync::Arc::ptr_eq(&a, &taken));
    assert!(!a.load(Ordering::Relaxed));
    assert!(probes.take_flag("a").is_none());
    assert!(probes.take_flag("b").is_none());
}

fn look(now: u64, stop: bool) -> PollEvent {
    PollEvent::Looked { now, stop, since_ms: 0 }
}

#[test]
fn a_paced_poll_is_recorded_with_the_time_of_its_send() {
    let mut p = PollLoop::new(PollStyle::Paced, 2000, 5);
    assert_eq!(p.act, PollAct::Look);
    assert_eq!(p.step(look(4, false)), PollAct::Sleep(1));
    assert_eq!(p.step(PollEvent::Done), PollAct::Look);
    assert_eq!(p.step(look(5, false)), PollAct::Resolve);
    assert_eq!(p.step(PollEvent::Resolved(Some(Ip::V4(1)))), PollAct::Open(Ip::V4(1)));
    assert_eq!(p.step(PollEvent::Opened(true)), PollAct::Stamp);
    assert_eq!(
        p.step(PollEvent::Stamped { now: 7, ts: 1700 }),
        PollAct::Ping { seq: 0, timeout_ms: 1950 }
    );
    assert_eq!(
        p.step(PollEvent::Replied(Some(1500))),
        PollAct::Record(Sample { ts: 1700, rtt_us: Some(1500) })
    );
    assert_eq!(p.step(PollEvent::Done), PollAct::Look);
    assert_eq!(p.step(look(8, false)), PollAct::Sleep(1_999_999_999));
    assert_eq!(p.step(PollEvent::Done), PollAct::Look);
    assert_eq!(p.step(look(2_000_000_007, false)), PollAct::Stamp);
    assert_eq!(
        p.step(PollEvent::Stamped { now: 2_000_000_008, ts: 3700 }),
        PollAct::Ping { seq: 1, timeout_ms: 1950 }
    );
    assert_eq!(
        p.step(PollEvent::Replied(None)),
        PollAct::Record(Sample { ts: 3700, rtt_us: None })
    );
}

#[test]
fn a_poll_that_cannot_be_sent_is_recorded_as_lost() {
    let mut p = PollLoop::new(PollStyle::Paced, 10, 0);
    assert_eq!(p.step(look(0, false)), PollAct::Resolve);
    assert_eq!(p.step(PollEvent::Resolved(None)), PollAct::Stamp);
    assert_eq!(
        p.step(PollEvent::Stamped { now: 1, ts: 9 }),
        PollAct::Record(Sample { ts: 9, rtt_us: None })
    );
    assert_eq!(p.probe.seq, 1);
    assert_eq!(p.step(PollEvent::Done), PollAct::Look);
    assert_eq!(p.step(look(1_000_000_001, false)), PollAct::Resolve);
    assert_eq!(p.step(PollEvent::Resolved(Some(Ip::V6(1)))), PollAct::Open(Ip::V6(1)));
    assert_eq!(p.step(PollEvent::Opened(false)), PollAct::Stamp);
    assert_eq!(
        p.step(PollEvent::Stamped { now: 1_000_000_002, ts: 10 }),
        PollAct::Record(Sample { ts: 10, rtt_us: None })
    );
}

#[test]
fn no_poll_follows_a_raised_stop() {
    let mut p = PollLoop::new(PollStyle::Paced, 1000, 10);
    assert_eq!(p.step(look(0, true)), PollAct::Sleep(10));
    assert_eq!(p.step(PollEvent::Done), PollAct::Look);
    assert_eq!(p.step(look(10, true)), PollAct::Stop);
}

#[test]
fn a_resting_poll_is_recorded_when_it_is_complete() {
    let mut p = PollLoop::new(PollStyle::Resting, 300, 77);
    assert_eq!(p.step(look(77, false)), PollAct::Resolve);
    assert_eq!(p.step(PollEvent::Resolved(Some(Ip::V4(1)))), PollAct::Open(Ip::V4(1)));
    assert_eq!(p.step(PollEvent::Opened(true)), PollAct::Ping { seq: 0, timeout_ms: 250 });
    assert_eq!(p.step(PollEvent::Replied(Some(4))), PollAct::Stamp);
    assert_eq!(
        p.step(PollEvent::Stamped { now: 80, ts: 5 }),
        PollAct::Record(Sample { ts: 5, rtt_us: Some(4) })
    );
    assert_eq!(p.step(PollEvent::Done), PollAct::Sleep(300_000_000));
    assert_eq!(p.step(PollEvent::Done), PollAct::Look);
    assert_eq!(
        p.step(PollEvent::Looked { now: 90, stop: false, since_ms: 60_000 }),
        PollAct::Resolve
    );
    assert_eq!(p.step(PollEvent::Resolved(Some(Ip::V4(2)))), PollAct::Open(Ip::V4(2)));
    assert_eq!(p.step(PollEvent::Opened(false)), PollAct::Stamp);
    assert_eq!(
        p.step(PollEvent::Stamped { now: 91, ts: 6 }),
        PollAct::Record(Sample { ts: 6, rtt_us: None })
    );
    assert_eq!(p.step(PollEvent::Done), PollAct::Sleep(300_000_000));
    assert_eq!(p.step(PollEvent::Done), PollAct::Look);
    assert_eq!(p.step(look(92, true)), PollAct::Stop);
}
