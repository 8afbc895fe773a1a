use speed_daemon::clock::{epoch_ms, now_ms};
use speed_daemon::db::{
    fits, get_bounds, oldest, prune_cutoff, prunes_on, sample_bucket, window, Loss, Run, SliceRow,
    WEEK_MS,
};
use speed_daemon::model::Millis;
use speed_daemon::config::target;
use speed_daemon::viewer::{
    csv_line, export_path, flag_move, sample_line, viewer_act, FlagMove, ViewerAct, ViewerEvent,
    CSV_HEADER,
};

fn ms(x: f64) -> Option<Millis> {
    Some(Millis { bits: x.to_bits() })
}

fn row(slice: i64, worst: f64, mean: f64, best: f64, lost: i64, count: i64) -> SliceRow {
    SliceRow {
        slice,
        worst: ms(worst),
        mean: ms(mean),
        best: ms(best),
        reduced: ms(best + 1.0),
        lost,
        count,
    }
}

#[test]
fn a_week_is_kept() {
    assert_eq!(WEEK_MS, 7 * 24 * 3600 * 1000);
    assert_eq!(prune_cutoff(WEEK_MS + 5), 5);
    assert_eq!(prune_cutoff(WEEK_MS), 0);
    assert_eq!(prune_cutoff(3), 0);
}

#[test]
fn every_720th_beat_prunes() {
    assert!(prunes_on(720) && prunes_on(1440));
    assert!(!prunes_on(1) && !prunes_on(719) && !prunes_on(721));
}

#[test]
fn the_oldest_is_the_earlier_of_the_two() {
    assert_eq!(oldest(Some(5), Some(3)), Some(3));
    assert_eq!(oldest(Some(2), Some(3)), Some(2));
    assert_eq!(oldest(Some(2), None), Some(2));
    assert_eq!(oldest(None, Some(9)), Some(9));
    assert_eq!(oldest(None, None), None);
    assert_eq!(oldest(Some(-1), Some(3)), Some(u64::MAX));
    assert_eq!(get_bounds(None), 0);
    assert_eq!(get_bounds(Some(4)), 4);
}

#[test]
fn a_window_has_equal_slices() {
    let w = window(1000, 2000, 4, "worst", &vec![], &vec![]);
    let starts: Vec<u64> = w.iter().map(|b| b.t).collect();
    assert_eq!(starts, vec![1000, 1250, 1500, 1750]);
    assert!(w.iter().all(|b| !b.up && b.count == 0 && b.worst.is_none() && b.val.is_none()));
    assert!(w.iter().all(|b| b.loss == Loss { lost: 0, of: 1 }));
    let w = window(0, 10, 3, "worst", &vec![], &vec![]);
    let starts: Vec<u64> = w.iter().map(|b| b.t).collect();
    assert_eq!(starts, vec![0, 3, 6]);
}

#[test]
fn an_empty_window_still_has_a_slice() {
    let w = window(50, 50, 0, "worst", &vec![], &vec![]);
    assert_eq!(w.len(), 1);
    assert_eq!(w[0].t, 50);
    let w = window(50, 10, 2, "worst", &vec![], &vec![]);
    assert_eq!(w.iter().map(|b| b.t).collect::<Vec<u64>>(), vec![50, 50]);
}

#[test]
fn rows_fill_their_slices() {
    let rows = vec![row(1, 30.0, 20.0, 10.0, 1, 4), row(-3, 5.0, 5.0, 5.0, 0, 2), row(9, 7.5, 7.0, 6.0, 0, 0)];
    let w = window(1000, 2000, 4, "worst", &rows, &vec![]);
    assert_eq!(w[1].worst, ms(30.0));
    assert_eq!(w[1].mean, ms(20.0));
    assert_eq!(w[1].best, ms(10.0));
    assert_eq!(w[1].loss, Loss { lost: 1, of: 4 });
    assert_eq!(w[1].count, 4);
    assert_eq!(w[0].worst, ms(5.0));
    assert_eq!(w[0].count, 2);
    assert_eq!(w[3].worst, ms(7.5));
    assert_eq!(w[3].loss, Loss { lost: 0, of: 1 });
    assert_eq!(w[2].worst, None);
    assert_eq!(w[2].count, 0);
}

#[test]
fn the_aggregate_picks_what_is_drawn() {
    let rows = vec![row(0, 30.0, 20.0, 10.0, 0, 1)];
    let drawn = |agg: &str| window(0, 100, 1, agg, &rows, &vec![])[0].val;
    assert_eq!(drawn("worst"), ms(30.0));
    assert_eq!(drawn("mean"), ms(20.0));
    assert_eq!(drawn("best"), ms(10.0));
    assert_eq!(drawn("median"), ms(11.0));
    assert_eq!(drawn("trimmed"), ms(11.0));
    let rows = vec![SliceRow {
        slice: 0,
        worst: ms(9.0),
        mean: ms(4.0),
        best: ms(1.0),
        reduced: ms(2.0),
        lost: 0,
        count: 3,
    }];
    assert_eq!(window(0, 100, 1, "median", &rows, &vec![])[0].val, ms(2.0));
    assert_eq!(window(0, 100, 1, "worst", &rows, &vec![])[0].val, ms(9.0));
}

#[test]
fn runs_mark_the_slices_they_touch() {
    let runs = vec![Run { start: 1300, last: 1600 }, Run { start: 0, last: 1001 }];
    let w = window(1000, 2000, 4, "worst", &vec![], &runs);
    assert_eq!(w.iter().map(|b| b.up).collect::<Vec<bool>>(), vec![true, true, true, false]);
    let w = window(1000, 2000, 4, "worst", &vec![], &vec![Run { start: 1750, last: 9999 }]);
    assert_eq!(w.iter().map(|b| b.up).collect::<Vec<bool>>(), vec![false, false, false, true]);
}

#[test]
fn a_running_instant_is_in_a_slice_that_is_up() {
    let runs = vec![Run { start: 137, last: 611 }];
    let w = window(100, 1100, 7, "worst", &vec![], &runs);
    for ts in [137u64, 200, 300, 450, 611] {
        let slice = ((ts - 100) * 7 / 1000) as usize;
        assert!(w[slice].up);
        assert!(w[slice].t <= ts);
        assert!(slice == 6 || ts <= w[slice + 1].t);
    }
    assert!(!w[6].up);
}

#[test]
fn one_slice_agrees_with_many() {
    // Samples of 1, 2 and 9 ms, and a lost one, at 10, 20, 70 and 80.
    let whole = vec![row(0, 9.0, 4.0, 1.0, 1, 4)];
    let parts = vec![row(0, 2.0, 1.5, 1.0, 0, 2), row(1, 9.0, 9.0, 9.0, 1, 2)];
    let runs = vec![Run { start: 60, last: 90 }];
    let a = window(0, 100, 1, "worst", &whole, &runs);
    let b = window(0, 100, 2, "worst", &parts, &runs);
    assert_eq!(a[0].count, b.iter().map(|x| x.count).sum::<u32>());
    assert_eq!(a[0].loss.lost, b.iter().map(|x| x.loss.lost).sum::<i64>());
    assert_eq!(a[0].worst, ms(9.0));
    assert_eq!((b[0].worst, b[1].worst), (ms(2.0), ms(9.0)));
    assert_eq!(a[0].best, ms(1.0));
    assert_eq!((b[0].best, b[1].best), (ms(1.0), ms(9.0)));
    assert_eq!(a[0].up, b.iter().any(|x| x.up));
    assert_eq!((b[0].up, b[1].up), (false, true));
}

#[test]
fn what_fits_is_known_before() {
    assert!(fits(0, u64::MAX, 1, &vec![]));
    assert!(fits(0, u64::MAX, 2, &vec![]));
    assert!(!fits(0, u64::MAX, 3, &vec![]));
    assert!(fits(0, 1000, 1000, &vec![Run { start: 0, last: 500 }]));
    assert!(!fits(0, 10, 2, &vec![Run { start: u64::MAX, last: u64::MAX }]));
    assert!(fits(0, 0, 0, &vec![]));
}

#[test]
fn the_clock_is_past_2020_and_stored_in_64_bits() {
    let t = now_ms();
    assert!(t > 1_577_836_800_000);
    assert!(t < 32_503_680_000_000);
    assert_eq!(epoch_ms(None), 0);
    assert_eq!(epoch_ms(Some(1234)), 1234);
    assert_eq!(epoch_ms(Some((1u128 << 64) + 7)), 7);
}

#[test]
fn exports_go_to_downloads_or_home() {
    let home = || Some("/Users/me".to_string());
    assert_eq!(
        export_path(home(), true, 1_700_000_000_999, 1_700_000_060_000),
        Ok("/Users/me/Downloads/speed-daemon_1700000000-1700000060.csv".to_string())
    );
    assert_eq!(
        export_path(home(), false, 0, 999),
        Ok("/Users/me/speed-daemon_0-0.csv".to_string())
    );
    assert_eq!(export_path(None, true, 0, 0), Err("no HOME".to_string()));
}

#[test]
fn exported_lines_quote_their_texts() {
    assert_eq!(CSV_HEADER, "ts,target_id,label,host,tag,rtt_ms\n");
    assert_eq!(
        csv_line(1700, "a", "say \"hi\", you", "h", "wifi", "1.5"),
        "1700,\"a\",\"say \"\"hi\"\", you\",\"h\",\"wifi\",1.5\n"
    );
    assert_eq!(csv_line(0, "", "", "", "", ""), "0,\"\",\"\",\"\",\"\",\n");
    assert_ne!(csv_line(0, "\"", "", "", "", ""), csv_line(0, "\"\"", "", "", "", ""));
}

#[test]
fn the_window_follows_the_hide_flag() {
    assert_eq!(flag_move(None, Some(1)), FlagMove::Hide);
    assert_eq!(flag_move(Some(1), Some(2)), FlagMove::Hide);
    assert_eq!(flag_move(Some(1), Some(1)), FlagMove::Stay);
    assert_eq!(flag_move(Some(1), None), FlagMove::Show);
    assert_eq!(flag_move(None, None), FlagMove::Stay);
}

#[test]
fn a_sample_is_a_column_of_its_own() {
    let b = sample_bucket(5, ms(2.5));
    assert_eq!((b.t, b.val, b.worst, b.mean, b.best), (5, ms(2.5), ms(2.5), ms(2.5), ms(2.5)));
    assert_eq!((b.loss, b.count, b.up), (Loss { lost: 0, of: 1 }, 1, true));
    let b = sample_bucket(6, None);
    assert_eq!((b.val, b.loss, b.count), (None, Loss { lost: 1, of: 1 }, 1));
}

#[test]
fn exported_samples_have_the_names_of_their_target() {
    let ts = vec![target("a", "A", "h", "wifi"), target("a", "B", "i", "isp")];
    assert_eq!(sample_line(&ts, 7, "a", "1.5"), "7,\"a\",\"A\",\"h\",\"wifi\",1.5\n");
    assert_eq!(sample_line(&ts, 7, "gone", ""), "7,\"gone\",\"\",\"\",\"\",\n");
}

#[test]
fn closing_hides_and_only_quit_exits() {
    let menu = |id: &str| viewer_act(&ViewerEvent::Menu(id.to_string()));
    assert_eq!(menu("show"), ViewerAct::Show);
    assert_eq!(menu("quit"), ViewerAct::Exit);
    assert_eq!(menu("other"), ViewerAct::Nothing);
    let click = |left: bool, up: bool| viewer_act(&ViewerEvent::IconClick { left, up });
    assert_eq!(click(true, true), ViewerAct::Show);
    assert_eq!(click(true, false), ViewerAct::Nothing);
    assert_eq!(click(false, true), ViewerAct::Nothing);
    assert_eq!(viewer_act(&ViewerEvent::CloseRequested), ViewerAct::Hide);
    assert_eq!(viewer_act(&ViewerEvent::Reopened), ViewerAct::Show);
    assert_eq!(viewer_act(&ViewerEvent::Other), ViewerAct::Nothing);
}
