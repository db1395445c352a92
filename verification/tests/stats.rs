use cube_timer::app::Penalty;
use cube_timer::times::Times;
use cube_timer::window::{Average, MAX_TIME_MS};

fn store_with(times_ms: &[u64]) -> Times {
    let mut t = Times::new();
    for &ms in times_ms {
        t.add_time(ms, String::from("R U R' U'"), Penalty::NoPenalty);
    }
    t
}

#[test]
fn short_history_ao5_unset() {
    let t = store_with(&[10000, 9000, 8000, 7000]);
    for rec in &t.times {
        assert_eq!(rec.ao5, Average::Unset);
        assert_eq!(rec.ao12, Average::Unset);
    }
}

#[test]
fn short_history_ao12_unset() {
    let t = store_with(&[10000, 9000, 8000, 7000, 6000, 5000, 9500, 8500, 7500, 6500, 5500]);
    assert_eq!(t.times.len(), 11);
    for rec in &t.times {
        assert_eq!(rec.ao12, Average::Unset);
    }
    assert_ne!(t.times[4].ao5, Average::Unset);
}

#[test]
fn ao5_drops_best_and_worst() {
    let t = store_with(&[10000, 9000, 8000, 7000, 6000]);
    assert_eq!(t.times[4].ao5, Average::Value(8000));
}

#[test]
fn ao5_with_one_dnf_drops_minimum_and_dnf() {
    let mut t = store_with(&[5000, 6000, 7000, 8000]);
    t.add_time(9000, String::from("F2 B2"), Penalty::Dnf);
    assert_eq!(t.times[4].ao5, Average::Value(7000));
}

#[test]
fn ao5_with_two_dnfs_is_disqualified() {
    let mut t = store_with(&[5000, 6000, 7000]);
    t.add_time(8000, String::from("L2"), Penalty::Dnf);
    t.add_time(9000, String::from("D2"), Penalty::Dnf);
    assert_eq!(t.times[4].ao5, Average::Dnf);
    let shown = t.display_time(t.times[4].ao5);
    assert_eq!(shown, "DNF");
}

#[test]
fn ao12_computed_at_twelve() {
    let mut t = Times::new();
    for ms in [
        12000u64, 11000, 10000, 9000, 8000, 7000, 6000, 5000, 4000, 3000, 2000, 13000,
    ] {
        t.add_time(ms, String::from("U"), Penalty::NoPenalty);
    }
    // drop 2000 and 13000, average the remaining ten: 75000 / 10
    assert_eq!(t.times[11].ao12, Average::Value(7500));
}

#[test]
fn delete_on_empty_store_is_noop() {
    let mut t = Times::new();
    t.del_time(0);
    t.del_last();
    assert_eq!(t.num_times(), 0);
    assert_eq!(t.best_single.time, Average::Unset);
    assert_eq!(t.best_ao5.time, Average::Unset);
    assert_eq!(t.best_ao12.time, Average::Unset);
}

#[test]
fn delete_out_of_range_is_noop() {
    let mut t = store_with(&[10000, 9000]);
    t.del_time(2);
    assert_eq!(t.num_times(), 2);
    t.del_time(7);
    assert_eq!(t.num_times(), 2);
}

#[test]
fn delete_rescans_best_single() {
    let mut t = store_with(&[10000, 6000, 8000]);
    assert_eq!(t.best_single.time, Average::Value(6000));
    t.del_time(1);
    assert_eq!(t.num_times(), 2);
    assert_eq!(t.best_single.time, Average::Value(8000));
    assert_eq!(t.best_single.scramble, "R U R' U'");
}

#[test]
fn delete_shifts_windows_and_recomputes() {
    let mut t = store_with(&[10000, 9000, 8000, 7000, 6000, 5000]);
    assert_eq!(t.times[5].ao5, Average::Value(7000));
    t.del_time(0);
    assert_eq!(t.num_times(), 5);
    assert_eq!(t.times[4].ao5, Average::Value(7000));
    for i in 0..4 {
        assert_eq!(t.times[i].ao5, Average::Unset);
    }
}

#[test]
fn toggle_dnf_twice_restores_record() {
    let mut t = store_with(&[10000, 9000]);
    t.toggle_penalty(Penalty::Dnf);
    assert_eq!(t.times[1].penalty, Penalty::Dnf);
    assert_eq!(t.times[1].time, 9000);
    t.toggle_penalty(Penalty::Dnf);
    assert_eq!(t.times[1].penalty, Penalty::NoPenalty);
    assert_eq!(t.times[1].time, 9000);
}

#[test]
fn toggle_plus_two_adds_and_removes_two_seconds() {
    let mut t = store_with(&[10000]);
    t.toggle_penalty(Penalty::PlusTwo);
    assert_eq!(t.times[0].penalty, Penalty::PlusTwo);
    assert_eq!(t.times[0].time, 12000);
    t.toggle_penalty(Penalty::PlusTwo);
    assert_eq!(t.times[0].penalty, Penalty::NoPenalty);
    assert_eq!(t.times[0].time, 10000);
}

#[test]
fn toggle_dnf_on_plus_two_folds_adjustment_out() {
    let mut t = store_with(&[10000]);
    t.toggle_penalty(Penalty::PlusTwo);
    assert_eq!(t.times[0].time, 12000);
    t.toggle_penalty(Penalty::Dnf);
    assert_eq!(t.times[0].penalty, Penalty::Dnf);
    assert_eq!(t.times[0].time, 10000);
}

#[test]
fn toggle_plus_two_on_dnf_switches_and_adds() {
    let mut t = store_with(&[10000]);
    t.toggle_penalty(Penalty::Dnf);
    t.toggle_penalty(Penalty::PlusTwo);
    assert_eq!(t.times[0].penalty, Penalty::PlusTwo);
    assert_eq!(t.times[0].time, 12000);
}

#[test]
fn toggle_on_empty_store_is_noop() {
    let mut t = Times::new();
    t.toggle_penalty(Penalty::Dnf);
    assert_eq!(t.num_times(), 0);
}

#[test]
fn toggle_updates_every_window_and_bests() {
    let mut t = store_with(&[10000, 9000, 8000, 7000, 6000]);
    assert_eq!(t.best_ao5.time, Average::Value(8000));
    t.toggle_penalty(Penalty::Dnf);
    // window is now [10, 9, 8, 7, DNF(6)]: the minimum time value is the
    // DNF entry's own, so both discards take 6 out: (40 - 6 - 6) / 3
    assert_eq!(t.times[4].ao5, Average::Value(9333));
    t.add_time(5000, String::from("B"), Penalty::Dnf);
    // two DNFs in the trailing window disqualify it
    assert_eq!(t.times[5].ao5, Average::Dnf);
}

#[test]
fn reset_clears_history_and_bests() {
    let mut t = store_with(&[10000, 9000, 8000, 7000, 6000]);
    assert!(t.num_times() > 0);
    t.reset();
    assert_eq!(t.num_times(), 0);
    assert_eq!(t.best_single.time, Average::Unset);
    assert_eq!(t.best_ao5.time, Average::Unset);
    assert_eq!(t.best_ao12.time, Average::Unset);
    assert_eq!(t.best_single.scramble, "");
    assert!(t.best_ao5.records.is_empty());
    assert!(t.best_ao12.records.is_empty());
}

#[test]
fn best_single_tracks_first_strict_minimum() {
    let mut t = store_with(&[10000]);
    assert_eq!(t.best_single.time, Average::Value(10000));
    t.add_time(10000, String::from("second"), Penalty::NoPenalty);
    // a tie does not displace the earlier best
    assert_eq!(t.best_single.scramble, "R U R' U'");
    t.add_time(9000, String::from("third"), Penalty::NoPenalty);
    assert_eq!(t.best_single.time, Average::Value(9000));
    assert_eq!(t.best_single.scramble, "third");
}

#[test]
fn best_ao5_records_supporting_window() {
    let t = store_with(&[10000, 9000, 8000, 7000, 6000]);
    assert_eq!(t.best_ao5.time, Average::Value(8000));
    assert_eq!(t.best_ao5.records.len(), 5);
    assert_eq!(t.best_ao5.records[0].time, 10000);
    assert_eq!(t.best_ao5.records[4].time, 6000);
}

#[test]
fn best_ao5_improves_only_on_strictly_lower() {
    let mut t = store_with(&[10000, 9000, 8000, 7000, 6000]);
    assert_eq!(t.best_ao5.time, Average::Value(8000));
    t.add_time(5000, String::from("U2"), Penalty::NoPenalty);
    // window [9, 8, 7, 6, 5] averages 7 after trimming
    assert_eq!(t.times[5].ao5, Average::Value(7000));
    assert_eq!(t.best_ao5.time, Average::Value(7000));
    t.add_time(30000, String::from("D2"), Penalty::NoPenalty);
    assert_eq!(t.best_ao5.time, Average::Value(7000));
}

#[test]
fn currents_reports_na_until_enough_history() {
    let t = store_with(&[10000, 9000]);
    let c = t.currents();
    assert_eq!(c, vec![
        String::from("9.000"),
        String::from("NA"),
        String::from("NA"),
    ]);
}

#[test]
fn currents_on_empty_store() {
    let t = Times::new();
    let c = t.currents();
    assert_eq!(c, vec![String::from("NA"), String::from("NA"), String::from("NA")]);
}

#[test]
fn currents_shows_dnf_for_disqualified_last_solve() {
    let mut t = store_with(&[10000]);
    t.toggle_penalty(Penalty::Dnf);
    let c = t.currents();
    assert_eq!(c[0], "DNF");
}

#[test]
fn bests_formats_all_three() {
    let t = store_with(&[10000, 9000, 8000, 7000, 6000]);
    let b = t.bests();
    assert_eq!(b, vec![
        String::from("6.000"),
        String::from("8.000"),
        String::from("NA"),
    ]);
}

#[test]
fn display_time_formats_three_decimals() {
    let t = Times::new();
    assert_eq!(t.display_time(Average::Value(12345)), "12.345");
    assert_eq!(t.display_time(Average::Value(8000)), "8.000");
    assert_eq!(t.display_time(Average::Value(999)), "0.999");
    assert_eq!(t.display_time(Average::Value(0)), "0.000");
    assert_eq!(t.display_time(Average::Value(60042)), "60.042");
    assert_eq!(t.display_time(Average::Unset), "NA");
    assert_eq!(t.display_time(Average::Dnf), "DNF");
}

#[test]
fn calc_ao5_matches_cached_values() {
    let t = store_with(&[11000, 12000, 13000, 14000, 15000, 16000]);
    for i in 0..t.num_times() {
        assert_eq!(t.calc_ao5(i), t.times[i].ao5);
        assert_eq!(t.calc_ao12(i), t.times[i].ao12);
    }
}

#[test]
fn extreme_times_survive_penalty_toggles() {
    let mut t = Times::new();
    t.add_time(MAX_TIME_MS, String::from("edge"), Penalty::NoPenalty);
    t.toggle_penalty(Penalty::PlusTwo);
    assert_eq!(t.times[0].time, MAX_TIME_MS + 2000);
    t.toggle_penalty(Penalty::PlusTwo);
    assert_eq!(t.times[0].time, MAX_TIME_MS);
    assert_eq!(t.times[0].penalty, Penalty::NoPenalty);
}

#[test]
fn best_ao12_set_once_twelve_records_exist() {
    let mut t = Times::new();
    for ms in [
        12000u64, 11000, 10000, 9000, 8000, 7000, 6000, 5000, 4000, 3000, 2000,
    ] {
        t.add_time(ms, String::from("U"), Penalty::NoPenalty);
    }
    assert_eq!(t.best_ao12.time, Average::Unset);
    t.add_time(13000, String::from("F"), Penalty::NoPenalty);
    assert_eq!(t.best_ao12.time, Average::Value(7500));
    assert_eq!(t.best_ao12.records.len(), 12);
}

#[test]
fn average_rounds_to_nearest_millisecond() {
    // kept times 10, 10, 11 average to 10333.33..., rounding down
    let t = store_with(&[9000, 10000, 10000, 11000, 12000]);
    assert_eq!(t.times[4].ao5, Average::Value(10333));
    // kept times 10, 11, 11 average to 10666.66..., rounding up
    let u = store_with(&[9000, 10000, 11000, 11000, 12000]);
    assert_eq!(u.times[4].ao5, Average::Value(10667));
}
