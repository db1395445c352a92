use cube_timer::app::{App, Penalty, State};
use cube_timer::timer::Timer;
use cube_timer::window::Average;

#[test]
fn new_app_is_idle_and_empty() {
    let app = App::new();
    assert_eq!(app.state, State::Idle);
    assert!(app.running);
    assert_eq!(app.times.num_times(), 0);
    assert_eq!(app.scramble.moves.len(), 20);
    assert_eq!(app.penalty, Penalty::NoPenalty);
}

#[test]
fn confirm_cycle_appends_exactly_one_record() {
    let mut app = App::new();
    let scramble_before = app.scramble.to_string();

    app.handle_space();
    assert_eq!(app.state, State::Inspecting);
    assert_eq!(app.times.num_times(), 0);
    assert_eq!(app.penalty, Penalty::NoPenalty);

    app.handle_space();
    assert_eq!(app.state, State::Timing);
    assert_eq!(app.times.num_times(), 0);

    app.handle_space();
    assert_eq!(app.state, State::Idle);
    assert_eq!(app.times.num_times(), 1);
    assert_eq!(app.times.times[0].scramble, scramble_before);
    assert_eq!(app.times.times[0].penalty, Penalty::NoPenalty);
    assert_eq!(app.scramble.moves.len(), 20);
}

#[test]
fn staged_plus_two_is_attached_to_the_solve() {
    let mut app = App::new();
    app.handle_space(); // inspecting
    app.inspection_time = 15500;
    let shown = app.time_string();
    assert_eq!(shown, "+2");
    assert_eq!(app.penalty, Penalty::PlusTwo);
    app.handle_space(); // timing
    app.handle_space(); // idle, record appended
    assert_eq!(app.times.num_times(), 1);
    assert_eq!(app.times.times[0].penalty, Penalty::PlusTwo);
    // the recorded time carries the two staged seconds
    assert!(app.times.times[0].time >= 2000);
}

#[test]
fn inspection_escalates_to_dnf() {
    let mut app = App::new();
    app.handle_space();
    app.inspection_time = 17000;
    let shown = app.time_string();
    assert_eq!(shown, "DNF");
    assert_eq!(app.penalty, Penalty::Dnf);
}

#[test]
fn inspection_countdown_rounds_to_nearest_second() {
    let mut app = App::new();
    app.handle_space();
    app.inspection_time = 0;
    assert_eq!(app.time_string(), "15");
    app.inspection_time = 2400;
    assert_eq!(app.time_string(), "13");
    app.inspection_time = 2600;
    assert_eq!(app.time_string(), "12");
    app.inspection_time = 14999;
    assert_eq!(app.time_string(), "0");
    assert_eq!(app.penalty, Penalty::NoPenalty);
}

#[test]
fn idle_display_before_any_solve_is_zero() {
    let mut app = App::new();
    assert_eq!(app.time_string(), "0.000");
}

#[test]
fn idle_display_after_solve_shows_its_outcome() {
    let mut app = App::new();
    app.handle_space();
    app.handle_space();
    app.handle_space();
    let shown = app.time_string();
    let want = app.times.currents()[0].clone();
    if app.time == 0 {
        // a solve measured at zero milliseconds displays the clock itself
        assert_eq!(shown, "0.000");
    } else {
        assert_eq!(shown, want);
    }
}

#[test]
fn timing_display_shows_live_clock() {
    let mut app = App::new();
    app.handle_space();
    app.handle_space();
    assert_eq!(app.state, State::Timing);
    app.time = 1234;
    assert_eq!(app.time_string(), "1.234");
}

#[test]
fn reset_clears_store_and_renews_scramble() {
    let mut app = App::new();
    app.handle_space();
    app.handle_space();
    app.handle_space();
    assert_eq!(app.times.num_times(), 1);
    app.reset();
    assert_eq!(app.times.num_times(), 0);
    assert_eq!(app.times.best_single.time, Average::Unset);
    assert_eq!(app.scramble.moves.len(), 20);
}

#[test]
fn toggle_help_hidden_while_clock_runs() {
    let mut app = App::new();
    app.toggle_help();
    assert!(app.show_help);
    app.toggle_help();
    assert!(!app.show_help);
    app.timer.start();
    app.toggle_help();
    assert!(!app.show_help);
}

#[test]
fn penalty_serialization_text() {
    assert_eq!(Penalty::NoPenalty.text(), "");
    assert_eq!(Penalty::PlusTwo.text(), "+2");
    assert_eq!(Penalty::Dnf.text(), "DNF");
}

#[test]
fn quit_stops_running() {
    let mut app = App::new();
    app.quit();
    assert!(!app.running);
}

#[test]
fn last_scramble_reports_most_recent_record() {
    let mut app = App::new();
    assert_eq!(app.last_scramble(), "No scrambles yet.");
    let s = app.scramble.to_string();
    app.handle_space();
    app.handle_space();
    app.handle_space();
    assert_eq!(app.last_scramble(), s);
}

#[test]
fn timer_records_a_stop_and_resets() {
    let mut t = Timer::new();
    assert!(!t.running);
    assert_eq!(t.get_time(), 0);
    t.start();
    assert!(t.running);
    let stopped = t.stop();
    assert!(!t.running);
    assert_eq!(t.get_time(), stopped);
    t.reset();
    assert_eq!(t.get_time(), 0);
}

#[test]
fn tick_copies_stopped_clock_readings() {
    let mut app = App::new();
    app.timer.time = 4321;
    app.tick();
    assert_eq!(app.time, 4321);
    assert_eq!(app.inspection_time, 0);
}
