//! The timing state machine: inspection, timing, and solve completion.
//!
//! A single "confirm" input drives the machine around its three phases.
//! While inspecting, the elapsed inspection time stages a penalty that is
//! frozen when inspection ends and attached when the solve completes.

use crate::display::{dec_digits, time_text};
use crate::scramble::{scramble_ok, scramble_text, Scramble};
use crate::timer::Timer;
use crate::times::{RecV, Times};
use crate::window::MAX_TIME_MS;
use vstd::prelude::*;
use vstd::string::StringExecFns;

verus! {

/// The phase the timer is in.
#[derive(Clone, Copy, PartialEq, Eq, Structural, Debug)]
pub enum State {
    Idle,
    Timing,
    Inspecting,
}

/// A penalty attached to a solve. A plus-two adds two seconds to the
/// recorded time; a DNF disqualifies the solve for averaging.
#[derive(Clone, Copy, PartialEq, Eq, Structural, Debug)]
pub enum Penalty {
    NoPenalty,
    PlusTwo,
    Dnf,
}

/// How a penalty reads in displays and in the persisted snapshot: empty
/// for none, `+2` for a plus-two, `DNF` for a disqualification.
pub open spec fn penalty_text(p: Penalty) -> Seq<char> {
    match p {
        Penalty::NoPenalty => Seq::empty(),
        Penalty::PlusTwo => seq!['+', '2'],
        Penalty::Dnf => seq!['D', 'N', 'F'],
    }
}

impl Penalty {
    /// The penalty's display and serialization text.
    pub fn text(&self) -> (r: String)
        ensures
            r@ == penalty_text(*self),
    {
        match self {
            Penalty::NoPenalty => {
                let s = String::new();
                proof {
                    assert(s@ =~= penalty_text(Penalty::NoPenalty));
                }
                s
            },
            Penalty::PlusTwo => {
                proof {
                    reveal_strlit("+2");
                }
                let s = String::from_str("+2");
                proof {
                    assert(s@ =~= penalty_text(Penalty::PlusTwo));
                }
                s
            },
            Penalty::Dnf => {
                proof {
                    reveal_strlit("DNF");
                }
                let s = String::from_str("DNF");
                proof {
                    assert(s@ =~= penalty_text(Penalty::Dnf));
                }
                s
            },
        }
    }
}

/// Where one confirm input takes the machine from each phase.
pub open spec fn next_state(s: State) -> State {
    match s {
        State::Idle => State::Inspecting,
        State::Inspecting => State::Timing,
        State::Timing => State::Idle,
    }
}

/// Three confirms take the machine from any phase back to it: the phases
/// form one cycle.
pub proof fn lemma_confirm_cycle(s: State)
    ensures
        next_state(next_state(next_state(s))) == s,
{
}

/// The penalty staged after `e` milliseconds of inspection: none under
/// fifteen seconds, plus-two up to seventeen, then a DNF.
pub open spec fn staged_penalty(e: int) -> Penalty {
    if e < 15000 {
        Penalty::NoPenalty
    } else if e < 17000 {
        Penalty::PlusTwo
    } else {
        Penalty::Dnf
    }
}

/// A raw timer reading capped at the largest time the store accepts.
pub open spec fn clamped(t: u64) -> u64 {
    if t > MAX_TIME_MS {
        MAX_TIME_MS
    } else {
        t
    }
}

/// The time recorded for a solve: the capped reading, plus the two
/// staged seconds when a plus-two is attached.
pub open spec fn adjusted(t: u64, p: Penalty) -> u64 {
    if p is PlusTwo {
        (clamped(t) + 2000) as u64
    } else {
        clamped(t)
    }
}

/// What the main display shows: the inspection countdown or staged
/// penalty while inspecting; the last solve's outcome while idle after a
/// solve; otherwise the main clock with three decimals.
pub open spec fn display_text(a: &App) -> Seq<char> {
    if a.state is Inspecting {
        let e = a.inspection_time as int;
        if e < 15000 {
            dec_digits((15000 - e + 500) / 1000)
        } else if e < 17000 {
            seq!['+', '2']
        } else {
            seq!['D', 'N', 'F']
        }
    } else if a.state is Idle && a.time != 0 {
        if a.times@.len() == 0 {
            time_text(0)
        } else if a.times@.last().penalty is Dnf {
            seq!['D', 'N', 'F']
        } else {
            time_text(a.times@.last().time as int)
        }
    } else {
        time_text(a.time as int)
    }
}

/// The application: the state machine, its two clocks, the active
/// scramble, and the statistics store.
#[derive(Debug)]
pub struct App {
    pub state: State,
    pub running: bool,
    pub show_help: bool,
    pub timer: Timer,
    pub time: u64,
    pub scramble: Scramble,
    pub inspection_timer: Timer,
    pub inspection_time: u64,
    pub times: Times,
    pub show_last_scramble: bool,
    pub penalty: Penalty,
}

impl App {
    /// The invariant the machine keeps: a consistent store and a scramble
    /// that satisfies the adjacency constraints.
    pub open spec fn wf(&self) -> bool {
        &&& self.times.wf()
        &&& scramble_ok(self.scramble@)
    }

    /// A fresh machine: idle, running, with an empty store and a new
    /// twenty-move scramble.
    pub fn new() -> (r: App)
        ensures
            r.wf(),
            r.state is Idle,
            r.running,
            !r.show_help,
            r.time == 0,
            r.inspection_time == 0,
            r.times@ == Seq::<RecV>::empty(),
            r.scramble@.len() == 20,
            r.penalty is NoPenalty,
            !r.show_last_scramble,
            !r.timer.running,
            !r.inspection_timer.running,
    {
        App {
            state: State::Idle,
            running: true,
            show_help: false,
            timer: Timer::new(),
            time: 0,
            scramble: Scramble::new(20),
            inspection_timer: Timer::new(),
            inspection_time: 0,
            times: Times::new(),
            show_last_scramble: false,
            penalty: Penalty::NoPenalty,
        }
    }

    /// Refresh the displayed times from both clocks; nothing else moves.
    pub fn tick(&mut self)
        ensures
            final(self).state == old(self).state,
            final(self).running == old(self).running,
            final(self).show_help == old(self).show_help,
            final(self).timer == old(self).timer,
            final(self).scramble == old(self).scramble,
            final(self).inspection_timer == old(self).inspection_timer,
            final(self).times == old(self).times,
            final(self).show_last_scramble == old(self).show_last_scramble,
            final(self).penalty == old(self).penalty,
            !old(self).timer.running ==> final(self).time == old(self).timer.time,
            !old(self).inspection_timer.running ==> final(self).inspection_time == old(
                self,
            ).inspection_timer.time,
    {
        self.time = self.timer.get_time();
        self.inspection_time = self.inspection_timer.get_time();
    }

    /// Stop running; the caller persists the store before exiting.
    pub fn quit(&mut self)
        ensures
            !final(self).running,
            final(self).times == old(self).times,
            final(self).state == old(self).state,
    {
        self.running = false;
    }

    /// Toggle the help popup; it stays hidden while the clock runs.
    pub fn toggle_help(&mut self)
        ensures
            final(self).show_help == (if old(self).timer.running {
                false
            } else {
                !old(self).show_help
            }),
            final(self).state == old(self).state,
            final(self).times == old(self).times,
            final(self).timer == old(self).timer,
    {
        if self.timer.running {
            self.show_help = false;
        } else {
            self.show_help = !self.show_help;
        }
    }

    /// One confirm input, interpreted per phase: idle starts inspection
    /// with a clean staged penalty; inspecting freezes the staged penalty
    /// and starts the main clock; timing stops the clock, appends the
    /// solve to the store, and installs a fresh scramble.
    pub fn handle_space(&mut self)
        requires
            old(self).wf(),
        ensures
            final(self).wf(),
            final(self).state == next_state(old(self).state),
            old(self).state is Idle ==> {
                &&& final(self).penalty is NoPenalty
                &&& final(self).times == old(self).times
                &&& final(self).scramble == old(self).scramble
                &&& final(self).inspection_timer.running
                &&& final(self).time == old(self).time
            },
            old(self).state is Inspecting ==> {
                &&& final(self).times == old(self).times
                &&& final(self).scramble == old(self).scramble
                &&& final(self).penalty == old(self).penalty
                &&& !final(self).inspection_timer.running
                &&& final(self).inspection_timer.time == 0
                &&& final(self).timer.running
                &&& final(self).timer.time == 0
            },
            old(self).state is Timing ==> {
                &&& final(self).times@.len() == old(self).times@.len() + 1
                &&& (forall|i: int|
                    0 <= i < old(self).times@.len() ==> final(self).times@[i] == old(
                        self,
                    ).times@[i])
                &&& final(self).times@.last().time == adjusted(
                    final(self).timer.time,
                    old(self).penalty,
                )
                &&& final(self).times@.last().penalty == old(self).penalty
                &&& final(self).times@.last().scramble == scramble_text(old(self).scramble@)
                &&& !final(self).timer.running
                &&& final(self).time == final(self).timer.time
                &&& final(self).scramble@.len() == 20
                &&& final(self).penalty == old(self).penalty
            },
    {
        match self.state {
            State::Idle => {
                self.start_inspection();
                self.penalty = Penalty::NoPenalty;
            },
            State::Inspecting => {
                self.stop_inspection();
                self.state = State::Timing;
                self.timer.reset();
                self.timer.start();
            },
            State::Timing => {
                let t = self.timer.stop();
                self.time = t;
                self.state = State::Idle;
                let capped = if t > MAX_TIME_MS {
                    MAX_TIME_MS
                } else {
                    t
                };
                let recorded = if self.penalty == Penalty::PlusTwo {
                    capped + 2000
                } else {
                    capped
                };
                let text = self.scramble.to_string();
                let pen = self.penalty;
                self.times.add_time(recorded, text, pen);
                self.scramble = Scramble::new(20);
            },
        }
    }

    /// What the main timer shows this tick. While inspecting this also
    /// stages the penalty that the elapsed inspection time calls for.
    pub fn time_string(&mut self) -> (r: String)
        ensures
            r@ == display_text(old(self)),
            final(self).penalty == (if old(self).state is Inspecting {
                staged_penalty(old(self).inspection_time as int)
            } else {
                old(self).penalty
            }),
            final(self).state == old(self).state,
            final(self).running == old(self).running,
            final(self).show_help == old(self).show_help,
            final(self).timer == old(self).timer,
            final(self).time == old(self).time,
            final(self).scramble == old(self).scramble,
            final(self).inspection_timer == old(self).inspection_timer,
            final(self).inspection_time == old(self).inspection_time,
            final(self).times == old(self).times,
            final(self).show_last_scramble == old(self).show_last_scramble,
    {
        if self.state == State::Inspecting {
            let e = self.inspection_time;
            if e < 15000 {
                self.penalty = Penalty::NoPenalty;
                crate::display::u64_to_dec((15000 - e + 500) / 1000)
            } else if e < 17000 {
                self.penalty = Penalty::PlusTwo;
                proof {
                    reveal_strlit("+2");
                }
                let s = String::from_str("+2");
                proof {
                    assert(s@ =~= display_text(old(self)));
                }
                s
            } else {
                self.penalty = Penalty::Dnf;
                proof {
                    reveal_strlit("DNF");
                }
                let s = String::from_str("DNF");
                proof {
                    assert(s@ =~= display_text(old(self)));
                }
                s
            }
        } else if self.state == State::Idle && self.time != 0 {
            let n = self.times.num_times();
            if n == 0 {
                crate::display::ms_to_text(0)
            } else {
                let c = self.times.currents();
                let s = c[0].clone();
                s
            }
        } else {
            crate::display::ms_to_text(self.time)
        }
    }

    /// Install a fresh twenty-move scramble.
    pub fn new_scramble(&mut self)
        ensures
            final(self).scramble@.len() == 20,
            scramble_ok(final(self).scramble@),
            final(self).state == old(self).state,
            final(self).times == old(self).times,
            final(self).penalty == old(self).penalty,
    {
        self.scramble = Scramble::new(20);
    }

    /// Enter inspection and start its clock.
    pub fn start_inspection(&mut self)
        ensures
            final(self).state is Inspecting,
            final(self).inspection_timer.running,
            final(self).inspection_timer.time == old(self).inspection_timer.time,
            final(self).times == old(self).times,
            final(self).scramble == old(self).scramble,
            final(self).timer == old(self).timer,
            final(self).penalty == old(self).penalty,
            final(self).time == old(self).time,
    {
        self.state = State::Inspecting;
        self.inspection_timer.start();
    }

    /// Stop and clear the inspection clock.
    pub fn stop_inspection(&mut self)
        ensures
            !final(self).inspection_timer.running,
            final(self).inspection_timer.time == 0,
            final(self).state == old(self).state,
            final(self).times == old(self).times,
            final(self).scramble == old(self).scramble,
            final(self).timer == old(self).timer,
            final(self).penalty == old(self).penalty,
            final(self).time == old(self).time,
    {
        self.inspection_timer.stop();
        self.inspection_timer.reset();
    }

    /// Clear the whole history and bests, and install a fresh scramble.
    pub fn reset(&mut self)
        ensures
            final(self).times@ == Seq::<RecV>::empty(),
            final(self).times.wf(),
            final(self).scramble@.len() == 20,
            scramble_ok(final(self).scramble@),
            final(self).state == old(self).state,
    {
        self.times.reset();
        self.new_scramble();
    }

    /// The scramble of the most recent solve, or a fixed message while
    /// the store is empty.
    pub fn last_scramble(&self) -> (r: String)
        ensures
            r@ == (if self.times@.len() == 0 {
                "No scrambles yet."@
            } else {
                self.times@.last().scramble
            }),
    {
        let n = self.times.num_times();
        if n == 0 {
            String::from_str("No scrambles yet.")
        } else {
            proof {
                assert(self.times@.last() == self.times.times@[n - 1]@);
            }
            self.times.times[n - 1].scramble.clone()
        }
    }
}

impl Default for App {
    /// The same machine `new` builds.
    fn default() -> (r: App)
        ensures
            r.wf(),
            r.state is Idle,
            r.times@ == Seq::<RecV>::empty(),
    {
        App::new()
    }
}

} // verus!
