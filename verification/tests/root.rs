use orts::reading::{FloatClass, FloatValue};
use orts::root::{
    check_finite, on_same_side, Bracket, Crossing, EventTraits, RootError, RootHit, RootSet, Sample, SearchBudget,
};

/// A key that orders binary64 values as the values are ordered.
fn key(v: f64) -> u64 {
    let v = if v == 0.0 { 0.0 } else { v };
    let b = v.to_bits();
    if b >> 63 == 1 {
        !b
    } else {
        b | (1 << 63)
    }
}

/// The value a [`key`] was made from.
fn value_of_key(k: u64) -> f64 {
    if k >> 63 == 1 {
        f64::from_bits(k & !(1 << 63))
    } else {
        f64::from_bits(!k)
    }
}

fn class(v: f64) -> FloatClass {
    if v.is_nan() {
        FloatClass::Nan
    } else if v == f64::INFINITY {
        FloatClass::PosInfinity
    } else if v == f64::NEG_INFINITY {
        FloatClass::NegInfinity
    } else if v < 0.0 {
        FloatClass::Negative
    } else if v == 0.0 {
        FloatClass::Zero
    } else {
        FloatClass::Positive
    }
}

fn sample(v: f64) -> Sample {
    Sample {
        class: class(v),
        magnitude: key(v.abs()),
    }
}

/// A boundary as a signed function of `(t, y)`, with how it counts.
struct Event {
    value: Box<dyn Fn(f64, f64) -> f64>,
    crossing: Crossing,
    terminal: bool,
    priority: i32,
    boundary: f64,
}

impl Event {
    fn new(value: impl Fn(f64, f64) -> f64 + 'static) -> Self {
        Self {
            value: Box::new(value),
            crossing: Crossing::Either,
            terminal: true,
            priority: 0,
            boundary: 0.0,
        }
    }

    fn traits(&self) -> EventTraits {
        EventTraits {
            crossing: self.crossing,
            terminal: self.terminal,
            priority: self.priority,
            boundary: FloatValue {
                class: class(self.boundary),
                unit: (self.boundary - 1.0).abs() <= 1e-9,
                key: key(self.boundary),
            },
        }
    }
}

/// `y - level`, counted either way, terminal, priority 0, no tolerance.
fn level(at: f64) -> Event {
    Event::new(move |_t, y| y - at)
}

struct Search {
    t_tolerance: f64,
    max_iterations: u32,
}

const DEFAULT: Search = Search {
    t_tolerance: 1e-3,
    max_iterations: 60,
};

/// A set with the events of a walk and the search it bisects with.
struct Walk {
    set: RootSet,
    events: Vec<Event>,
    search: Search,
}

#[derive(Debug)]
enum Step {
    Nothing,
    Found {
        t: f64,
        state: f64,
        bracket: f64,
        terminal: bool,
    },
}

fn build(events: Vec<Event>, search: Search) -> Result<Walk, RootError> {
    let traits = events.iter().map(Event::traits).collect();
    let set = RootSet::new(traits, class(search.t_tolerance), search.max_iterations)?;
    Ok(Walk {
        set,
        events,
        search,
    })
}

impl Walk {
    fn samples(&self, t: f64, y: f64) -> Vec<Sample> {
        self.events.iter().map(|e| sample((e.value)(t, y))).collect()
    }

    fn values_at(&self, t: f64, y: f64) -> Result<Vec<Sample>, (RootError, f64)> {
        let values = self.samples(t, y);
        match check_finite(&values) {
            Some(event) => Err((RootError::NonFiniteRootValue { event }, t)),
            None => Ok(values),
        }
    }

    fn begin(&mut self, t: f64, y: f64) -> Result<(), RootError> {
        let values = self.samples(t, y);
        self.set.begin(key(t), values)
    }

    /// Examines the step from `(t0, y0)` of width `h` landing on `y_end`, and
    /// bisects to the earliest crossing in it.
    fn scan_step(
        &mut self,
        t0: f64,
        h: f64,
        y_end: f64,
        mut raw_step: impl FnMut(f64) -> f64,
    ) -> Result<Step, (RootError, f64)> {
        if self.events.is_empty() {
            return Ok(Step::Nothing);
        }
        let mut values_hi = self.values_at(t0 + h, y_end)?;
        if !self.set.mark_candidates(key(t0), &values_hi) {
            return Ok(Step::Nothing);
        }
        let mut bracket = Bracket::new(key(0.0), key(h));
        let mut y_hi = y_end;
        let mut budget = SearchBudget::new(self.search.max_iterations);
        loop {
            let (lo, hi) = (value_of_key(bracket.lo()), value_of_key(bracket.hi()));
            match budget.next_trial(hi - lo > self.search.t_tolerance) {
                Err(e) => return Err((e, t0)),
                Ok(false) => break,
                Ok(true) => {}
            }
            let mid = lo + (hi - lo) / 2.0;
            if !bracket.has_room(key(mid)) {
                break;
            }
            let y_mid = raw_step(mid);
            let values_mid = self.values_at(t0 + mid, y_mid)?;
            let crosses = self.set.any_candidate_crosses(key(t0), &values_mid);
            if crosses {
                y_hi = y_mid;
                values_hi = values_mid;
            }
            bracket.narrow(key(mid), crosses);
        }
        let (lo, hi) = (value_of_key(bracket.lo()), value_of_key(bracket.hi()));
        let terminal = self.set.record_hits(key(t0), &values_hi);
        Ok(Step::Found {
            t: t0 + hi,
            state: y_hi,
            bracket: hi - lo,
            terminal,
        })
    }

    /// What a stepper does after it has stored a state: read the values,
    /// then record where the walk is.
    fn commit(&mut self, t: f64, y: f64) {
        let values = self.samples(t, y);
        self.set.check(&values).expect("finite value");
        self.set.apply(key(t), values);
    }

    fn hits(&self) -> Vec<RootHit> {
        self.set.hits().to_vec()
    }
}

/// `y' = 1` from `y = 0`: the raw state after a width is the width itself.
fn ramp(width: f64) -> f64 {
    width
}

#[test]
fn a_rising_event_ignores_a_fall_and_the_other_way_round() {
    let (neg, pos) = (FloatClass::Negative, FloatClass::Positive);
    assert!(Crossing::Rising.matches(neg, pos));
    assert!(!Crossing::Rising.matches(pos, neg));
    assert!(Crossing::Falling.matches(pos, neg));
    assert!(!Crossing::Falling.matches(neg, pos));
    assert!(Crossing::Either.matches(neg, pos));
    assert!(Crossing::Either.matches(pos, neg));
}

#[test]
fn landing_exactly_on_zero_is_a_crossing_but_leaving_it_is_not() {
    let (neg, zero, pos) = (FloatClass::Negative, FloatClass::Zero, FloatClass::Positive);
    assert!(Crossing::Rising.matches(neg, zero));
    assert!(Crossing::Falling.matches(pos, zero));
    assert!(!Crossing::Rising.matches(zero, pos));
    assert!(!Crossing::Falling.matches(zero, neg));
    assert!(!Crossing::Either.matches(zero, pos));
    assert!(!Crossing::Either.matches(zero, neg));
}

#[test]
fn the_located_time_is_the_analytic_crossing_within_the_tolerance() {
    let mut walk = build(
        vec![level(0.25)],
        Search {
            t_tolerance: 1e-9,
            max_iterations: 60,
        },
    )
    .expect("valid search");
    walk.begin(0.0, 0.0).expect("finite value");
    match walk.scan_step(0.0, 1.0, 1.0, ramp).expect("located") {
        Step::Found {
            t,
            state,
            bracket,
            terminal,
        } => {
            assert!((t - 0.25).abs() <= 1e-9, "located t = {t}");
            assert!((state - 0.25).abs() <= 1e-9, "state = {state}");
            assert!(bracket <= 1e-9, "bracket = {bracket}");
            assert!(terminal);
            assert_eq!(
                walk.hits(),
                vec![RootHit {
                    event: 0,
                    terminal: true,
                    priority: 0
                }]
            );
        }
        Step::Nothing => panic!("the ramp crosses 0.25 inside the step"),
    }
}

#[test]
fn a_level_the_step_does_not_reach_is_not_a_root() {
    let mut walk = build(vec![level(2.0)], DEFAULT).expect("valid");
    walk.begin(0.0, 0.0).expect("finite value");
    assert!(matches!(
        walk.scan_step(0.0, 1.0, 1.0, ramp).expect("no error"),
        Step::Nothing
    ));
    assert!(walk.hits().is_empty());
}

/// Two levels inside one step: the search converges on the earlier one.
#[test]
fn the_earlier_of_two_crossings_is_the_one_located() {
    let mut walk = build(
        vec![level(0.25), level(0.75)],
        Search {
            t_tolerance: 1e-9,
            max_iterations: 60,
        },
    )
    .expect("valid");
    walk.begin(0.0, 0.0).expect("finite value");
    match walk.scan_step(0.0, 1.0, 1.0, ramp).expect("located") {
        Step::Found { t, .. } => {
            assert!((t - 0.25).abs() <= 1e-9, "located t = {t}");
            assert_eq!(walk.hits().len(), 1, "hits: {:?}", walk.hits());
            assert_eq!(walk.hits()[0].event, 0);
        }
        Step::Nothing => panic!("both levels are inside the step"),
    }
}

/// Two events on the same level cross together, so both are reported, and
/// priority decides the order rather than registration.
#[test]
fn events_crossing_together_are_reported_as_a_group_in_priority_order() {
    let first = Event {
        priority: 5,
        ..level(0.5)
    };
    let second = Event {
        priority: -1,
        terminal: false,
        ..level(0.5)
    };
    let mut walk = build(vec![first, second], DEFAULT).expect("valid");
    walk.begin(0.0, 0.0).expect("finite value");
    match walk.scan_step(0.0, 1.0, 1.0, ramp).expect("located") {
        Step::Found { terminal, .. } => {
            assert!(terminal, "one of the two asked to stop");
            assert_eq!(
                walk.hits(),
                vec![
                    RootHit {
                        event: 1,
                        terminal: false,
                        priority: -1
                    },
                    RootHit {
                        event: 0,
                        terminal: true,
                        priority: 5
                    },
                ]
            );
        }
        Step::Nothing => panic!("both events are on the level the step crosses"),
    }
}

#[test]
fn a_falling_event_ignores_the_rising_step_that_crosses_its_level() {
    let event = Event {
        crossing: Crossing::Falling,
        ..level(0.5)
    };
    let mut walk = build(vec![event], DEFAULT).expect("valid");
    walk.begin(0.0, 0.0).expect("finite value");
    assert!(matches!(
        walk.scan_step(0.0, 1.0, 1.0, ramp).expect("no error"),
        Step::Nothing
    ));
}

/// After a non-terminal root the state sits on the boundary, and the guard
/// keeps the resumed walk from reporting the departure as a crossing.
#[test]
fn the_walk_resumed_from_a_boundary_does_not_report_it_again() {
    let event = Event {
        terminal: false,
        ..level(0.5)
    };
    let mut walk = build(
        vec![event],
        Search {
            t_tolerance: 1e-12,
            max_iterations: 200,
        },
    )
    .expect("valid");
    walk.begin(0.0, 0.0).expect("finite value");
    let t_root = match walk.scan_step(0.0, 1.0, 1.0, ramp).expect("located") {
        Step::Found { t, state, .. } => {
            walk.commit(t, state);
            assert!(walk.set.guard(0).is_on_boundary());
            assert_eq!(walk.set.guard(0).at(), Some(key(t)));
            t
        }
        Step::Nothing => panic!("the ramp crosses 0.5"),
    };

    // Resume from the boundary: the value leaves zero upward, which is a
    // departure, not an arrival.
    walk.begin(t_root, 0.5).expect("finite value");
    assert!(matches!(
        walk.scan_step(t_root, 1.0, 1.5, |w| 0.5 + w)
            .expect("no error"),
        Step::Nothing
    ));
}

/// A value that only jitters around zero is not a stream of fresh
/// crossings, which is what the event's own boundary tolerance settles.
#[test]
fn jitter_within_the_boundary_tolerance_is_not_a_new_crossing() {
    let sliding = Event {
        terminal: false,
        boundary: 1e-6,
        ..level(0.0)
    };
    let mut walk = build(vec![sliding], DEFAULT).expect("valid");
    // Reach the boundary from below and commit there.
    walk.begin(0.0, -1.0).expect("finite value");
    match walk.scan_step(0.0, 1.0, 0.0, |w| -1.0 + w).expect("no error") {
        Step::Found { t, state, .. } => walk.commit(t, state),
        Step::Nothing => panic!("the walk reaches zero from below"),
    }
    assert!(walk.set.guard(0).is_on_boundary());

    // Jitter to the other side of zero, well inside the tolerance.
    walk.begin(1.0, -1e-9).expect("finite value");
    assert!(
        walk.set.guard(0).is_on_boundary(),
        "a value inside the tolerance leaves the guard set"
    );
    assert!(matches!(
        walk.scan_step(1.0, 1.0, 1e-9, |w| -1e-9 + 2e-9 * w)
            .expect("no error"),
        Step::Nothing
    ));

    // Once the value is clear of the boundary, the guard re-arms and a
    // return to zero is a crossing again.
    walk.begin(2.0, 1.0).expect("finite value");
    assert!(!walk.set.guard(0).is_on_boundary());
    assert!(matches!(
        walk.scan_step(2.0, 2.0, -1.0, |w| 1.0 - w).expect("no error"),
        Step::Found { .. }
    ));
}

#[test]
fn a_non_finite_value_stops_the_walk_rather_than_being_bisected_on() {
    let event = Event::new(|_t, y| if y > 0.5 { f64::NAN } else { y - 0.75 });
    let mut walk = build(vec![event], DEFAULT).expect("valid");
    walk.begin(0.0, 0.0).expect("the start is finite");
    assert!(matches!(
        walk.scan_step(0.0, 1.0, 1.0, ramp),
        Err((RootError::NonFiniteRootValue { event: 0 }, t)) if t == 1.0
    ));
}

/// A value whose sign does not follow the state has no crossing for the
/// bisection to narrow; the search reports that rather than a time.
#[test]
fn a_search_that_does_not_converge_is_reported_rather_than_rounded() {
    let event = Event::new(|t, _y| if t >= 1.0 { 1.0 } else { -1.0 });
    let mut walk = build(
        vec![event],
        Search {
            t_tolerance: 1e-9,
            max_iterations: 4,
        },
    )
    .expect("valid");
    walk.begin(0.0, 0.0).expect("finite value");
    assert!(matches!(
        walk.scan_step(0.0, 1.0, 1.0, ramp),
        Err((RootError::RootNotLocalized, t)) if t == 0.0
    ));
}

#[test]
fn a_search_that_cannot_narrow_a_bracket_is_refused_before_the_walk() {
    for search in [
        Search {
            t_tolerance: 0.0,
            max_iterations: 60,
        },
        Search {
            t_tolerance: -1e-3,
            max_iterations: 60,
        },
        Search {
            t_tolerance: f64::NAN,
            max_iterations: 60,
        },
        Search {
            t_tolerance: f64::INFINITY,
            max_iterations: 60,
        },
        Search {
            t_tolerance: 1e-3,
            max_iterations: 0,
        },
    ] {
        let (t, n) = (search.t_tolerance, search.max_iterations);
        assert!(
            build(vec![level(1.0)], search).is_err(),
            "{t}, {n} was accepted"
        );
    }
}

/// A walk resumed from the state the search actually committed does not
/// report the same boundary again.
#[test]
fn the_boundary_a_root_left_is_not_reported_again_from_the_state_it_left() {
    let event = Event {
        terminal: false,
        ..level(1.0 / 3.0)
    };
    let mut walk = build(
        vec![event],
        Search {
            t_tolerance: 1e-12,
            max_iterations: 200,
        },
    )
    .expect("valid");
    walk.begin(0.0, 0.0).expect("finite value");
    let (t_root, y_root) = match walk.scan_step(0.0, 1.0, 1.0, ramp).expect("located") {
        Step::Found { t, state, .. } => {
            walk.commit(t, state);
            (t, state)
        }
        Step::Nothing => panic!("the ramp crosses a third"),
    };
    assert_ne!(
        y_root - 1.0 / 3.0,
        0.0,
        "the committed state is not exactly on the boundary"
    );

    // Resume from that state with the motion reversed.
    walk.begin(t_root, y_root).expect("finite value");
    assert!(matches!(
        walk.scan_step(t_root, 1.0, y_root - 1.0, |w| y_root - w)
            .expect("no error"),
        Step::Nothing
    ));

    // A step that lands away from the boundary clears the guard, and the
    // next return through it is a crossing again.
    let away = y_root + 1.0;
    walk.commit(t_root + 1.0, away);
    assert_eq!(walk.set.guard(0).at(), None);
    walk.begin(t_root + 1.0, away).expect("finite value");
    assert!(matches!(
        walk.scan_step(t_root + 1.0, 2.0, away - 2.0, |w| away - w)
            .expect("no error"),
        Step::Found { .. }
    ));
}

/// A caller that moves the value across zero before resuming has taken the
/// state off the root, so the step it then takes reports a crossing.
#[test]
fn a_value_the_caller_moved_across_zero_crosses_again_from_the_same_time() {
    let event = Event {
        terminal: false,
        crossing: Crossing::Rising,
        ..level(1.0 / 3.0)
    };
    let mut walk = build(
        vec![event],
        Search {
            t_tolerance: 1e-12,
            max_iterations: 200,
        },
    )
    .expect("valid");
    walk.begin(0.0, 0.0).expect("finite value");
    let t_root = match walk.scan_step(0.0, 1.0, 1.0, ramp).expect("located") {
        Step::Found { t, state, .. } => {
            walk.commit(t, state);
            t
        }
        Step::Nothing => panic!("the ramp crosses a third"),
    };
    assert!(walk.set.guard(0).at() == Some(key(t_root)));

    // The caller puts the state well below the level, at the same time.
    let below = 0.0;
    walk.begin(t_root, below).expect("finite value");
    assert_eq!(
        walk.set.guard(0).at(),
        Some(key(t_root)),
        "the walk is still standing at that time"
    );
    assert!(matches!(
        walk.scan_step(t_root, 1.0, below + 1.0, |w| below + w)
            .expect("no error"),
        Step::Found { .. }
    ));
}

/// A root that landed exactly on zero left the value with no side.
#[test]
fn a_root_that_landed_on_zero_does_not_claim_a_side() {
    let event = Event {
        terminal: false,
        crossing: Crossing::Falling,
        ..level(0.5)
    };
    let mut walk = build(
        vec![event],
        Search {
            t_tolerance: 1e-12,
            max_iterations: 200,
        },
    )
    .expect("valid");

    // Fall from 1.0 and land on the level exactly.
    walk.begin(0.0, 1.0).expect("finite value");
    let t_root = match walk.scan_step(0.0, 0.5, 0.5, |w| 1.0 - w).expect("located") {
        Step::Found { t, state, .. } => {
            assert_eq!(state, 0.5, "the step lands on the level exactly");
            walk.commit(t, state);
            t
        }
        Step::Nothing => panic!("the fall reaches 0.5"),
    };
    assert_eq!(walk.set.guard(0).at(), Some(key(t_root)));

    // The caller puts the value back above the level, and it falls again.
    walk.begin(t_root, 1.0).expect("finite value");
    assert!(matches!(
        walk.scan_step(t_root, 1.0, 0.0, |w| 1.0 - w).expect("no error"),
        Step::Found { .. }
    ));
}

/// A walk that starts somewhere other than the last root no longer reports
/// standing on it.
#[test]
fn a_walk_starting_away_from_a_root_forgets_it() {
    let event = Event {
        terminal: false,
        ..level(0.5)
    };
    let mut walk = build(vec![event], DEFAULT).expect("valid");
    walk.begin(0.0, 0.0).expect("finite value");
    let t_root = match walk.scan_step(0.0, 1.0, 1.0, ramp).expect("located") {
        Step::Found { t, state, .. } => {
            walk.commit(t, state);
            t
        }
        Step::Nothing => panic!("the ramp crosses 0.5"),
    };
    assert_eq!(walk.set.guard(0).at(), Some(key(t_root)));

    walk.begin(t_root + 1.0, 1.5).expect("finite value");
    assert_eq!(walk.set.guard(0).at(), None);
}

/// A root the walk gave up on is not left in `hits`.
#[test]
fn hits_are_dropped_when_the_committed_state_has_no_finite_value() {
    const POLE: f64 = 1.0 / 3.0;
    let event = Event::new(|_t, y| 1.0 / (POLE - y));
    let mut walk = build(vec![event], DEFAULT).expect("valid");
    walk.begin(0.0, 0.0).expect("finite value");
    match walk.scan_step(0.0, 1.0, 1.0, ramp).expect("located") {
        Step::Found { .. } => {
            assert_eq!(walk.hits().len(), 1, "the search recorded a hit");
        }
        Step::Nothing => panic!("the value changes sign across the pole"),
    }
    let values = walk.samples(POLE, POLE);
    assert!(matches!(
        walk.set.check(&values),
        Err(RootError::NonFiniteRootValue { .. })
    ));
    assert!(
        walk.hits().is_empty(),
        "a hit the walk gave up on stays out of hits(): {:?}",
        walk.hits()
    );
}

#[test]
fn an_event_whose_boundary_tolerance_cannot_re_arm_a_guard_is_refused() {
    for bad in [-1e-9, f64::NAN, f64::INFINITY] {
        let event = Event {
            boundary: bad,
            ..level(1.0)
        };
        assert!(
            matches!(
                build(vec![event], DEFAULT),
                Err(RootError::InvalidBoundaryTolerance { event: 0 })
            ),
            "a boundary tolerance of {bad} was accepted"
        );
    }
}

/// What the search reports when a step holds three crossings of one event.
#[test]
fn three_crossings_in_one_step_converge_on_the_last() {
    let event = Event::new(|t, _y| (t - 0.2) * (t - 0.4) * (t - 0.8));
    let mut walk = build(
        vec![event],
        Search {
            t_tolerance: 1e-9,
            max_iterations: 60,
        },
    )
    .expect("valid");
    walk.begin(0.0, 0.0).expect("finite value");
    match walk.scan_step(0.0, 1.0, 1.0, ramp).expect("located") {
        Step::Found { t, .. } => {
            assert!((t - 0.8).abs() <= 1e-9, "located {t}");
        }
        Step::Nothing => panic!("the value changes sign over the step"),
    }
}

/// Two crossings of one event inside a step cancel.
#[test]
fn two_crossings_in_one_step_are_not_seen() {
    let event = Event::new(|t, _y| (t - 0.3) * (t - 0.7));
    let mut walk = build(vec![event], DEFAULT).expect("valid");
    walk.begin(0.0, 0.0).expect("finite value");
    assert!(matches!(
        walk.scan_step(0.0, 1.0, 1.0, ramp).expect("no error"),
        Step::Nothing
    ));
}

/// Events of equal priority are reported in the order they were registered.
#[test]
fn events_of_equal_priority_keep_their_registration_order() {
    let events = (0..3)
        .map(|_| Event {
            terminal: false,
            ..level(0.5)
        })
        .collect();
    let mut walk = build(events, DEFAULT).expect("valid");
    walk.begin(0.0, 0.0).expect("finite value");
    match walk.scan_step(0.0, 1.0, 1.0, ramp).expect("located") {
        Step::Found { .. } => {
            let order: Vec<usize> = walk.hits().iter().map(|hit| hit.event).collect();
            assert_eq!(order, vec![0, 1, 2]);
        }
        Step::Nothing => panic!("all three are on the level the step crosses"),
    }
}

/// An empty set makes the walk the plain one: no trial step.
#[test]
fn a_set_with_no_events_finds_nothing() {
    let mut walk = build(Vec::new(), DEFAULT).expect("valid");
    assert!(walk.set.is_empty());
    assert_eq!(walk.set.len(), 0);
    walk.begin(0.0, 0.0).expect("nothing to evaluate");
    assert!(matches!(
        walk.scan_step(0.0, 1.0, 1.0, |_| panic!("no event, so no trial step"))
            .expect("no error"),
        Step::Nothing
    ));
}

#[test]
fn a_non_finite_start_changes_nothing() {
    let mut walk = build(vec![level(0.5), level(0.25)], DEFAULT).expect("valid");
    let values = vec![sample(1.0), sample(f64::INFINITY)];
    assert_eq!(
        walk.set.begin(key(0.0), values),
        Err(RootError::NonFiniteRootValue { event: 1 })
    );
    assert_eq!(check_finite(&vec![sample(f64::NAN), sample(1.0)]), Some(0));
    assert_eq!(check_finite(&vec![sample(-2.0), sample(0.0)]), None);
}

#[test]
fn a_budget_takes_its_trials_and_then_gives_up() {
    let mut budget = SearchBudget::new(2);
    assert_eq!(budget.next_trial(false), Ok(false));
    assert_eq!(budget.next_trial(true), Ok(true));
    assert_eq!(budget.next_trial(true), Ok(true));
    assert_eq!(budget.next_trial(true), Err(RootError::RootNotLocalized));
    assert_eq!(budget.next_trial(false), Ok(false));
}

#[test]
fn same_side_reads_zero_as_no_side() {
    let (neg, zero, pos) = (FloatClass::Negative, FloatClass::Zero, FloatClass::Positive);
    assert!(on_same_side(pos, FloatClass::PosInfinity));
    assert!(on_same_side(neg, FloatClass::NegInfinity));
    assert!(!on_same_side(neg, pos));
    assert!(on_same_side(zero, zero));
    assert!(!on_same_side(zero, pos));
    assert!(!on_same_side(neg, zero));
}

#[test]
fn a_guard_starts_unarmed() {
    let walk = build(vec![level(0.5)], DEFAULT).expect("valid");
    assert_eq!(walk.set.guard(0).at(), None);
    assert!(!walk.set.guard(0).is_on_boundary());
    assert!(!walk.set.is_empty());
    assert_eq!(walk.set.len(), 1);
    let fresh = orts::root::RootGuard::new();
    assert_eq!(fresh.at(), None);
    assert!(!fresh.is_on_boundary());
    assert_eq!(orts::root::RootGuard::default(), fresh);
}

#[test]
fn discarded_hits_are_gone() {
    let mut walk = build(vec![level(0.5)], DEFAULT).expect("valid");
    walk.begin(0.0, 0.0).expect("finite value");
    assert!(matches!(
        walk.scan_step(0.0, 1.0, 1.0, ramp).expect("located"),
        Step::Found { .. }
    ));
    assert_eq!(walk.hits().len(), 1);
    walk.set.discard_hits();
    assert!(walk.hits().is_empty());
}

#[test]
fn a_refused_search_names_its_iteration_cap() {
    assert_eq!(
        build(
            vec![level(1.0)],
            Search {
                t_tolerance: 0.0,
                max_iterations: 7
            }
        )
        .err(),
        Some(RootError::InvalidRootSearch { max_iterations: 7 })
    );
}

#[test]
fn a_bracket_narrows_to_the_half_that_crosses() {
    let mut b = Bracket::new(key(0.0), key(1.0));
    assert!(b.has_room(key(0.5)));
    assert!(!b.has_room(key(0.0)));
    assert!(!b.has_room(key(1.0)));
    b.narrow(key(0.5), true);
    assert_eq!((b.lo(), b.hi()), (key(0.0), key(0.5)));
    b.narrow(key(0.25), false);
    assert_eq!((b.lo(), b.hi()), (key(0.25), key(0.5)));
}
