//! Boundaries a state decides, located inside the step that crosses them:
//! which events count a step as a crossing, which are reported and in what
//! order, and what each event remembers between steps.
//!
//! A root event is the zero of a signed, continuous value of the state. The
//! search for the crossing time (a bisection over re-stepped states) is the
//! caller's; the set here decides, from the signs and magnitudes of the
//! event values the caller reads, which events cross over a step, reports
//! them in order of priority and then of registration, and keeps the guards
//! that stop a root from being found again while the state sits on it.
//!
//! Detection needs a change of sign: landing exactly on zero counts, from
//! whichever side; leaving zero does not.
use vstd::prelude::*;

use crate::reading::{FloatClass, FloatValue};

verus! {

/// The value is below zero (`x < 0.0`).
pub open spec fn below_zero(c: FloatClass) -> bool {
    c is NegInfinity || c is Negative
}

/// The value is at least zero (`x >= 0.0`).
pub open spec fn at_or_above_zero(c: FloatClass) -> bool {
    c is Zero || c is Positive || c is PosInfinity
}

/// The value is above zero (`x > 0.0`).
pub open spec fn above_zero(c: FloatClass) -> bool {
    c is Positive || c is PosInfinity
}

/// The value is at most zero (`x <= 0.0`).
pub open spec fn at_or_below_zero(c: FloatClass) -> bool {
    c is NegInfinity || c is Negative || c is Zero
}

/// Which way across zero counts as reaching the boundary.
#[derive(Debug, Clone, Copy, PartialEq, Eq, Structural)]
pub enum Crossing {
    /// From negative to positive.
    Rising,
    /// From positive to negative.
    Falling,
    /// Either direction.
    Either,
}

impl Crossing {
    /// Whether a move from `before` to `after` is the crossing this counts.
    pub open spec fn counts(self, before: FloatClass, after: FloatClass) -> bool {
        let rising = below_zero(before) && at_or_above_zero(after);
        let falling = above_zero(before) && at_or_below_zero(after);
        match self {
            Crossing::Rising => rising,
            Crossing::Falling => falling,
            Crossing::Either => rising || falling,
        }
    }

    /// Whether a move from a value of class `before` to one of class `after`
    /// is the crossing this counts. Landing exactly on zero counts, from
    /// whichever side; leaving zero does not.
    pub fn matches(self, before: FloatClass, after: FloatClass) -> (r: bool)
        ensures
            r == self.counts(before, after),
    {
        let rising = (before == FloatClass::NegInfinity || before == FloatClass::Negative) && (after
            == FloatClass::Zero || after == FloatClass::Positive || after == FloatClass::PosInfinity);
        let falling = (before == FloatClass::Positive || before == FloatClass::PosInfinity) && (after
            == FloatClass::NegInfinity || after == FloatClass::Negative || after == FloatClass::Zero);
        match self {
            Crossing::Rising => rising,
            Crossing::Falling => falling,
            Crossing::Either => rising || falling,
        }
    }
}

/// Whether two values are on the same side of zero. Zero is on no side, so
/// it matches only zero.
pub open spec fn same_side(a: FloatClass, b: FloatClass) -> bool {
    if a is Zero || b is Zero {
        a is Zero && b is Zero
    } else {
        above_zero(a) == above_zero(b)
    }
}

/// Whether two values are on the same side of zero.
pub fn on_same_side(a: FloatClass, b: FloatClass) -> (r: bool)
    ensures
        r == same_side(a, b),
{
    if a == FloatClass::Zero || b == FloatClass::Zero {
        a == FloatClass::Zero && b == FloatClass::Zero
    } else {
        (a == FloatClass::Positive || a == FloatClass::PosInfinity) == (b == FloatClass::Positive
            || b == FloatClass::PosInfinity)
    }
}

/// What the set knows of one event: how it counts a crossing, whether it
/// ends the walk, its priority, and the width of `|value|` within which the
/// state still counts as being on its boundary.
#[derive(Debug, Clone, Copy, PartialEq, Eq, Structural)]
pub struct EventTraits {
    pub crossing: Crossing,
    pub terminal: bool,
    pub priority: i32,
    /// The boundary tolerance, read as a number.
    pub boundary: FloatValue,
}

/// An event's value at a state: where it lies, and the order key of its
/// magnitude (in the same key order as [`EventTraits::boundary`]).
#[derive(Debug, Clone, Copy, PartialEq, Eq, Structural)]
pub struct Sample {
    pub class: FloatClass,
    pub magnitude: u64,
}

/// What one event knows between steps, and across resumptions.
#[derive(Debug, Clone, Copy, PartialEq, Eq, Structural)]
pub struct RootGuard {
    /// The time (order key) of the root this event last reported, while the
    /// walk is still standing on it.
    at: Option<u64>,
    /// Where the value was at that root.
    left: FloatClass,
    /// Set while the committed state is one a root of this event left
    /// behind, and cleared once the value leaves the boundary tolerance.
    on_boundary: bool,
}

/// What a guard holds.
pub struct GuardModel {
    pub at: Option<u64>,
    pub left: FloatClass,
    pub on_boundary: bool,
}

impl View for RootGuard {
    type V = GuardModel;

    closed spec fn view(&self) -> GuardModel {
        GuardModel { at: self.at, left: self.left, on_boundary: self.on_boundary }
    }
}

impl RootGuard {
    /// A guard for an event no root has fired on yet.
    pub fn new() -> (g: Self)
        ensures
            g@ == (GuardModel { at: None, left: FloatClass::Zero, on_boundary: false }),
    {
        RootGuard { at: None, left: FloatClass::Zero, on_boundary: false }
    }

    /// The time of the root this event last reported, if the walk is still
    /// standing on it.
    pub fn at(&self) -> (t: Option<u64>)
        ensures
            t == self@.at,
    {
        self.at
    }

    /// Whether this event is suppressed because the state is on its boundary.
    pub fn is_on_boundary(&self) -> (b: bool)
        ensures
            b == self@.on_boundary,
    {
        self.on_boundary
    }
}

impl Default for RootGuard {
    /// The guard of [`RootGuard::new`].
    fn default() -> (g: Self)
        ensures
            g@ == (GuardModel { at: None, left: FloatClass::Zero, on_boundary: false }),
    {
        RootGuard::new()
    }
}

/// One event's crossing, located.
#[derive(Debug, Clone, Copy, PartialEq, Eq, Structural)]
pub struct RootHit {
    /// Index of the event in the set, which is the order it was registered in.
    pub event: usize,
    /// Whether this event asked to end the walk.
    pub terminal: bool,
    /// The event's priority, as it reported it.
    pub priority: i32,
}

/// Why a set could not be built or a value could not be used.
#[derive(Debug, Clone, Copy, PartialEq, Eq, Structural)]
pub enum RootError {
    /// The bracket width is not finite and positive, or no iteration is
    /// allowed.
    InvalidRootSearch { max_iterations: u32 },
    /// An event's boundary tolerance is negative or not finite.
    InvalidBoundaryTolerance { event: usize },
    /// An event's value is not finite.
    NonFiniteRootValue { event: usize },
    /// The bisection used up its iterations with the bracket still wider
    /// than the tolerance.
    RootNotLocalized,
}

/// What a set holds: the events, their guards, the values at the committed
/// state, the candidates of the step being examined, and the hits.
pub struct RootSetModel {
    pub events: Seq<EventTraits>,
    pub guards: Seq<GuardModel>,
    /// Values at the state the stepper has committed.
    pub values: Seq<Sample>,
    /// Events that crossed over the step being examined.
    pub candidates: Seq<bool>,
    pub hits: Seq<RootHit>,
}

/// The root events of a walk, with the state each one carries between steps.
pub struct RootSet {
    events: Vec<EventTraits>,
    guards: Vec<RootGuard>,
    values: Vec<Sample>,
    candidates: Vec<bool>,
    hits: Vec<RootHit>,
}

impl View for RootSet {
    type V = RootSetModel;

    closed spec fn view(&self) -> RootSetModel {
        RootSetModel {
            events: self.events@,
            guards: self.guards@.map_values(|g: RootGuard| g@),
            values: self.values@,
            candidates: self.candidates@,
            hits: self.hits@,
        }
    }
}

/// One entry per event everywhere.
pub open spec fn set_wf(m: RootSetModel) -> bool {
    &&& m.guards.len() == m.events.len()
    &&& m.values.len() == m.events.len()
    &&& m.candidates.len() == m.events.len()
    &&& forall|k: int| 0 <= k < m.hits.len() ==> (#[trigger] m.hits[k].event as int) < m.events.len()
}

/// Whether a value is far enough from zero for the event's guard to re-arm.
pub open spec fn off_boundary(e: EventTraits, v: Sample) -> bool {
    v.magnitude > e.boundary.key
}

/// Whether event `i` counts a move from `before` to `after` over a step
/// starting at `t_start`, with its guard taken into account: not on a step
/// that leaves a root of this very event with the value still on the side
/// that root left it, nor while the state moves along its boundary within
/// the tolerance.
pub open spec fn crossed(m: RootSetModel, i: int, t_start: u64, before: Sample, after: Sample) -> bool {
    let g = m.guards[i];
    if g.at == Some(t_start) && same_side(before.class, g.left) {
        false
    } else if g.on_boundary && !off_boundary(m.events[i], before) {
        false
    } else {
        m.events[i].crossing.counts(before.class, after.class)
    }
}

/// The first event whose value is not finite.
pub open spec fn first_non_finite(values: Seq<Sample>) -> Option<nat> {
    if exists|i: int| 0 <= i < values.len() && !values[i].class.finite() {
        Some(
            (choose|i: int|
                0 <= i < values.len() && !values[i].class.finite() && forall|j: int|
                    0 <= j < i ==> values[j].class.finite()) as nat,
        )
    } else {
        None
    }
}

/// The guards at the start of a walk from time `t` with values `values`:
/// a guard whose root time is not `t` forgets it, and one whose value has
/// left the boundary tolerance re-arms.
pub open spec fn begun_guards(m: RootSetModel, t: u64, values: Seq<Sample>) -> Seq<GuardModel> {
    Seq::new(
        m.events.len(),
        |i: int|
            GuardModel {
                at: if m.guards[i].at == Some(t) {
                    Some(t)
                } else {
                    None
                },
                left: m.guards[i].left,
                on_boundary: m.guards[i].on_boundary && !off_boundary(m.events[i], values[i]),
            },
    )
}

/// The events that cross over a step landing on `after`, in registration
/// order.
pub open spec fn crossing_events(m: RootSetModel, t_start: u64, after: Seq<Sample>) -> Seq<RootHit> {
    crossing_upto(m, t_start, after, m.events.len() as int)
}

/// The hits of the events below `n` that cross, in registration order.
pub open spec fn crossing_upto(m: RootSetModel, t_start: u64, after: Seq<Sample>, n: int) -> Seq<
    RootHit,
>
    decreases n,
{
    if n <= 0 {
        seq![]
    } else {
        let rest = crossing_upto(m, t_start, after, n - 1);
        let i = n - 1;
        if m.candidates[i] && crossed(m, i, t_start, m.values[i], after[i]) {
            rest.push(
                RootHit {
                    event: i as usize,
                    terminal: m.events[i].terminal,
                    priority: m.events[i].priority,
                },
            )
        } else {
            rest
        }
    }
}

/// `a` comes before `b`: lower priority first, then lower index.
pub open spec fn hit_before(a: RootHit, b: RootHit) -> bool {
    a.priority < b.priority || (a.priority == b.priority && a.event < b.event)
}

/// `h` is in order of priority, then of registration, with no event twice.
pub open spec fn in_report_order(h: Seq<RootHit>) -> bool {
    forall|i: int, j: int| 0 <= i < j < h.len() ==> hit_before(h[i], h[j])
}

/// The guards after committing a state at `t` with values `values`: the
/// events that just fired are on their boundary at `t`, and the rest have
/// moved on.
pub open spec fn applied_guards(m: RootSetModel, t: u64, values: Seq<Sample>) -> Seq<GuardModel> {
    Seq::new(
        m.events.len(),
        |i: int|
            if exists|k: int| 0 <= k < m.hits.len() && m.hits[k].event == i {
                GuardModel { at: Some(t), left: values[i].class, on_boundary: true }
            } else {
                GuardModel {
                    at: None,
                    left: m.guards[i].left,
                    on_boundary: m.guards[i].on_boundary && !off_boundary(m.events[i], values[i]),
                }
            },
    )
}

/// The first event whose boundary tolerance is negative or not finite.
pub open spec fn first_bad_tolerance(events: Seq<EventTraits>) -> Option<nat> {
    if exists|i: int|
        0 <= i < events.len() && !(events[i].boundary.class is Zero
            || events[i].boundary.class is Positive) {
        Some(
            (choose|i: int|
                0 <= i < events.len() && !(events[i].boundary.class is Zero
                    || events[i].boundary.class is Positive) && forall|j: int|
                    0 <= j < i ==> (events[j].boundary.class is Zero
                        || events[j].boundary.class is Positive)) as nat,
        )
    } else {
        None
    }
}

impl RootSet {
    pub open spec fn wf(&self) -> bool {
        set_wf(self@)
    }

    /// Pairs events with fresh guards. The search must have a finite,
    /// positive bracket width and at least one iteration; every boundary
    /// tolerance must be finite and not negative.
    pub fn new(events: Vec<EventTraits>, t_tolerance: FloatClass, max_iterations: u32) -> (r: Result<
        RootSet,
        RootError,
    >)
        ensures
            !(t_tolerance is Positive && max_iterations > 0) ==> r == Err::<RootSet, RootError>(
                RootError::InvalidRootSearch { max_iterations },
            ),
            (t_tolerance is Positive && max_iterations > 0) ==> match first_bad_tolerance(
                events@,
            ) {
                Some(i) => r == Err::<RootSet, RootError>(
                    RootError::InvalidBoundaryTolerance { event: i as usize },
                ),
                None => r is Ok,
            },
            r matches Ok(s) ==> s.wf() && s@.events == events@ && s@.hits.len() == 0 && forall|
                i: int,
            |
                0 <= i < events@.len() ==> #[trigger] s@.guards[i] == (GuardModel {
                    at: None,
                    left: FloatClass::Zero,
                    on_boundary: false,
                }) && !s@.candidates[i] && s@.values[i] == (Sample {
                    class: FloatClass::Zero,
                    magnitude: 0,
                }),
    {
        if !(t_tolerance == FloatClass::Positive && max_iterations > 0) {
            return Err(RootError::InvalidRootSearch { max_iterations });
        }
        let n = events.len();
        let mut i: usize = 0;
        while i < n
            invariant
                i <= n == events@.len(),
                t_tolerance is Positive && max_iterations > 0,
                forall|j: int|
                    0 <= j < i ==> (events@[j].boundary.class is Zero
                        || events@[j].boundary.class is Positive),
            decreases n - i,
        {
            let c = events[i].boundary.class;
            if !(c == FloatClass::Zero || c == FloatClass::Positive) {
                proof {
                    let k = choose|k: int|
                        0 <= k < events@.len() && !(events@[k].boundary.class is Zero
                            || events@[k].boundary.class is Positive) && forall|j: int|
                            0 <= j < k ==> (events@[j].boundary.class is Zero
                                || events@[j].boundary.class is Positive);
                    if k < i {
                    } else if k > i {
                        assert(events@[i as int].boundary.class is Zero
                            || events@[i as int].boundary.class is Positive);
                    }
                }
                return Err(RootError::InvalidBoundaryTolerance { event: i });
            }
            i = i + 1;
        }
        let mut guards: Vec<RootGuard> = Vec::new();
        let mut values: Vec<Sample> = Vec::new();
        let mut candidates: Vec<bool> = Vec::new();
        let mut k: usize = 0;
        while k < n
            invariant
                k <= n == events@.len(),
                guards@.len() == k,
                values@.len() == k,
                candidates@.len() == k,
                forall|j: int|
                    0 <= j < k ==> #[trigger] guards@[j]@ == (GuardModel {
                        at: None,
                        left: FloatClass::Zero,
                        on_boundary: false,
                    }) && !candidates@[j] && values@[j] == (Sample {
                        class: FloatClass::Zero,
                        magnitude: 0,
                    }),
            decreases n - k,
        {
            guards.push(RootGuard::new());
            values.push(Sample { class: FloatClass::Zero, magnitude: 0 });
            candidates.push(false);
            k = k + 1;
        }
        Ok(RootSet { events, guards, values, candidates, hits: Vec::new() })
    }

    /// The events that crossed within the bracket the last walk ended on,
    /// in the order they should be handled: by priority, then by
    /// registration. Empty after a walk that reached its target.
    pub fn hits(&self) -> (h: &[RootHit])
        ensures
            h@ == self@.hits,
    {
        self.hits.as_slice()
    }

    /// One event's guard.
    pub fn guard(&self, event: usize) -> (g: RootGuard)
        requires
            self.wf(),
            event < self@.events.len(),
        ensures
            g@ == self@.guards[event as int],
    {
        self.guards[event]
    }

    /// How many events are in the set.
    pub fn len(&self) -> (n: usize)
        ensures
            n == self@.events.len(),
    {
        self.events.len()
    }

    /// Whether the set has no events, in which case a walk over it is the
    /// plain one.
    pub fn is_empty(&self) -> (b: bool)
        ensures
            b == (self@.events.len() == 0),
    {
        self.events.len() == 0
    }
}

/// `h` holds the hits of `c`, each as often as `c` does, in any order.
pub open spec fn same_hits(h: Seq<RootHit>, c: Seq<RootHit>) -> bool {
    h.to_multiset() == c.to_multiset()
}

proof fn lemma_insert_in_order(before: Seq<RootHit>, p: int, hit: RootHit)
    requires
        0 <= p <= before.len(),
        in_report_order(before),
        forall|k: int| 0 <= k < before.len() ==> (#[trigger] before[k]).event < hit.event,
        forall|k: int| 0 <= k < p ==> (#[trigger] before[k]).priority <= hit.priority,
        p < before.len() ==> before[p].priority > hit.priority,
    ensures
        in_report_order(before.insert(p, hit)),
{
    let out = before.insert(p, hit);
    assert forall|a: int, b: int| 0 <= a < b < out.len() implies hit_before(out[a], out[b]) by {
        if a < p && b < p {
            assert(hit_before(before[a], before[b]));
        } else if a < p && b == p {
            assert(before[a].event < hit.event);
        } else if a < p && b > p {
            assert(hit_before(before[a], before[b - 1]));
        } else if a == p {
            assert(before[b - 1].priority > hit.priority) by {
                if b - 1 > p {
                    assert(hit_before(before[p], before[b - 1]));
                }
            }
        } else {
            assert(hit_before(before[a - 1], before[b - 1]));
        }
    }
}

proof fn lemma_insert_same_hits(before: Seq<RootHit>, c: Seq<RootHit>, p: int, hit: RootHit)
    requires
        0 <= p <= before.len(),
        same_hits(before, c),
    ensures
        same_hits(before.insert(p, hit), c.push(hit)),
{
    vstd::seq_lib::to_multiset_insert(before, p, hit);
    vstd::seq_lib::to_multiset_build(c, hit);
}

impl RootSet {
    fn crossed_at(&self, i: usize, t_start: u64, before: Sample, after: Sample) -> (r: bool)
        requires
            self.wf(),
            i < self@.events.len(),
        ensures
            r == crossed(self@, i as int, t_start, before, after),
    {
        let g = self.guards[i];
        assert(self@.guards[i as int] == g@);
        if g.at == Some(t_start) && on_same_side(before.class, g.left) {
            return false;
        }
        let e = self.events[i];
        if g.on_boundary && !(before.magnitude > e.boundary.key) {
            return false;
        }
        e.crossing.matches(before.class, after.class)
    }

    /// Reads the values at the state a walk starts from at time `t`, and
    /// re-arms the guard of every event whose value has left its boundary.
    /// A value that is not finite stops the walk and changes nothing.
    pub fn begin(&mut self, t: u64, values: Vec<Sample>) -> (r: Result<(), RootError>)
        requires
            old(self).wf(),
            values@.len() == old(self)@.events.len(),
        ensures
            final(self).wf(),
            match first_non_finite(values@) {
                Some(i) => r == Err::<(), RootError>(
                    RootError::NonFiniteRootValue { event: i as usize },
                ) && final(self)@ == old(self)@,
                None => r is Ok && final(self)@ == (RootSetModel {
                    values: values@,
                    hits: seq![],
                    guards: begun_guards(old(self)@, t, values@),
                    ..old(self)@
                }),
            },
    {
        match check_finite(&values) {
            Some(i) => {
                return Err(RootError::NonFiniteRootValue { event: i });
            },
            None => {},
        }
        let ghost m = self@;
        let n = self.events.len();
        let mut i: usize = 0;
        while i < n
            invariant
                i <= n == m.events.len(),
                self.events@ == m.events,
                self.guards@.len() == n,
                values@.len() == n,
                set_wf(m),
                m == old(self)@,
                self.values@ == m.values,
                self.candidates@ == m.candidates,
                self.hits@ == m.hits,
                forall|k: int|
                    0 <= k < i ==> #[trigger] self.guards@[k]@ == begun_guards(m, t, values@)[k],
                forall|k: int| i <= k < n ==> #[trigger] self.guards@[k]@ == m.guards[k],
            decreases n - i,
        {
            let g = self.guards[i];
            let e = self.events[i];
            let at = if g.at == Some(t) {
                Some(t)
            } else {
                None
            };
            let on = g.on_boundary && !(values[i].magnitude > e.boundary.key);
            let ghost before = self.guards@;
            self.guards.set(i, RootGuard { at, left: g.left, on_boundary: on });
            proof {
                assert(g@ == m.guards[i as int]);
                assert(self.guards@[i as int]@.at == begun_guards(m, t, values@)[i as int].at);
                assert(self.guards@[i as int]@.left == begun_guards(m, t, values@)[i as int].left);
                assert(self.guards@[i as int]@.on_boundary == begun_guards(m, t, values@)[i as int].on_boundary);
                assert forall|k: int| 0 <= k < i + 1 implies #[trigger] self.guards@[k]@ == begun_guards(m, t, values@)[k] by {
                    if k < i {
                        assert(self.guards@[k] == before[k]);
                    }
                }
            }
            i = i + 1;
        }
        self.values = values;
        self.hits = Vec::new();
        proof {
            assert(self@.guards =~= begun_guards(m, t, self.values@));
        }
        Ok(())
    }

    /// Marks the events that cross over a step starting at `t_start` and
    /// landing on `after`, and reports whether any does.
    pub fn mark_candidates(&mut self, t_start: u64, after: &Vec<Sample>) -> (r: bool)
        requires
            old(self).wf(),
            after@.len() == old(self)@.events.len(),
        ensures
            final(self).wf(),
            final(self)@ == (RootSetModel {
                candidates: Seq::new(
                    old(self)@.events.len(),
                    |i: int| crossed(old(self)@, i, t_start, old(self)@.values[i], after@[i]),
                ),
                ..old(self)@
            }),
            r == exists|i: int|
                0 <= i < old(self)@.events.len() && crossed(
                    old(self)@,
                    i,
                    t_start,
                    old(self)@.values[i],
                    after@[i],
                ),
    {
        let ghost m = self@;
        let n = self.events.len();
        let mut any = false;
        let mut i: usize = 0;
        while i < n
            invariant
                i <= n == m.events.len(),
                self.events@ == m.events,
                self.guards@ == old(self).guards@,
                self.values@ == m.values,
                self.hits@ == m.hits,
                self.candidates@.len() == n,
                after@.len() == n,
                set_wf(m),
                m == old(self)@,
                forall|k: int|
                    0 <= k < i ==> #[trigger] self.candidates@[k] == crossed(
                        m,
                        k,
                        t_start,
                        m.values[k],
                        after@[k],
                    ),
                any == exists|k: int| 0 <= k < i && crossed(m, k, t_start, m.values[k], after@[k]),
            decreases n - i,
        {
            let c = self.crossed_at_model(i, t_start, self.values[i], after[i]);
            self.candidates.set(i, c);
            any = any || c;
            i = i + 1;
        }
        proof {
            assert(self@.candidates =~= Seq::new(
                n as nat,
                |i: int| crossed(m, i, t_start, m.values[i], after@[i]),
            ));
        }
        any
    }

    fn crossed_at_model(&self, i: usize, t_start: u64, before: Sample, after: Sample) -> (r: bool)
        requires
            self.wf(),
            i < self@.events.len(),
        ensures
            r == crossed(self@, i as int, t_start, before, after),
    {
        self.crossed_at(i, t_start, before, after)
    }

    /// Whether any of the events marked as candidates crosses over a shorter
    /// step landing on `values`.
    pub fn any_candidate_crosses(&self, t_start: u64, values: &Vec<Sample>) -> (r: bool)
        requires
            self.wf(),
            values@.len() == self@.events.len(),
        ensures
            r == exists|i: int|
                0 <= i < self@.events.len() && self@.candidates[i] && crossed(
                    self@,
                    i,
                    t_start,
                    self@.values[i],
                    values@[i],
                ),
    {
        let n = self.events.len();
        let mut i: usize = 0;
        while i < n
            invariant
                i <= n == self@.events.len(),
                self.wf(),
                values@.len() == n,
                forall|k: int|
                    0 <= k < i ==> !(self@.candidates[k] && crossed(
                        self@,
                        k,
                        t_start,
                        self@.values[k],
                        values@[k],
                    )),
            decreases n - i,
        {
            if self.candidates[i] && self.crossed_at(i, t_start, self.values[i], values[i]) {
                return true;
            }
            i = i + 1;
        }
        false
    }

    /// Records the events that cross over the located step, ordered by
    /// priority and then by registration, and reports whether any of them
    /// is terminal.
    pub fn record_hits(&mut self, t_start: u64, after: &Vec<Sample>) -> (r: bool)
        requires
            old(self).wf(),
            after@.len() == old(self)@.events.len(),
        ensures
            final(self).wf(),
            final(self)@ == (RootSetModel { hits: final(self)@.hits, ..old(self)@ }),
            in_report_order(final(self)@.hits),
            same_hits(final(self)@.hits, crossing_events(old(self)@, t_start, after@)),
            r == exists|k: int| 0 <= k < final(self)@.hits.len() && final(self)@.hits[k].terminal,
    {
        let ghost m = self@;
        let n = self.events.len();
        let mut out: Vec<RootHit> = Vec::new();
        let mut i: usize = 0;
        while i < n
            invariant
                i <= n == m.events.len(),
                self@ == m,
                set_wf(m),
                after@.len() == n,
                in_report_order(out@),
                same_hits(out@, crossing_upto(m, t_start, after@, i as int)),
                forall|k: int| 0 <= k < out@.len() ==> (#[trigger] out@[k].event as int) < i,
            decreases n - i,
        {
            let ghost before = out@;
            if self.candidates[i] && self.crossed_at(i, t_start, self.values[i], after[i]) {
                let e = self.events[i];
                let hit = RootHit { event: i, terminal: e.terminal, priority: e.priority };
                let mut p: usize = 0;
                while p < out.len() && out[p].priority <= hit.priority
                    invariant
                        p <= out@.len(),
                        out@ == before,
                        forall|k: int| 0 <= k < p ==> (#[trigger] out@[k]).priority <= hit.priority,
                    decreases out@.len() - p,
                {
                    p = p + 1;
                }
                out.insert(p, hit);
                proof {
                    let c = crossing_upto(m, t_start, after@, i as int);
                    assert(crossing_upto(m, t_start, after@, i + 1) == c.push(hit));
                    lemma_insert_in_order(before, p as int, hit);
                    lemma_insert_same_hits(before, c, p as int, hit);
                }
            } else {
                proof {
                    assert(crossing_upto(m, t_start, after@, i + 1) == crossing_upto(
                        m,
                        t_start,
                        after@,
                        i as int,
                    ));
                }
            }
            i = i + 1;
        }
        self.hits = out;
        let mut terminal = false;
        let mut k: usize = 0;
        while k < self.hits.len()
            invariant
                k <= self.hits@.len(),
                terminal == exists|j: int| 0 <= j < k && self.hits@[j].terminal,
            decreases self.hits@.len() - k,
        {
            terminal = terminal || self.hits[k].terminal;
            k = k + 1;
        }
        terminal
    }

    /// Drops the recorded hits when the values at the state about to be
    /// committed are not all finite, so that [`hits`](Self::hits) describes
    /// only a root the walk committed.
    pub fn check(&mut self, values: &Vec<Sample>) -> (r: Result<(), RootError>)
        requires
            old(self).wf(),
        ensures
            final(self).wf(),
            match first_non_finite(values@) {
                Some(i) => r == Err::<(), RootError>(
                    RootError::NonFiniteRootValue { event: i as usize },
                ) && final(self)@ == (RootSetModel { hits: seq![], ..old(self)@ }),
                None => r is Ok && final(self)@ == old(self)@,
            },
    {
        match check_finite(values) {
            Some(i) => {
                self.hits = Vec::new();
                Err(RootError::NonFiniteRootValue { event: i })
            },
            None => Ok(()),
        }
    }

    /// Drops the recorded hits, for a stepper that refuses the state they
    /// belong to.
    pub fn discard_hits(&mut self)
        ensures
            final(self)@ == (RootSetModel { hits: seq![], ..old(self)@ }),
    {
        self.hits = Vec::new();
    }

    /// Records where the walk now is, at time `t` with values `values`: the
    /// events that just fired are on their boundary at `t`, and the rest
    /// have moved on.
    pub fn apply(&mut self, t: u64, values: Vec<Sample>)
        requires
            old(self).wf(),
            values@.len() == old(self)@.events.len(),
        ensures
            final(self).wf(),
            final(self)@ == (RootSetModel {
                values: values@,
                guards: applied_guards(old(self)@, t, values@),
                ..old(self)@
            }),
    {
        let ghost m = self@;
        let n = self.events.len();
        let mut fired: Vec<bool> = Vec::new();
        let mut k: usize = 0;
        while k < n
            invariant
                k <= n,
                fired@ == Seq::new(k as nat, |j: int| false),
            decreases n - k,
        {
            fired.push(false);
            proof {
                assert(fired@ =~= Seq::new((k + 1) as nat, |j: int| false));
            }
            k = k + 1;
        }
        let mut h: usize = 0;
        while h < self.hits.len()
            invariant
                self@ == m,
                h <= m.hits.len(),
                fired@.len() == n == m.events.len(),
                forall|j: int|
                    0 <= j < m.hits.len() ==> (#[trigger] m.hits[j].event as int) < n,
                forall|i: int|
                    0 <= i < n ==> (#[trigger] fired@[i] <==> exists|j: int|
                        0 <= j < h && m.hits[j].event == i),
            decreases m.hits.len() - h,
        {
            let e = self.hits[h].event;
            fired.set(e, true);
            proof {
                assert forall|i: int| 0 <= i < n implies (#[trigger] fired@[i] <==> exists|j: int|
                    0 <= j < h + 1 && m.hits[j].event == i) by {
                    if i == e as int {
                        assert(m.hits[h as int].event == i);
                    }
                }
            }
            h = h + 1;
        }
        let mut i: usize = 0;
        while i < n
            invariant
                i <= n == m.events.len(),
                self.events@ == m.events,
                self.hits@ == m.hits,
                self.values@ == m.values,
                self.candidates@ == m.candidates,
                self.guards@.len() == n,
                values@.len() == n,
                fired@.len() == n,
                set_wf(m),
                forall|j: int|
                    0 <= j < n ==> (#[trigger] fired@[j] <==> exists|q: int|
                        0 <= q < m.hits.len() && m.hits[q].event == j),
                forall|j: int|
                    0 <= j < i ==> #[trigger] self.guards@[j]@ == applied_guards(m, t, values@)[j],
                forall|j: int| i <= j < n ==> #[trigger] self.guards@[j]@ == m.guards[j],
            decreases n - i,
        {
            let g = self.guards[i];
            let ghost before = self.guards@;
            if fired[i] {
                self.guards.set(i, RootGuard { at: Some(t), left: values[i].class, on_boundary: true });
            } else {
                let e = self.events[i];
                let on = g.on_boundary && !(values[i].magnitude > e.boundary.key);
                self.guards.set(i, RootGuard { at: None, left: g.left, on_boundary: on });
            }
            proof {
                assert(g@ == m.guards[i as int]);
                assert(self.guards@[i as int]@ == applied_guards(m, t, values@)[i as int]);
                assert forall|k: int| 0 <= k < i + 1 implies #[trigger] self.guards@[k]@
                    == applied_guards(m, t, values@)[k] by {
                    if k < i {
                        assert(self.guards@[k] == before[k]);
                    }
                }
            }
            i = i + 1;
        }
        self.values = values;
        proof {
            assert(self@.guards =~= applied_guards(m, t, self.values@));
        }
    }
}

/// The first event whose value is not finite, if any: a value that is not
/// finite stops the walk rather than being bisected on, since its sign says
/// nothing about where a crossing is.
pub fn check_finite(values: &Vec<Sample>) -> (r: Option<usize>)
    ensures
        match r {
            Some(i) => first_non_finite(values@) == Some(i as nat),
            None => first_non_finite(values@) == None::<nat>,
        },
{
    let mut i: usize = 0;
    while i < values.len()
        invariant
            i <= values@.len(),
            forall|j: int| 0 <= j < i ==> values@[j].class.finite(),
        decreases values@.len() - i,
    {
        if !values[i].class.is_finite() {
            proof {
                let k = choose|k: int|
                    0 <= k < values@.len() && !values@[k].class.finite() && forall|j: int|
                        0 <= j < k ==> values@[j].class.finite();
                if k > i {
                    assert(values@[i as int].class.finite());
                }
            }
            return Some(i);
        }
        i = i + 1;
    }
    None
}


/// The ends of a bisection bracket, as order keys of step widths: the step
/// of width `hi` has a candidate crossing over it, the step of width `lo`
/// has none.
pub struct Bracket {
    lo: u64,
    hi: u64,
}

/// The bracket `(lo, hi)` narrowed at `mid`: to the lower half where the
/// step of width `mid` crosses, else to the upper half.
pub open spec fn narrowed(lo: u64, hi: u64, mid: u64, crosses: bool) -> (u64, u64) {
    if crosses {
        (lo, mid)
    } else {
        (mid, hi)
    }
}

impl Bracket {
    pub closed spec fn lo_key(&self) -> u64 {
        self.lo
    }

    pub closed spec fn hi_key(&self) -> u64 {
        self.hi
    }

    /// The bracket from the step of width `lo` to the step of width `hi`.
    pub fn new(lo: u64, hi: u64) -> (b: Self)
        ensures
            b.lo_key() == lo,
            b.hi_key() == hi,
    {
        Bracket { lo, hi }
    }

    /// The width (order key) at which no candidate crosses.
    pub fn lo(&self) -> (k: u64)
        ensures
            k == self.lo_key(),
    {
        self.lo
    }

    /// The width (order key) at which a candidate crosses.
    pub fn hi(&self) -> (k: u64)
        ensures
            k == self.hi_key(),
    {
        self.hi
    }

    /// Whether `mid` lies strictly inside the bracket, which is when the
    /// bracket can still be halved there.
    pub fn has_room(&self, mid: u64) -> (r: bool)
        ensures
            r == (self.lo_key() < mid && mid < self.hi_key()),
    {
        self.lo < mid && mid < self.hi
    }

    /// Narrows the bracket at `mid`, given whether a candidate crosses over
    /// the step of that width.
    pub fn narrow(&mut self, mid: u64, crosses: bool)
        requires
            old(self).lo_key() < mid < old(self).hi_key(),
        ensures
            (final(self).lo_key(), final(self).hi_key()) == narrowed(
                old(self).lo_key(),
                old(self).hi_key(),
                mid,
                crosses,
            ),
    {
        if crosses {
            self.hi = mid;
        } else {
            self.lo = mid;
        }
    }
}

/// Narrowing keeps the crossing inside: where the step of width `hi`
/// crosses and the step of width `lo` does not, so it is after narrowing at
/// any `mid` strictly inside, and the bracket is strictly shorter.
pub proof fn law_narrowing_keeps_the_crossing_inside(
    lo: u64,
    hi: u64,
    mid: u64,
    crosses_at: spec_fn(u64) -> bool,
)
    requires
        lo < mid < hi,
        crosses_at(hi),
        !crosses_at(lo),
    ensures
        ({
            let (l2, h2) = narrowed(lo, hi, mid, crosses_at(mid));
            &&& crosses_at(h2)
            &&& !crosses_at(l2)
            &&& lo <= l2 < h2 <= hi
            &&& h2 - l2 < hi - lo
        }),
{
}

/// How many bisection trials a search may still take.
///
/// The bisection itself runs on the caller's clock; this budget decides, at
/// the head of each round, whether to try another midpoint, to stop, or to
/// give up, so that a value that behaves unlike a continuous function cannot
/// make the search spin.
pub struct SearchBudget {
    max_iterations: u32,
    used: u32,
}

impl SearchBudget {
    pub closed spec fn limit(&self) -> u32 {
        self.max_iterations
    }

    pub closed spec fn spent(&self) -> u32 {
        self.used
    }

    /// A budget for a search that may take `max_iterations` trials.
    pub fn new(max_iterations: u32) -> (b: Self)
        ensures
            b.limit() == max_iterations,
            b.spent() == 0,
    {
        SearchBudget { max_iterations, used: 0 }
    }

    /// Decides one round of the bisection. With the bracket no wider than
    /// the tolerance the search is done (`Ok(false)`); with trials left it
    /// takes one (`Ok(true)`); with none left it fails.
    pub fn next_trial(&mut self, wider_than_tolerance: bool) -> (r: Result<bool, RootError>)
        ensures
            final(self).limit() == old(self).limit(),
            old(self).spent() <= old(self).limit() ==> final(self).spent() <= final(self).limit(),
            !wider_than_tolerance ==> r == Ok::<bool, RootError>(false) && final(self).spent()
                == old(self).spent(),
            wider_than_tolerance && old(self).spent() >= old(self).limit() ==> r == Err::<
                bool,
                RootError,
            >(RootError::RootNotLocalized) && final(self).spent() == old(self).spent(),
            wider_than_tolerance && old(self).spent() < old(self).limit() ==> r == Ok::<
                bool,
                RootError,
            >(true) && final(self).spent() == old(self).spent() + 1,
    {
        if !wider_than_tolerance {
            return Ok(false);
        }
        if self.used >= self.max_iterations {
            return Err(RootError::RootNotLocalized);
        }
        self.used = self.used + 1;
        Ok(true)
    }
}

/// Leaving zero is never a crossing, in either direction.
pub proof fn law_leaving_zero_is_not_a_crossing(c: Crossing, after: FloatClass)
    ensures
        !c.counts(FloatClass::Zero, after),
{
}

/// Landing exactly on zero is a crossing, from whichever side the
/// direction counts.
pub proof fn law_landing_on_zero_is_a_crossing(before: FloatClass)
    ensures
        below_zero(before) ==> Crossing::Rising.counts(before, FloatClass::Zero)
            && Crossing::Either.counts(before, FloatClass::Zero),
        above_zero(before) ==> Crossing::Falling.counts(before, FloatClass::Zero)
            && Crossing::Either.counts(before, FloatClass::Zero),
{
}

/// Either direction counts exactly the moves that rising or falling counts.
pub proof fn law_either_is_rising_or_falling(before: FloatClass, after: FloatClass)
    ensures
        Crossing::Either.counts(before, after) == (Crossing::Rising.counts(before, after)
            || Crossing::Falling.counts(before, after)),
        !(Crossing::Rising.counts(before, after) && Crossing::Falling.counts(before, after)),
{
}

/// The set after committing a state at `t` with values `values`
/// ([`RootSet::apply`]).
pub open spec fn applied(m: RootSetModel, t: u64, values: Seq<Sample>) -> RootSetModel {
    RootSetModel { values, guards: applied_guards(m, t, values), ..m }
}

/// The set after a walk begins at `t` with values `values`
/// ([`RootSet::begin`], with every value finite).
pub open spec fn begun(m: RootSetModel, t: u64, values: Seq<Sample>) -> RootSetModel {
    RootSetModel { values, hits: seq![], guards: begun_guards(m, t, values), ..m }
}

/// A walk resumed at the time of a root, from a state whose value is still
/// on the side that root left it, does not report that event again, wherever
/// the step goes.
pub proof fn law_a_root_is_not_found_again_from_the_state_it_left(
    m: RootSetModel,
    t: u64,
    committed: Seq<Sample>,
    resumed: Seq<Sample>,
    i: int,
    after: Sample,
)
    requires
        set_wf(m),
        committed.len() == m.events.len(),
        resumed.len() == m.events.len(),
        0 <= i < m.events.len(),
        exists|k: int| 0 <= k < m.hits.len() && m.hits[k].event == i,
        same_side(resumed[i].class, committed[i].class),
    ensures
        !crossed(begun(applied(m, t, committed), t, resumed), i, t, resumed[i], after),
{
}

/// A caller that moves the value to the other side of zero and clear of the
/// boundary tolerance has taken the state off the root: from the same time,
/// the step it then takes counts as any other would.
pub proof fn law_a_value_moved_across_zero_crosses_again(
    m: RootSetModel,
    t: u64,
    committed: Seq<Sample>,
    resumed: Seq<Sample>,
    i: int,
    after: Sample,
)
    requires
        set_wf(m),
        committed.len() == m.events.len(),
        resumed.len() == m.events.len(),
        0 <= i < m.events.len(),
        exists|k: int| 0 <= k < m.hits.len() && m.hits[k].event == i,
        !same_side(resumed[i].class, committed[i].class),
        off_boundary(m.events[i], resumed[i]),
    ensures
        crossed(begun(applied(m, t, committed), t, resumed), i, t, resumed[i], after)
            == m.events[i].crossing.counts(resumed[i].class, after.class),
{
}

/// A walk that begins at another time than the root an event last reported
/// no longer stands on it.
pub proof fn law_a_walk_starting_elsewhere_forgets_the_root(
    m: RootSetModel,
    t: u64,
    values: Seq<Sample>,
    i: int,
)
    requires
        set_wf(m),
        values.len() == m.events.len(),
        0 <= i < m.events.len(),
        m.guards[i].at != Some(t),
    ensures
        begun(m, t, values).guards[i].at == None::<u64>,
{
}

/// The hit an event that crossed is reported as.
pub open spec fn hit_of(m: RootSetModel, i: int) -> RootHit {
    RootHit { event: i as usize, terminal: m.events[i].terminal, priority: m.events[i].priority }
}

/// What `crossing_upto` holds: the hit of each candidate below `n` that
/// crossed, and nothing else.
proof fn lemma_crossing_upto_holds(m: RootSetModel, t_start: u64, after: Seq<Sample>, n: int, x: RootHit)
    requires
        0 <= n <= m.events.len(),
        m.events.len() <= usize::MAX,
    ensures
        crossing_upto(m, t_start, after, n).contains(x) <==> exists|i: int|
            0 <= i < n && m.candidates[i] && crossed(m, i, t_start, m.values[i], after[i]) && x
                == hit_of(m, i),
    decreases n,
{
    if n > 0 {
        lemma_crossing_upto_holds(m, t_start, after, n - 1, x);
        let rest = crossing_upto(m, t_start, after, n - 1);
        let i = n - 1;
        if m.candidates[i] && crossed(m, i, t_start, m.values[i], after[i]) {
            assert(crossing_upto(m, t_start, after, n) == rest.push(hit_of(m, i)));
            if x == hit_of(m, i) {
                assert(rest.push(hit_of(m, i))[rest.len() as int] == x);
            }
            if rest.push(hit_of(m, i)).contains(x) && x != hit_of(m, i) {
                let k = choose|k: int| 0 <= k < rest.len() + 1 && rest.push(hit_of(m, i))[k] == x;
                assert(rest[k] == x);
            }
            if rest.contains(x) {
                let k = choose|k: int| 0 <= k < rest.len() && rest[k] == x;
                assert(rest.push(hit_of(m, i))[k] == x);
            }
        } else {
            assert forall|j: int|
                0 <= j < n && m.candidates[j] && crossed(m, j, t_start, m.values[j], after[j]) && x
                    == hit_of(m, j) implies j < n - 1 by {}
        }
    }
}

/// The hits a located step records are exactly the events that cross over
/// it among those marked as candidates, each reported with its own
/// terminal flag and priority.
pub proof fn law_hits_are_the_events_that_crossed(
    m: RootSetModel,
    t_start: u64,
    after: Seq<Sample>,
    hits: Seq<RootHit>,
    i: int,
)
    requires
        set_wf(m),
        m.events.len() <= usize::MAX,
        after.len() == m.events.len(),
        same_hits(hits, crossing_events(m, t_start, after)),
        0 <= i < m.events.len(),
    ensures
        hits.contains(hit_of(m, i)) <==> m.candidates[i] && crossed(
            m,
            i,
            t_start,
            m.values[i],
            after[i],
        ),
        forall|k: int|
            0 <= k < hits.len() ==> 0 <= #[trigger] hits[k].event < m.events.len() && hits[k]
                == hit_of(m, hits[k].event as int),
{
    broadcast use vstd::seq_lib::group_to_multiset_ensures;

    let c = crossing_events(m, t_start, after);
    let n = m.events.len() as int;
    lemma_crossing_upto_holds(m, t_start, after, n, hit_of(m, i));
    assert(hits.contains(hit_of(m, i)) <==> hits.to_multiset().count(hit_of(m, i)) > 0);
    assert(c.contains(hit_of(m, i)) <==> c.to_multiset().count(hit_of(m, i)) > 0);
    if hits.contains(hit_of(m, i)) {
        let j = choose|j: int|
            0 <= j < n && m.candidates[j] && crossed(m, j, t_start, m.values[j], after[j])
                && hit_of(m, i) == hit_of(m, j);
        assert(j == i);
    }
    assert forall|k: int|
        0 <= k < hits.len() implies 0 <= #[trigger] hits[k].event < m.events.len() && hits[k]
        == hit_of(m, hits[k].event as int) by {
        let x = hits[k];
        assert(hits.contains(x));
        assert(hits.to_multiset().count(x) > 0);
        assert(c.contains(x));
        lemma_crossing_upto_holds(m, t_start, after, n, x);
    }
}

} // verus!
