use vstd::prelude::*;

use crate::filter::{
    all_valid, glob_matches, glob_valid, passes, record_passes, set_builds, target_passes, texts,
    FilterError, State, TargetFilter, TargetMatcher,
};
use crate::history::{history_push, History, MAX_HISTORY_CAPACITY};
use crate::level::LevelFilter;
use crate::notification::{ClosedSpan, CollectedEvent, CollectedTracings, EnterSpan, ExitSpan, NewSpan};
use crate::spans::{
    finished_span_map, open_span_map, status_map, FinishedSpan, FinishedSpans, OpenSpan, OpenSpans,
    SpanStatuses, SpanStage,
};
use crate::transport::{
    after_pushes, last_n, lemma_pushes_keep_last, TransportQueue, MAX_QUEUE_CAPACITY,
};

verus! {

/// The history and queue capacity a collector gets by default.
pub const DEFAULT_CAPACITY: usize = 50000;

/// A breach of the producer's span protocol `create -> (enter -> exit)* -> close`.
/// Such a breach would corrupt timing data, so it is reported, never absorbed.
#[derive(Clone, Copy, Debug, PartialEq, Eq, Structural)]
pub enum SpanError {
    CreatedTwice { id: u64 },
    EnteredBeforeCreated { id: u64 },
    EnteredTwice { id: u64 },
    ExitedBeforeCreated { id: u64 },
    ExitedWithoutEntering { id: u64 },
    ClosedBeforeCreated { id: u64 },
}

impl SpanError {
    /// A one-line description of the breach.
    pub open spec fn spec_message(self) -> Seq<char> {
        match self {
            SpanError::CreatedTwice { .. } => "Span was created twice"@,
            SpanError::EnteredBeforeCreated { .. } => "Span was entered before creating it"@,
            SpanError::EnteredTwice { .. } => "Span was entered while already entered"@,
            SpanError::ExitedBeforeCreated { .. } => "Span was exited before creating it"@,
            SpanError::ExitedWithoutEntering { .. } => "Span was exited without entering it"@,
            SpanError::ClosedBeforeCreated { .. } => "Span was closed before creating it"@,
        }
    }

    pub fn message(&self) -> (r: &'static str)
        ensures
            r@ == self.spec_message(),
    {
        match self {
            SpanError::CreatedTwice { .. } => "Span was created twice",
            SpanError::EnteredBeforeCreated { .. } => "Span was entered before creating it",
            SpanError::EnteredTwice { .. } => "Span was entered while already entered",
            SpanError::ExitedBeforeCreated { .. } => "Span was exited before creating it",
            SpanError::ExitedWithoutEntering { .. } => "Span was exited without entering it",
            SpanError::ClosedBeforeCreated { .. } => "Span was closed before creating it",
        }
    }

    pub fn id(&self) -> (r: u64)
        ensures
            r == self.spec_id(),
    {
        match self {
            SpanError::CreatedTwice { id } => *id,
            SpanError::EnteredBeforeCreated { id } => *id,
            SpanError::EnteredTwice { id } => *id,
            SpanError::ExitedBeforeCreated { id } => *id,
            SpanError::ExitedWithoutEntering { id } => *id,
            SpanError::ClosedBeforeCreated { id } => *id,
        }
    }

    pub open spec fn spec_id(self) -> u64 {
        match self {
            SpanError::CreatedTwice { id } => id,
            SpanError::EnteredBeforeCreated { id } => id,
            SpanError::EnteredTwice { id } => id,
            SpanError::ExitedBeforeCreated { id } => id,
            SpanError::ExitedWithoutEntering { id } => id,
            SpanError::ClosedBeforeCreated { id } => id,
        }
    }
}

/// What the consumer has reconstructed: the retained events, oldest first, the
/// spans currently open, and the latest finished interval of each span.
#[verifier::ext_equal]
pub struct Tracings {
    pub events: Seq<CollectedEvent>,
    pub spans: Map<u64, OpenSpan>,
    pub finished: Map<u64, FinishedSpan>,
}

/// `a - b`, or zero where `b` is later than `a`.
pub open spec fn elapsed(a: u64, b: u64) -> u64 {
    if a >= b {
        (a - b) as u64
    } else {
        0
    }
}

/// The interval of `span` entered at `enter` and exited at `exit`, for a
/// collector whose timer started at `epoch`.
pub open spec fn finish(span: OpenSpan, enter: u64, exit: u64, epoch: u64) -> FinishedSpan {
    FinishedSpan {
        name: span.name,
        target: span.target,
        level: span.level,
        start: elapsed(enter, epoch),
        duration: elapsed(exit, enter),
        parent: span.parent,
    }
}

/// `span` with its entry marker set to `start`.
pub open spec fn with_start(span: OpenSpan, start: Option<u64>) -> OpenSpan {
    OpenSpan {
        name: span.name,
        target: span.target,
        level: span.level,
        start,
        parent: span.parent,
    }
}

/// The effect of one notification on the reconstructed state, for a collector
/// whose timer started at `epoch` and whose history holds `cap` events.
pub open spec fn step(v: Tracings, epoch: u64, cap: nat, n: CollectedTracings) -> Result<
    Tracings,
    SpanError,
> {
    match n {
        CollectedTracings::Event(e) => Ok(
            Tracings { events: history_push(v.events, cap, e), spans: v.spans, finished: v.finished },
        ),
        CollectedTracings::NewSpan(s) => {
            if v.spans.contains_key(s.id) {
                Err(SpanError::CreatedTwice { id: s.id })
            } else {
                let open = OpenSpan {
                    name: s.name,
                    target: s.target,
                    level: s.level,
                    start: None,
                    parent: s.parent,
                };
                Ok(Tracings { events: v.events, spans: v.spans.insert(s.id, open), finished: v.finished })
            }
        },
        CollectedTracings::EnterSpan(s) => {
            if !v.spans.contains_key(s.id) {
                Err(SpanError::EnteredBeforeCreated { id: s.id })
            } else if v.spans[s.id].start is Some {
                Err(SpanError::EnteredTwice { id: s.id })
            } else {
                Ok(
                    Tracings {
                        events: v.events,
                        spans: v.spans.insert(s.id, with_start(v.spans[s.id], Some(s.time))),
                        finished: v.finished,
                    },
                )
            }
        },
        CollectedTracings::ExitSpan(s) => {
            if !v.spans.contains_key(s.id) {
                Err(SpanError::ExitedBeforeCreated { id: s.id })
            } else {
                match v.spans[s.id].start {
                    None => Err(SpanError::ExitedWithoutEntering { id: s.id }),
                    Some(enter) => Ok(
                        Tracings {
                            events: v.events,
                            spans: v.spans.insert(s.id, with_start(v.spans[s.id], None)),
                            finished: v.finished.insert(
                                s.id,
                                finish(v.spans[s.id], enter, s.time, epoch),
                            ),
                        },
                    ),
                }
            }
        },
        CollectedTracings::ClosedSpan(s) => {
            if !v.spans.contains_key(s.id) {
                Err(SpanError::ClosedBeforeCreated { id: s.id })
            } else {
                Ok(Tracings { events: v.events, spans: v.spans.remove(s.id), finished: v.finished })
            }
        },
    }
}

/// The state after handling `ns` in order, stopping at the first breach,
/// together with that breach.
pub open spec fn run(v: Tracings, epoch: u64, cap: nat, ns: Seq<CollectedTracings>) -> (
    Tracings,
    Option<SpanError>,
)
    decreases ns.len(),
{
    if ns.len() == 0 {
        (v, None)
    } else {
        let (w, e) = run(v, epoch, cap, ns.drop_last());
        if e is Some {
            (w, e)
        } else {
            match step(w, epoch, cap, ns.last()) {
                Ok(w2) => (w2, None),
                Err(err) => (w, Some(err)),
            }
        }
    }
}

/// The span a notification concerns; events concern none.
pub open spec fn spec_subject(n: CollectedTracings) -> Option<u64> {
    match n {
        CollectedTracings::Event(_) => None,
        CollectedTracings::NewSpan(s) => Some(s.id),
        CollectedTracings::EnterSpan(s) => Some(s.id),
        CollectedTracings::ExitSpan(s) => Some(s.id),
        CollectedTracings::ClosedSpan(s) => Some(s.id),
    }
}

fn subject(n: &CollectedTracings) -> (r: Option<u64>)
    ensures
        r == spec_subject(*n),
{
    match n {
        CollectedTracings::Event(_) => None,
        CollectedTracings::NewSpan(s) => Some(s.id),
        CollectedTracings::EnterSpan(s) => Some(s.id),
        CollectedTracings::ExitSpan(s) => Some(s.id),
        CollectedTracings::ClosedSpan(s) => Some(s.id),
    }
}

/// Where span `id` stands in the span table `m`.
pub open spec fn status_of(m: Map<u64, OpenSpan>, id: u64) -> SpanStage {
    if !m.contains_key(id) {
        SpanStage::Absent
    } else if m[id].start is Some {
        SpanStage::Entered
    } else {
        SpanStage::Open
    }
}

/// The protocol `create -> (enter -> exit)* -> close` for the span a
/// notification concerns: where it then stands, or the breach.
pub open spec fn transition(st: SpanStage, n: CollectedTracings) -> Result<SpanStage, SpanError> {
    match n {
        CollectedTracings::Event(_) => Ok(st),
        CollectedTracings::NewSpan(s) => match st {
            SpanStage::Absent => Ok(SpanStage::Open),
            _ => Err(SpanError::CreatedTwice { id: s.id }),
        },
        CollectedTracings::EnterSpan(s) => match st {
            SpanStage::Absent => Err(SpanError::EnteredBeforeCreated { id: s.id }),
            SpanStage::Open => Ok(SpanStage::Entered),
            SpanStage::Entered => Err(SpanError::EnteredTwice { id: s.id }),
        },
        CollectedTracings::ExitSpan(s) => match st {
            SpanStage::Absent => Err(SpanError::ExitedBeforeCreated { id: s.id }),
            SpanStage::Open => Err(SpanError::ExitedWithoutEntering { id: s.id }),
            SpanStage::Entered => Ok(SpanStage::Open),
        },
        CollectedTracings::ClosedSpan(s) => match st {
            SpanStage::Absent => Err(SpanError::ClosedBeforeCreated { id: s.id }),
            _ => Ok(SpanStage::Absent),
        },
    }
}

fn next_status(st: SpanStage, n: &CollectedTracings) -> (r: Result<SpanStage, SpanError>)
    ensures
        r == transition(st, *n),
{
    match n {
        CollectedTracings::Event(_) => Ok(st),
        CollectedTracings::NewSpan(s) => match st {
            SpanStage::Absent => Ok(SpanStage::Open),
            _ => Err(SpanError::CreatedTwice { id: s.id }),
        },
        CollectedTracings::EnterSpan(s) => match st {
            SpanStage::Absent => Err(SpanError::EnteredBeforeCreated { id: s.id }),
            SpanStage::Open => Ok(SpanStage::Entered),
            SpanStage::Entered => Err(SpanError::EnteredTwice { id: s.id }),
        },
        CollectedTracings::ExitSpan(s) => match st {
            SpanStage::Absent => Err(SpanError::ExitedBeforeCreated { id: s.id }),
            SpanStage::Open => Err(SpanError::ExitedWithoutEntering { id: s.id }),
            SpanStage::Entered => Ok(SpanStage::Open),
        },
        CollectedTracings::ClosedSpan(s) => match st {
            SpanStage::Absent => Err(SpanError::ClosedBeforeCreated { id: s.id }),
            _ => Ok(SpanStage::Absent),
        },
    }
}

/// Where span `x` stands: as recorded in `overlay`, else as in `spans`.
pub open spec fn effective(overlay: Map<u64, SpanStage>, spans: Map<u64, OpenSpan>, x: u64) -> SpanStage {
    if overlay.contains_key(x) {
        overlay[x]
    } else {
        status_of(spans, x)
    }
}

/// Whether a step breaks the protocol, and where spans then stand, depends
/// only on where the span concerned stands.
pub proof fn lemma_step_status(v: Tracings, epoch: u64, cap: nat, n: CollectedTracings)
    ensures
        spec_subject(n) is None ==> step(v, epoch, cap, n) is Ok && step(v, epoch, cap, n)->Ok_0.spans
            == v.spans,
        spec_subject(n) is Some ==> (transition(status_of(v.spans, spec_subject(n)->0), n) is Err
            <==> step(v, epoch, cap, n) is Err),
        spec_subject(n) is Some && transition(status_of(v.spans, spec_subject(n)->0), n) is Err
            ==> step(v, epoch, cap, n) == Err::<Tracings, SpanError>(
            transition(status_of(v.spans, spec_subject(n)->0), n)->Err_0,
        ),
        spec_subject(n) is Some && transition(status_of(v.spans, spec_subject(n)->0), n) is Ok
            ==> status_of(step(v, epoch, cap, n)->Ok_0.spans, spec_subject(n)->0) == transition(
            status_of(v.spans, spec_subject(n)->0),
            n,
        )->Ok_0,
        spec_subject(n) is Some && transition(status_of(v.spans, spec_subject(n)->0), n) is Ok
            ==> forall|x: u64|
            x != spec_subject(n)->0 ==> #[trigger] status_of(step(v, epoch, cap, n)->Ok_0.spans, x)
                == status_of(v.spans, x),
{
}

/// Whether every notification of `ns` is an event.
pub open spec fn all_events(ns: Seq<CollectedTracings>) -> bool {
    forall|i: int| 0 <= i < ns.len() ==> #[trigger] ns[i] is Event
}

/// The events carried by `ns`, in order.
pub open spec fn event_records(ns: Seq<CollectedTracings>) -> Seq<CollectedEvent>
    decreases ns.len(),
{
    if ns.len() == 0 {
        Seq::empty()
    } else {
        let prev = event_records(ns.drop_last());
        match ns.last() {
            CollectedTracings::Event(e) => prev.push(e),
            _ => prev,
        }
    }
}

proof fn lemma_run_events(v: Tracings, epoch: u64, cap: nat, ns: Seq<CollectedTracings>)
    requires
        all_events(ns),
    ensures
        run(v, epoch, cap, ns).1 is None,
        run(v, epoch, cap, ns).0.events == after_pushes(v.events, cap, event_records(ns)),
        run(v, epoch, cap, ns).0.spans == v.spans,
        run(v, epoch, cap, ns).0.finished == v.finished,
    decreases ns.len(),
{
    if ns.len() > 0 {
        let dl = ns.drop_last();
        assert(all_events(dl)) by {
            assert forall|i: int| 0 <= i < dl.len() implies #[trigger] dl[i] is Event by {
                assert(ns[i] is Event);
            }
        }
        lemma_run_events(v, epoch, cap, dl);
        assert(ns[ns.len() - 1] is Event);
        let recs = event_records(ns);
        assert(recs.drop_last() =~= event_records(dl));
    }
}

/// Events handed to the collector, with no span notification among them, are
/// all retained in arrival order when they fit; otherwise only the last
/// `cap` of the events held before and those handed over remain.
pub proof fn lemma_events_keep_last(v: Tracings, epoch: u64, cap: nat, ns: Seq<CollectedTracings>)
    requires
        cap > 0,
        v.events.len() <= cap,
        all_events(ns),
    ensures
        run(v, epoch, cap, ns).1 is None,
        run(v, epoch, cap, ns).0.events == last_n(v.events + event_records(ns), cap),
        run(v, epoch, cap, ns).0.spans == v.spans,
        run(v, epoch, cap, ns).0.finished == v.finished,
{
    lemma_run_events(v, epoch, cap, ns);
    lemma_pushes_keep_last(cap, v.events, event_records(ns));
}

/// The indices, in increasing order, of the first `n` events that pass the filters.
pub open spec fn passing_indices(
    events: Seq<CollectedEvent>,
    level_filter: LevelFilter,
    patterns: Seq<Seq<char>>,
    n: nat,
) -> Seq<usize>
    decreases n,
{
    if n == 0 {
        Seq::empty()
    } else {
        let prev = passing_indices(events, level_filter, patterns, (n - 1) as nat);
        let e = events[n - 1];
        if record_passes(level_filter, patterns, e.level, e.target@) {
            prev.push((n - 1) as usize)
        } else {
            prev
        }
    }
}

/// The single consumer: it drains notifications, reconstructs span intervals,
/// retains recent events and filters them on query.
pub struct EguiTracing {
    epoch: u64,
    events: History,
    spans: OpenSpans,
    finished_spans: FinishedSpans,
    state: State,
    matcher: TargetMatcher,
}

impl View for EguiTracing {
    type V = Tracings;

    closed spec fn view(&self) -> Tracings {
        Tracings {
            events: self.events@,
            spans: open_span_map(self.spans),
            finished: finished_span_map(self.finished_spans),
        }
    }
}

impl EguiTracing {
    /// The timer reading that span starts are measured from.
    pub closed spec fn epoch(&self) -> u64 {
        self.epoch
    }

    /// How many events the history retains.
    pub closed spec fn capacity(&self) -> nat {
        self.events.spec_capacity()
    }

    pub closed spec fn spec_level_filter(&self) -> LevelFilter {
        self.state.level_filter
    }

    /// The target patterns, in the order they were added.
    pub closed spec fn patterns(&self) -> Seq<Seq<char>> {
        self.state.target_filter.patterns()
    }

    pub closed spec fn spec_input(&self) -> Seq<char> {
        self.state.target_filter.input@
    }

    pub closed spec fn wf(&self) -> bool {
        &&& self.events.wf()
        &&& self.matcher.patterns() == self.state.target_filter.patterns()
        &&& all_valid(self.state.target_filter.patterns())
    }

    /// The filter settings of `self` and `other` agree.
    pub open spec fn same_filters(&self, other: &EguiTracing) -> bool {
        &&& self.spec_level_filter() == other.spec_level_filter()
        &&& self.patterns() == other.patterns()
        &&& self.spec_input() == other.spec_input()
    }

    /// Everything but the reconstructed state agrees.
    pub open spec fn same_settings(&self, other: &EguiTracing) -> bool {
        &&& self.same_filters(other)
        &&& self.epoch() == other.epoch()
        &&& self.capacity() == other.capacity()
    }

    /// The indices of the retained events that pass the current filters.
    pub open spec fn spec_filtered(&self) -> Seq<usize> {
        passing_indices(self@.events, self.spec_level_filter(), self.patterns(), self@.events.len())
    }

    /// A collector retaining up to `capacity` events, whose timer starts at zero.
    pub fn new(capacity: usize) -> (r: Self)
        requires
            0 < capacity <= MAX_HISTORY_CAPACITY,
        ensures
            r.wf(),
            r.epoch() == 0,
            r.capacity() == capacity,
            r@.events == Seq::<CollectedEvent>::empty(),
            r@.spans.dom() == Set::<u64>::empty(),
            r@.finished.dom() == Set::<u64>::empty(),
            r.spec_level_filter() == LevelFilter::default_flags(),
            r.patterns().len() == 0,
            r.spec_input().len() == 0,
    {
        Self::new_with_timer(capacity, 0)
    }

    /// A collector retaining up to `capacity` events, whose span starts are
    /// measured from the timer reading `timer`.
    pub fn new_with_timer(capacity: usize, timer: u64) -> (r: Self)
        requires
            0 < capacity <= MAX_HISTORY_CAPACITY,
        ensures
            r.wf(),
            r.epoch() == timer,
            r.capacity() == capacity,
            r@.events == Seq::<CollectedEvent>::empty(),
            r@.spans.dom() == Set::<u64>::empty(),
            r@.finished.dom() == Set::<u64>::empty(),
            r.spec_level_filter() == LevelFilter::default_flags(),
            r.patterns().len() == 0,
            r.spec_input().len() == 0,
    {
        let state = State::default();
        let matcher = TargetMatcher::empty();
        proof {
            assert(state.target_filter.patterns() =~= Seq::<Seq<char>>::empty());
            assert(all_valid(state.target_filter.patterns()));
        }
        EguiTracing {
            epoch: timer,
            events: History::new(capacity),
            spans: OpenSpans::new(),
            finished_spans: FinishedSpans::new(),
            state,
            matcher,
        }
    }

    /// Applies one notification. On a protocol breach nothing changes and the
    /// breach is returned.
    fn apply(&mut self, n: CollectedTracings) -> (r: Result<(), SpanError>)
        requires
            old(self).wf(),
        ensures
            final(self).wf(),
            final(self).same_settings(old(self)),
            match step(old(self)@, old(self).epoch(), old(self).capacity(), n) {
                Ok(v) => r is Ok && final(self)@ == v,
                Err(e) => r == Err::<(), SpanError>(e) && final(self)@ == old(self)@,
            },
    {
        let ghost v0 = self@;
        let ghost m0 = open_span_map(self.spans);
        match n {
            CollectedTracings::Event(e) => {
                self.events.push(e);
                Ok(())
            },
            CollectedTracings::NewSpan(s) => {
                if self.spans.get(s.id).is_some() {
                    return Err(SpanError::CreatedTwice { id: s.id });
                }
                let id = s.id;
                let open = OpenSpan {
                    name: s.name,
                    target: s.target,
                    level: s.level,
                    start: None,
                    parent: s.parent,
                };
                self.spans.insert(id, open);
                Ok(())
            },
            CollectedTracings::EnterSpan(s) => {
                match self.spans.remove(s.id) {
                    None => Err(SpanError::EnteredBeforeCreated { id: s.id }),
                    Some(mut span) => {
                        if span.start.is_some() {
                            self.spans.insert(s.id, span);
                            assert(open_span_map(self.spans) =~= m0);
                            return Err(SpanError::EnteredTwice { id: s.id });
                        }
                        span.start = Some(s.time);
                        self.spans.insert(s.id, span);
                        assert(open_span_map(self.spans) =~= m0.insert(
                            s.id,
                            with_start(m0[s.id], Some(s.time)),
                        ));
                        Ok(())
                    },
                }
            },
            CollectedTracings::ExitSpan(s) => {
                match self.spans.remove(s.id) {
                    None => Err(SpanError::ExitedBeforeCreated { id: s.id }),
                    Some(mut span) => {
                        match span.start {
                            None => {
                                self.spans.insert(s.id, span);
                                assert(open_span_map(self.spans) =~= m0);
                                Err(SpanError::ExitedWithoutEntering { id: s.id })
                            },
                            Some(enter) => {
                                let start = if enter >= self.epoch {
                                    enter - self.epoch
                                } else {
                                    0
                                };
                                let duration = if s.time >= enter {
                                    s.time - enter
                                } else {
                                    0
                                };
                                let finished = FinishedSpan {
                                    name: span.name.clone(),
                                    target: span.target.clone(),
                                    level: span.level,
                                    start,
                                    duration,
                                    parent: span.parent,
                                };
                                span.start = None;
                                self.spans.insert(s.id, span);
                                self.finished_spans.insert(s.id, finished);
                                assert(open_span_map(self.spans) =~= m0.insert(
                                    s.id,
                                    with_start(m0[s.id], None),
                                ));
                                Ok(())
                            },
                        }
                    },
                }
            },
            CollectedTracings::ClosedSpan(s) => {
                match self.spans.remove(s.id) {
                    None => Err(SpanError::ClosedBeforeCreated { id: s.id }),
                    Some(_) => Ok(()),
                }
            },
        }
    }
}

/// Copies each string of `v`.
fn clone_strings(v: &Vec<String>) -> (r: Vec<String>)
    ensures
        r@ == v@,
{
    let mut out: Vec<String> = Vec::new();
    let mut i: usize = 0;
    while i < v.len()
        invariant
            0 <= i <= v.len(),
            out@ == v@.subrange(0, i as int),
        decreases v.len() - i,
    {
        out.push(v[i].clone());
        assert(out@ =~= v@.subrange(0, i + 1));
        i = i + 1;
    }
    assert(v@.subrange(0, v.len() as int) =~= v@);
    out
}

/// Once a breach has stopped a run, further notifications change nothing.
proof fn lemma_run_stops(v: Tracings, epoch: u64, cap: nat, ns: Seq<CollectedTracings>, k: int)
    requires
        0 <= k <= ns.len(),
        run(v, epoch, cap, ns.take(k)).1 is Some,
    ensures
        run(v, epoch, cap, ns) == run(v, epoch, cap, ns.take(k)),
    decreases ns.len() - k,
{
    if k == ns.len() {
        assert(ns.take(k) =~= ns);
    } else {
        let dl = ns.drop_last();
        assert(dl.take(k) =~= ns.take(k));
        lemma_run_stops(v, epoch, cap, dl, k);
    }
}

impl EguiTracing {
    /// Applies one notification, which must keep to the span protocol (see
    /// `check`).
    pub fn process(&mut self, n: CollectedTracings)
        requires
            old(self).wf(),
            step(old(self)@, old(self).epoch(), old(self).capacity(), n) is Ok,
        ensures
            final(self).wf(),
            final(self).same_settings(old(self)),
            final(self)@ == step(old(self)@, old(self).epoch(), old(self).capacity(), n)->Ok_0,
    {
        let _ = self.apply(n);
    }

    /// The breach of the span protocol that `n` would make, if any.
    pub fn check(&self, n: &CollectedTracings) -> (r: Result<(), SpanError>)
        ensures
            r is Ok <==> step(self@, self.epoch(), self.capacity(), *n) is Ok,
            r matches Err(e) ==> step(self@, self.epoch(), self.capacity(), *n) == Err::<Tracings, SpanError>(e),
    {
        proof {
            lemma_step_status(self@, self.epoch(), self.capacity(), *n);
        }
        match subject(n) {
            None => Ok(()),
            Some(id) => match next_status(self.current_status(id), n) {
                Ok(_) => Ok(()),
                Err(e) => Err(e),
            },
        }
    }

    /// Where span `id` stands now.
    fn current_status(&self, id: u64) -> (r: SpanStage)
        ensures
            r == status_of(self@.spans, id),
    {
        match self.spans.get(id) {
            None => SpanStage::Absent,
            Some(span) => if span.start.is_some() {
                SpanStage::Entered
            } else {
                SpanStage::Open
            },
        }
    }

    /// The first breach of the span protocol in `batch`, applied in order from
    /// the current state, or `None` when the whole batch keeps to it.
    pub fn breach(&self, batch: &Vec<CollectedTracings>) -> (r: Option<SpanError>)
        ensures
            r == run(self@, self.epoch(), self.capacity(), batch@).1,
    {
        let ghost v = self@;
        let ghost epoch = self.epoch();
        let ghost cap = self.capacity();
        let ghost ns = batch@;
        let mut overlay = SpanStatuses::new();
        let mut i: usize = 0;
        assert(ns.take(0) =~= Seq::<CollectedTracings>::empty());
        while i < batch.len()
            invariant
                0 <= i <= batch.len(),
                ns == batch@,
                v == self@,
                epoch == self.epoch(),
                cap == self.capacity(),
                run(v, epoch, cap, ns.take(i as int)).1 is None,
                forall|x: u64|
                    #[trigger] effective(status_map(overlay), v.spans, x) == status_of(
                        run(v, epoch, cap, ns.take(i as int)).0.spans,
                        x,
                    ),
            decreases batch.len() - i,
        {
            let ghost w = run(v, epoch, cap, ns.take(i as int)).0;
            let ghost before = status_map(overlay);
            proof {
                assert(ns.take(i + 1).drop_last() =~= ns.take(i as int));
                assert(ns.take(i + 1).last() == ns[i as int]);
                lemma_step_status(w, epoch, cap, ns[i as int]);
            }
            let n = &batch[i];
            match subject(n) {
                None => {},
                Some(id) => {
                    let st = match overlay.get(id) {
                        Some(st) => st,
                        None => self.current_status(id),
                    };
                    assert(st == status_of(w.spans, id)) by {
                        assert(effective(before, v.spans, id) == status_of(w.spans, id));
                    }
                    match next_status(st, n) {
                        Err(e) => {
                            proof {
                                lemma_run_stops(v, epoch, cap, ns, i + 1);
                            }
                            return Some(e);
                        },
                        Ok(next) => {
                            overlay.insert(id, next);
                            let ghost w2 = run(v, epoch, cap, ns.take(i + 1)).0;
                            assert forall|x: u64|
                                #[trigger] effective(status_map(overlay), v.spans, x) == status_of(w2.spans, x) by {
                                if x != id {
                                    assert(effective(before, v.spans, x) == status_of(w.spans, x));
                                }
                            }
                        },
                    }
                },
            }
            i = i + 1;
        }
        proof {
            assert(ns.take(ns.len() as int) =~= ns);
        }
        None
    }

    /// Applies `batch` in order; the batch must keep to the span protocol
    /// (see `breach`).
    pub fn ingest(&mut self, batch: Vec<CollectedTracings>)
        requires
            old(self).wf(),
            run(old(self)@, old(self).epoch(), old(self).capacity(), batch@).1 is None,
        ensures
            final(self).wf(),
            final(self).same_settings(old(self)),
            final(self)@ == run(old(self)@, old(self).epoch(), old(self).capacity(), batch@).0,
    {
        let ghost start = self@;
        let ghost ns = batch@;
        let ghost epoch = self.epoch();
        let ghost cap = self.capacity();
        assert(ns.take(0) =~= Seq::<CollectedTracings>::empty());
        for n in it: batch
            invariant
                self.wf(),
                self.same_settings(old(self)),
                start == old(self)@,
                epoch == old(self).epoch(),
                cap == old(self).capacity(),
                it.seq() == ns,
                run(start, epoch, cap, ns).1 is None,
                0 <= it.index() <= ns.len(),
                run(start, epoch, cap, ns.take(it.index())) == (self@, None::<SpanError>),
        {
            let ghost k = it.index();
            proof {
                assert(ns.take(k + 1).drop_last() =~= ns.take(k));
                assert(ns.take(k + 1).last() == ns[k]);
            }
            match self.apply(n) {
                Ok(()) => {},
                Err(e) => {
                    proof {
                        lemma_run_stops(start, epoch, cap, ns, k + 1);
                    }
                },
            }
        }
        proof {
            assert(ns.take(ns.len() as int) =~= ns);
        }
    }

    /// Drains `queue` and applies what it held, oldest first; what it held must
    /// keep to the span protocol.
    pub fn fetch_tracings(&mut self, queue: &mut TransportQueue)
        requires
            old(self).wf(),
            run(old(self)@, old(self).epoch(), old(self).capacity(), old(queue)@).1 is None,
        ensures
            final(self).wf(),
            old(queue).wf() ==> final(queue).wf(),
            final(queue)@ == Seq::<CollectedTracings>::empty(),
            final(queue).spec_capacity() == old(queue).spec_capacity(),
            final(self).same_settings(old(self)),
            final(self)@ == run(old(self)@, old(self).epoch(), old(self).capacity(), old(queue)@).0,
    {
        let batch = queue.drain();
        self.ingest(batch)
    }

    /// Drains `queue`, applies what it held, and returns every retained event,
    /// oldest first. When the queue held events only, these are the last
    /// `capacity` of the events retained before and the events drained.
    pub fn events(&mut self, queue: &mut TransportQueue) -> (r: Vec<CollectedEvent>)
        requires
            old(self).wf(),
            run(old(self)@, old(self).epoch(), old(self).capacity(), old(queue)@).1 is None,
        ensures
            final(self).wf(),
            old(queue).wf() ==> final(queue).wf(),
            final(queue)@ == Seq::<CollectedTracings>::empty(),
            final(queue).spec_capacity() == old(queue).spec_capacity(),
            final(self).same_settings(old(self)),
            final(self)@ == run(old(self)@, old(self).epoch(), old(self).capacity(), old(queue)@).0,
            r@ == final(self)@.events,
            all_events(old(queue)@) ==> r@ == last_n(
                old(self)@.events + event_records(old(queue)@),
                old(self).capacity(),
            ),
    {
        proof {
            self.lemma_wf_bounds();
            if all_events(queue@) {
                lemma_events_keep_last(self@, self.epoch(), self.capacity(), queue@);
            }
        }
        self.fetch_tracings(queue);
        let n = self.events.len();
        let mut out: Vec<CollectedEvent> = Vec::new();
        let mut i: usize = 0;
        while i < n
            invariant
                0 <= i <= n,
                n == self@.events.len(),
                out@ == self@.events.subrange(0, i as int),
            decreases n - i,
        {
            if let Some(e) = self.events.get(i) {
                out.push(e.copy());
            }
            assert(out@ =~= self@.events.subrange(0, i + 1));
            i = i + 1;
        }
        assert(self@.events.subrange(0, n as int) =~= self@.events);
        out
    }

    /// The history of a well-formed collector holds at most its capacity,
    /// which is positive.
    pub proof fn lemma_wf_bounds(&self)
        requires
            self.wf(),
        ensures
            self.capacity() > 0,
            self@.events.len() <= self.capacity(),
    {
        self.events.lemma_wf_bounds();
    }

    /// The number of retained events.
    pub fn len(&self) -> (r: usize)
        ensures
            r == self@.events.len(),
    {
        self.events.len()
    }

    /// The retained event at `index`, counted from the oldest.
    pub fn event(&self, index: usize) -> (r: Option<&CollectedEvent>)
        ensures
            index < self@.events.len() ==> r == Some(&self@.events[index as int]),
            index >= self@.events.len() ==> r is None,
    {
        self.events.get(index)
    }

    /// The indices of the retained events that pass the level mask and the
    /// target patterns, oldest first; recomputed on every call.
    pub fn filtered(&self) -> (r: Vec<usize>)
        requires
            self.wf(),
        ensures
            r@ == self.spec_filtered(),
    {
        let n = self.events.len();
        let no_patterns = self.matcher.is_empty();
        let mut out: Vec<usize> = Vec::new();
        let mut i: usize = 0;
        while i < n
            invariant
                0 <= i <= n,
                n == self@.events.len(),
                self.wf(),
                no_patterns == (self.patterns().len() == 0),
                out@ == passing_indices(self@.events, self.spec_level_filter(), self.patterns(), i as nat),
            decreases n - i,
        {
            match self.events.get(i) {
                Some(e) => {
                    let matched = no_patterns || self.matcher.is_match(e.target.as_str());
                    if passes(&self.state.level_filter, e.level, no_patterns, matched) {
                        out.push(i);
                    }
                },
                None => {},
            }
            i = i + 1;
        }
        out
    }

    /// The open span `id`, if it is tracked.
    pub fn open_span(&self, id: u64) -> (r: Option<&OpenSpan>)
        ensures
            self@.spans.contains_key(id) ==> r == Some(&self@.spans[id]),
            !self@.spans.contains_key(id) ==> r is None,
    {
        self.spans.get(id)
    }

    /// The latest finished interval of span `id`, if it has one.
    pub fn finished_span(&self, id: u64) -> (r: Option<&FinishedSpan>)
        ensures
            self@.finished.contains_key(id) ==> r == Some(&self@.finished[id]),
            !self@.finished.contains_key(id) ==> r is None,
    {
        self.finished_spans.get(id)
    }

    pub fn state(&self) -> (r: &State)
        ensures
            r.level_filter == self.spec_level_filter(),
            r.target_filter.patterns() == self.patterns(),
            r.target_filter.input@ == self.spec_input(),
    {
        &self.state
    }

    pub fn level_filter(&self) -> (r: LevelFilter)
        ensures
            r == self.spec_level_filter(),
    {
        self.state.level_filter
    }

    /// Replaces the level mask.
    pub fn set_level_filter(&mut self, level_filter: LevelFilter)
        requires
            old(self).wf(),
        ensures
            final(self).wf(),
            final(self)@ == old(self)@,
            final(self).epoch() == old(self).epoch(),
            final(self).capacity() == old(self).capacity(),
            final(self).spec_level_filter() == level_filter,
            final(self).patterns() == old(self).patterns(),
            final(self).spec_input() == old(self).spec_input(),
    {
        self.state.level_filter = level_filter;
    }

    /// Replaces the text being typed for the next pattern.
    pub fn set_input(&mut self, input: String)
        requires
            old(self).wf(),
        ensures
            final(self).wf(),
            final(self)@ == old(self)@,
            final(self).epoch() == old(self).epoch(),
            final(self).capacity() == old(self).capacity(),
            final(self).spec_level_filter() == old(self).spec_level_filter(),
            final(self).patterns() == old(self).patterns(),
            final(self).spec_input() == input@,
    {
        self.state.target_filter.input = input;
    }

    /// Compiles `targets` and, on success, makes them the filter's patterns
    /// with `input` as the pending text; on failure nothing changes.
    fn replace_targets(&mut self, targets: Vec<String>, input: String) -> (r: Result<(), FilterError>)
        requires
            old(self).wf(),
        ensures
            final(self).wf(),
            final(self)@ == old(self)@,
            final(self).epoch() == old(self).epoch(),
            final(self).capacity() == old(self).capacity(),
            final(self).spec_level_filter() == old(self).spec_level_filter(),
            r matches Err(FilterError::InvalidPattern(_)) <==> !all_valid(texts(targets@)),
            r is Ok <==> all_valid(texts(targets@)) && set_builds(texts(targets@)),
            r is Ok ==> final(self).patterns() == texts(targets@) && final(self).spec_input() == input@,
            r is Err ==> final(self).patterns() == old(self).patterns() && final(self).spec_input()
                == old(self).spec_input(),
    {
        match TargetMatcher::compile(&targets) {
            Ok(m) => {
                self.state.target_filter = TargetFilter { input, targets };
                self.matcher = m;
                Ok(())
            },
            Err(e) => Err(e),
        }
    }

    /// Adds `pattern` to the target patterns and recompiles the matcher. It
    /// succeeds iff the pattern is a valid glob and the patterns with it can be
    /// compiled; otherwise the filter and its matcher are left as they were.
    pub fn add_target(&mut self, pattern: &str) -> (r: Result<(), FilterError>)
        requires
            old(self).wf(),
        ensures
            final(self).wf(),
            final(self)@ == old(self)@,
            final(self).epoch() == old(self).epoch(),
            final(self).capacity() == old(self).capacity(),
            final(self).spec_level_filter() == old(self).spec_level_filter(),
            final(self).spec_input() == old(self).spec_input(),
            r matches Err(FilterError::InvalidPattern(_)) <==> !glob_valid(pattern@),
            r is Ok <==> glob_valid(pattern@) && set_builds(old(self).patterns().push(pattern@)),
            r is Ok ==> final(self).patterns() == old(self).patterns().push(pattern@),
            r is Err ==> final(self).patterns() == old(self).patterns(),
    {
        let mut targets = clone_strings(&self.state.target_filter.targets);
        let ghost before = targets@;
        let owned = pattern.to_owned();
        let ghost added = owned;
        targets.push(owned);
        let input = self.state.target_filter.input.clone();
        proof {
            lemma_push_pattern(before, added, targets@);
        }
        self.replace_targets(targets, input)
    }

    /// Adds the pending input as a pattern. It succeeds iff the input is a valid
    /// glob and the patterns with it can be compiled; on success the input is
    /// cleared, otherwise nothing changes.
    pub fn submit_input(&mut self) -> (r: Result<(), FilterError>)
        requires
            old(self).wf(),
        ensures
            final(self).wf(),
            final(self)@ == old(self)@,
            final(self).epoch() == old(self).epoch(),
            final(self).capacity() == old(self).capacity(),
            final(self).spec_level_filter() == old(self).spec_level_filter(),
            r matches Err(FilterError::InvalidPattern(_)) <==> !glob_valid(old(self).spec_input()),
            r is Ok <==> glob_valid(old(self).spec_input()) && set_builds(
                old(self).patterns().push(old(self).spec_input()),
            ),
            r is Ok ==> final(self).patterns() == old(self).patterns().push(old(self).spec_input())
                && final(self).spec_input().len() == 0,
            r is Err ==> final(self).patterns() == old(self).patterns() && final(self).spec_input()
                == old(self).spec_input(),
    {
        let mut targets = clone_strings(&self.state.target_filter.targets);
        let ghost before = targets@;
        let pattern = self.state.target_filter.input.clone();
        targets.push(pattern);
        proof {
            lemma_push_pattern(before, self.state.target_filter.input, targets@);
        }
        self.replace_targets(targets, String::new())
    }

    /// Removes the pattern at `index` and recompiles the matcher. It succeeds
    /// iff the remaining patterns can be compiled; otherwise nothing changes.
    pub fn remove_target(&mut self, index: usize) -> (r: Result<(), FilterError>)
        requires
            old(self).wf(),
            index < old(self).patterns().len(),
        ensures
            final(self).wf(),
            final(self)@ == old(self)@,
            final(self).epoch() == old(self).epoch(),
            final(self).capacity() == old(self).capacity(),
            final(self).spec_level_filter() == old(self).spec_level_filter(),
            final(self).spec_input() == old(self).spec_input(),
            r is Ok <==> set_builds(old(self).patterns().remove(index as int)),
            r is Ok ==> final(self).patterns() == old(self).patterns().remove(index as int),
            r is Err ==> final(self).patterns() == old(self).patterns(),
            !(r matches Err(FilterError::InvalidPattern(_))),
    {
        let mut targets = clone_strings(&self.state.target_filter.targets);
        let ghost before = targets@;
        targets.remove(index);
        let input = self.state.target_filter.input.clone();
        proof {
            assert(texts(targets@) =~= texts(before).remove(index as int));
            assert(all_valid(texts(targets@))) by {
                assert forall|i: int| 0 <= i < texts(targets@).len() implies #[trigger] glob_valid(
                    texts(targets@)[i],
                ) by {
                    if i < index {
                        assert(glob_valid(texts(before)[i]));
                    } else {
                        assert(glob_valid(texts(before)[i + 1]));
                    }
                }
            }
        }
        self.replace_targets(targets, input)
    }

    /// Replaces the target filter, patterns and input alike, and recompiles the
    /// matcher. It succeeds iff every pattern is a valid glob and they can be
    /// compiled together; otherwise nothing changes.
    pub fn update_globset(&mut self, target_filter: TargetFilter) -> (r: Result<(), FilterError>)
        requires
            old(self).wf(),
        ensures
            final(self).wf(),
            final(self)@ == old(self)@,
            final(self).epoch() == old(self).epoch(),
            final(self).capacity() == old(self).capacity(),
            final(self).spec_level_filter() == old(self).spec_level_filter(),
            r matches Err(FilterError::InvalidPattern(_)) <==> !all_valid(target_filter.patterns()),
            r is Ok <==> all_valid(target_filter.patterns()) && set_builds(target_filter.patterns()),
            r is Ok ==> final(self).patterns() == target_filter.patterns() && final(self).spec_input()
                == target_filter.input@,
            r is Err ==> final(self).patterns() == old(self).patterns() && final(self).spec_input()
                == old(self).spec_input(),
    {
        self.replace_targets(target_filter.targets, target_filter.input)
    }

    /// A collector and the transport queue it drains, both empty and of the
    /// same capacity, whose timer starts at zero.
    pub fn with_queue(capacity: usize) -> (r: (EguiTracing, TransportQueue))
        requires
            0 < capacity <= MAX_HISTORY_CAPACITY,
            capacity <= MAX_QUEUE_CAPACITY,
        ensures
            r.0.wf(),
            r.0.epoch() == 0,
            r.0.capacity() == capacity,
            r.0@.events == Seq::<CollectedEvent>::empty(),
            r.0@.spans.dom() == Set::<u64>::empty(),
            r.0@.finished.dom() == Set::<u64>::empty(),
            r.0.spec_level_filter() == LevelFilter::default_flags(),
            r.0.patterns().len() == 0,
            r.0.spec_input().len() == 0,
            r.1.wf(),
            r.1@ == Seq::<CollectedTracings>::empty(),
            r.1.spec_capacity() == capacity,
    {
        (EguiTracing::new(capacity), TransportQueue::new(capacity))
    }
}

/// Adding a valid pattern to valid patterns keeps them valid, and one text
/// more is one pattern more.
proof fn lemma_push_pattern(before: Seq<String>, p: String, after: Seq<String>)
    requires
        after == before.push(p),
    ensures
        texts(after) == texts(before).push(p@),
        all_valid(texts(before)) ==> (all_valid(texts(after)) <==> glob_valid(p@)),
{
    assert(texts(after) =~= texts(before).push(p@));
    if all_valid(texts(before)) && glob_valid(p@) {
        assert forall|i: int| 0 <= i < texts(after).len() implies #[trigger] glob_valid(texts(after)[i]) by {
            if i < before.len() {
                assert(glob_valid(texts(before)[i]));
            }
        }
    }
    if all_valid(texts(after)) {
        assert(glob_valid(texts(after)[before.len() as int]));
    }
}

impl Default for EguiTracing {
    fn default() -> (r: EguiTracing)
        ensures
            r.wf(),
            r.epoch() == 0,
            r.capacity() == DEFAULT_CAPACITY,
            r@.events.len() == 0,
            r@.spans.dom() == Set::<u64>::empty(),
            r@.finished.dom() == Set::<u64>::empty(),
            r.spec_level_filter() == LevelFilter::default_flags(),
            r.patterns().len() == 0,
            r.spec_input().len() == 0,
    {
        EguiTracing::new(DEFAULT_CAPACITY)
    }
}

/// A span created, entered at `enter`, exited at `exit` and closed yields one
/// finished interval that starts at `enter` measured from the epoch and lasts
/// `exit - enter`; the span itself is no longer tracked.
pub proof fn lemma_span_lifecycle(
    v: Tracings,
    epoch: u64,
    cap: nat,
    created: NewSpan,
    enter: u64,
    exit: u64,
)
    requires
        !v.spans.contains_key(created.id),
        epoch <= enter <= exit,
    ensures
        ({
            let id = created.id;
            let ns = seq![
                CollectedTracings::NewSpan(created),
                CollectedTracings::EnterSpan(EnterSpan { id, time: enter }),
                CollectedTracings::ExitSpan(ExitSpan { id, time: exit }),
                CollectedTracings::ClosedSpan(ClosedSpan { id }),
            ];
            let (w, e) = run(v, epoch, cap, ns);
            &&& e is None
            &&& !w.spans.contains_key(id)
            &&& w.finished.contains_key(id)
            &&& w.finished[id].start == enter - epoch
            &&& w.finished[id].duration == exit - enter
            &&& w.finished[id].duration >= 0
            &&& w.finished[id].name == created.name
            &&& w.finished[id].target == created.target
            &&& w.finished[id].level == created.level
            &&& w.finished[id].parent == created.parent
            &&& w.events == v.events
        }),
{
    let id = created.id;
    let ns = seq![
        CollectedTracings::NewSpan(created),
        CollectedTracings::EnterSpan(EnterSpan { id, time: enter }),
        CollectedTracings::ExitSpan(ExitSpan { id, time: exit }),
        CollectedTracings::ClosedSpan(ClosedSpan { id }),
    ];
    assert(ns.drop_last().drop_last().drop_last().drop_last() =~= Seq::<CollectedTracings>::empty());
    assert(ns.drop_last().drop_last().drop_last() =~= seq![ns[0]]);
    assert(ns.drop_last().drop_last() =~= seq![ns[0], ns[1]]);
    assert(ns.drop_last() =~= seq![ns[0], ns[1], ns[2]]);
    reveal_with_fuel(run, 5);
}

/// Entering and exiting a span a second time before it is closed replaces its
/// finished interval with the latest one.
pub proof fn lemma_reentry_keeps_latest(
    v: Tracings,
    epoch: u64,
    cap: nat,
    id: u64,
    enter1: u64,
    exit1: u64,
    enter2: u64,
    exit2: u64,
)
    requires
        v.spans.contains_key(id),
        v.spans[id].start is None,
    ensures
        ({
            let ns = seq![
                CollectedTracings::EnterSpan(EnterSpan { id, time: enter1 }),
                CollectedTracings::ExitSpan(ExitSpan { id, time: exit1 }),
                CollectedTracings::EnterSpan(EnterSpan { id, time: enter2 }),
                CollectedTracings::ExitSpan(ExitSpan { id, time: exit2 }),
            ];
            let (w, e) = run(v, epoch, cap, ns);
            &&& e is None
            &&& w.finished[id] == finish(v.spans[id], enter2, exit2, epoch)
            &&& w.spans[id] == v.spans[id]
            &&& forall|other: u64| other != id ==> #[trigger] w.finished.contains_key(other)
                == v.finished.contains_key(other)
        }),
{
    let ns = seq![
        CollectedTracings::EnterSpan(EnterSpan { id, time: enter1 }),
        CollectedTracings::ExitSpan(ExitSpan { id, time: exit1 }),
        CollectedTracings::EnterSpan(EnterSpan { id, time: enter2 }),
        CollectedTracings::ExitSpan(ExitSpan { id, time: exit2 }),
    ];
    assert(ns.drop_last().drop_last().drop_last().drop_last() =~= Seq::<CollectedTracings>::empty());
    assert(ns.drop_last().drop_last().drop_last() =~= seq![ns[0]]);
    assert(ns.drop_last().drop_last() =~= seq![ns[0], ns[1]]);
    assert(ns.drop_last() =~= seq![ns[0], ns[1], ns[2]]);
    reveal_with_fuel(run, 5);
    let (w, e) = run(v, epoch, cap, ns);
    assert(with_start(with_start(v.spans[id], Some(enter2)), None) == v.spans[id]);
}

/// Entering a span never created, exiting one never created or not entered,
/// and closing one not tracked are each reported, and leave the state as it was.
pub proof fn lemma_breaches_reported(v: Tracings, epoch: u64, cap: nat, id: u64, time: u64)
    ensures
        !v.spans.contains_key(id) ==> step(
            v,
            epoch,
            cap,
            CollectedTracings::EnterSpan(EnterSpan { id, time }),
        ) == Err::<Tracings, SpanError>(SpanError::EnteredBeforeCreated { id }),
        !v.spans.contains_key(id) ==> step(
            v,
            epoch,
            cap,
            CollectedTracings::ExitSpan(ExitSpan { id, time }),
        ) == Err::<Tracings, SpanError>(SpanError::ExitedBeforeCreated { id }),
        v.spans.contains_key(id) && v.spans[id].start is None ==> step(
            v,
            epoch,
            cap,
            CollectedTracings::ExitSpan(ExitSpan { id, time }),
        ) == Err::<Tracings, SpanError>(SpanError::ExitedWithoutEntering { id }),
        !v.spans.contains_key(id) ==> step(v, epoch, cap, CollectedTracings::ClosedSpan(ClosedSpan { id }))
            == Err::<Tracings, SpanError>(SpanError::ClosedBeforeCreated { id }),
        v.spans.contains_key(id) && v.spans[id].start is Some ==> step(
            v,
            epoch,
            cap,
            CollectedTracings::EnterSpan(EnterSpan { id, time }),
        ) == Err::<Tracings, SpanError>(SpanError::EnteredTwice { id }),
{
}

/// A breach stops a batch: the run reports it and nothing after it is applied.
pub proof fn lemma_breach_stops_batch(
    v: Tracings,
    epoch: u64,
    cap: nat,
    ns: Seq<CollectedTracings>,
    k: int,
)
    requires
        0 <= k < ns.len(),
        run(v, epoch, cap, ns.take(k)).1 is None,
        step(run(v, epoch, cap, ns.take(k)).0, epoch, cap, ns[k]) is Err,
    ensures
        run(v, epoch, cap, ns).1 == Some(step(run(v, epoch, cap, ns.take(k)).0, epoch, cap, ns[k])->Err_0),
        run(v, epoch, cap, ns).0 == run(v, epoch, cap, ns.take(k)).0,
{
    assert(ns.take(k + 1).drop_last() =~= ns.take(k));
    assert(ns.take(k + 1).last() == ns[k]);
    lemma_run_stops(v, epoch, cap, ns, k + 1);
}

/// The indices the filters keep are exactly those of the events that pass,
/// each once, in increasing order.
pub proof fn lemma_passing_indices(
    events: Seq<CollectedEvent>,
    level_filter: LevelFilter,
    patterns: Seq<Seq<char>>,
    n: nat,
)
    requires
        n <= events.len(),
        events.len() <= usize::MAX,
    ensures
        forall|i: int|
            0 <= i < n ==> (passing_indices(events, level_filter, patterns, n).contains(i as usize)
                <==> record_passes(level_filter, patterns, events[i].level, events[i].target@)),
        forall|k: int|
            0 <= k < passing_indices(events, level_filter, patterns, n).len() ==> #[trigger] passing_indices(
                events,
                level_filter,
                patterns,
                n,
            )[k] < n,
        forall|j: int, k: int|
            0 <= j < k < passing_indices(events, level_filter, patterns, n).len() ==> passing_indices(
                events,
                level_filter,
                patterns,
                n,
            )[j] < passing_indices(events, level_filter, patterns, n)[k],
    decreases n,
{
    if n > 0 {
        lemma_passing_indices(events, level_filter, patterns, (n - 1) as nat);
        let prev = passing_indices(events, level_filter, patterns, (n - 1) as nat);
        let cur = passing_indices(events, level_filter, patterns, n);
        assert forall|i: int| 0 <= i < n implies (cur.contains(i as usize) <==> record_passes(
            level_filter,
            patterns,
            events[i].level,
            events[i].target@,
        )) by {
            if i < n - 1 {
                if cur.contains(i as usize) {
                    let k = choose|k: int| 0 <= k < cur.len() && cur[k] == i as usize;
                    if k < prev.len() {
                        assert(prev[k] == cur[k]);
                    }
                }
                if prev.contains(i as usize) {
                    let k = choose|k: int| 0 <= k < prev.len() && prev[k] == i as usize;
                    assert(cur[k] == prev[k]);
                }
            } else {
                if cur.contains(i as usize) {
                    let k = choose|k: int| 0 <= k < cur.len() && cur[k] == i as usize;
                    if k < prev.len() {
                        assert(prev[k] == cur[k]);
                    }
                }
                if record_passes(level_filter, patterns, events[i].level, events[i].target@) {
                    assert(cur[cur.len() - 1] == (n - 1) as usize);
                }
            }
        }
    }
}

/// A record passes iff its level's flag is set and its target passes the
/// patterns; with every flag cleared the filtered view is empty whatever is
/// retained.
pub proof fn lemma_level_filter(
    events: Seq<CollectedEvent>,
    level_filter: LevelFilter,
    patterns: Seq<Seq<char>>,
)
    requires
        events.len() <= usize::MAX,
    ensures
        forall|i: int|
            0 <= i < events.len() && !level_filter.allows(events[i].level) ==> !passing_indices(
                events,
                level_filter,
                patterns,
                events.len(),
            ).contains(i as usize),
        patterns.len() == 0 ==> forall|i: int|
            0 <= i < events.len() ==> (passing_indices(events, level_filter, patterns, events.len()).contains(
                i as usize,
            ) <==> level_filter.allows(events[i].level)),
        level_filter.blocks_all() ==> passing_indices(events, level_filter, patterns, events.len()).len()
            == 0,
{
    lemma_passing_indices(events, level_filter, patterns, events.len());
    let r = passing_indices(events, level_filter, patterns, events.len());
    if level_filter.blocks_all() && r.len() > 0 {
        let i = r[0] as int;
        assert(r.contains(r[0]));
        assert(!level_filter.allows(events[i].level));
    }
}

/// An empty pattern set lets every target pass; a non-empty one lets a target
/// pass iff at least one of its patterns matches it.
pub proof fn lemma_target_filter(
    events: Seq<CollectedEvent>,
    level_filter: LevelFilter,
    patterns: Seq<Seq<char>>,
)
    requires
        events.len() <= usize::MAX,
    ensures
        forall|t: Seq<char>| #[trigger] target_passes(Seq::<Seq<char>>::empty(), t),
        patterns.len() > 0 ==> forall|i: int|
            0 <= i < events.len() && level_filter.allows(events[i].level) ==> (passing_indices(
                events,
                level_filter,
                patterns,
                events.len(),
            ).contains(i as usize) <==> exists|j: int|
                0 <= j < patterns.len() && #[trigger] glob_matches(patterns[j], events[i].target@)),
{
    lemma_passing_indices(events, level_filter, patterns, events.len());
}

} // verus!
