use vstd::prelude::*;

use crate::level::Level;

verus! {

/// A span between its creation and its close. `start` holds the timer
/// reading of the current entry while the span is entered.
pub struct OpenSpan {
    pub name: String,
    pub target: String,
    pub level: Level,
    pub start: Option<u64>,
    pub parent: Option<u64>,
}

/// The latest completed interval of a span: `start` is the entry relative to
/// the collector's epoch, `duration` the time from entry to exit.
pub struct FinishedSpan {
    pub name: String,
    pub target: String,
    pub level: Level,
    pub start: u64,
    pub duration: u64,
    pub parent: Option<u64>,
}

/// The open spans, keyed by span id, in a `hashbrown::HashMap` that only the
/// methods below touch.
#[verifier::external_body]
pub struct OpenSpans {
    map: hashbrown::HashMap<u64, OpenSpan>,
}

/// The finished spans, keyed by span id, in a `hashbrown::HashMap` that only
/// the methods below touch.
#[verifier::external_body]
pub struct FinishedSpans {
    map: hashbrown::HashMap<u64, FinishedSpan>,
}

/// What an `OpenSpans` table holds.
pub uninterp spec fn open_span_map(t: OpenSpans) -> Map<u64, OpenSpan>;

/// What a `FinishedSpans` table holds.
pub uninterp spec fn finished_span_map(t: FinishedSpans) -> Map<u64, FinishedSpan>;

impl OpenSpans {
    /// Relies on `hashbrown::HashMap::new`: an empty map.
    #[verifier::external_body]
    pub(crate) fn new() -> (table: OpenSpans)
        ensures
            open_span_map(table).dom() == Set::<u64>::empty(),
    {
        OpenSpans { map: hashbrown::HashMap::new() }
    }

    /// Relies on `hashbrown::HashMap::insert`: `id` maps to `span` afterwards,
    /// every other key is untouched.
    #[verifier::external_body]
    pub(crate) fn insert(&mut self, id: u64, span: OpenSpan)
        ensures
            open_span_map(*final(self)) == open_span_map(*old(self)).insert(id, span),
    {
        self.map.insert(id, span);
    }

    /// Relies on `hashbrown::HashMap::remove`: takes out the entry of `id`, if any.
    #[verifier::external_body]
    pub(crate) fn remove(&mut self, id: u64) -> (r: Option<OpenSpan>)
        ensures
            open_span_map(*final(self)) == open_span_map(*old(self)).remove(id),
            open_span_map(*old(self)).contains_key(id) ==> r == Some(open_span_map(*old(self))[id]),
            !open_span_map(*old(self)).contains_key(id) ==> r is None,
    {
        self.map.remove(&id)
    }

    /// Relies on `hashbrown::HashMap::get`: the entry of `id`, if any.
    #[verifier::external_body]
    pub(crate) fn get(&self, id: u64) -> (r: Option<&OpenSpan>)
        ensures
            open_span_map(*self).contains_key(id) ==> r == Some(&open_span_map(*self)[id]),
            !open_span_map(*self).contains_key(id) ==> r is None,
    {
        self.map.get(&id)
    }
}

impl FinishedSpans {
    /// Relies on `hashbrown::HashMap::new`: an empty map.
    #[verifier::external_body]
    pub(crate) fn new() -> (table: FinishedSpans)
        ensures
            finished_span_map(table).dom() == Set::<u64>::empty(),
    {
        FinishedSpans { map: hashbrown::HashMap::new() }
    }

    /// Relies on `hashbrown::HashMap::insert`: `id` maps to `span` afterwards,
    /// replacing any earlier entry; every other key is untouched.
    #[verifier::external_body]
    pub(crate) fn insert(&mut self, id: u64, span: FinishedSpan)
        ensures
            finished_span_map(*final(self)) == finished_span_map(*old(self)).insert(id, span),
    {
        self.map.insert(id, span);
    }

    /// Relies on `hashbrown::HashMap::get`: the entry of `id`, if any.
    #[verifier::external_body]
    pub(crate) fn get(&self, id: u64) -> (r: Option<&FinishedSpan>)
        ensures
            finished_span_map(*self).contains_key(id) ==> r == Some(&finished_span_map(*self)[id]),
            !finished_span_map(*self).contains_key(id) ==> r is None,
    {
        self.map.get(&id)
    }
}

/// Where a span stands in its life cycle, as far as the protocol checks go.
#[derive(Clone, Copy, Debug, PartialEq, Eq, Structural)]
pub enum SpanStage {
    /// Never created, or closed.
    Absent,
    /// Created and not currently entered.
    Open,
    /// Currently entered.
    Entered,
}

/// Life-cycle stages of spans, keyed by span id, in a `hashbrown::HashMap`
/// that only the methods below touch.
#[verifier::external_body]
pub struct SpanStatuses {
    map: hashbrown::HashMap<u64, SpanStage>,
}

/// What a `SpanStatuses` table holds.
pub uninterp spec fn status_map(t: SpanStatuses) -> Map<u64, SpanStage>;

impl SpanStatuses {
    /// Relies on `hashbrown::HashMap::new`: an empty map.
    #[verifier::external_body]
    pub(crate) fn new() -> (table: SpanStatuses)
        ensures
            status_map(table).dom() == Set::<u64>::empty(),
    {
        SpanStatuses { map: hashbrown::HashMap::new() }
    }

    /// Relies on `hashbrown::HashMap::insert`: `id` maps to `status`
    /// afterwards, every other key is untouched.
    #[verifier::external_body]
    pub(crate) fn insert(&mut self, id: u64, status: SpanStage)
        ensures
            status_map(*final(self)) == status_map(*old(self)).insert(id, status),
    {
        self.map.insert(id, status);
    }

    /// Relies on `hashbrown::HashMap::get`: the entry of `id`, if any, copied out.
    #[verifier::external_body]
    pub(crate) fn get(&self, id: u64) -> (r: Option<SpanStage>)
        ensures
            status_map(*self).contains_key(id) ==> r == Some(status_map(*self)[id]),
            !status_map(*self).contains_key(id) ==> r is None,
    {
        self.map.get(&id).copied()
    }
}

} // verus!
