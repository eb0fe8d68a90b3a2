use vstd::prelude::*;

use globset::{Glob, GlobSet, GlobSetBuilder};

use crate::level::{Level, LevelFilter};

verus! {

#[verifier::external_type_specification]
#[verifier::external_body]
pub struct ExGlob(Glob);

#[verifier::external_type_specification]
#[verifier::external_body]
pub struct ExGlobSet(GlobSet);

#[verifier::external_type_specification]
#[verifier::external_body]
pub struct ExGlobSetBuilder(GlobSetBuilder);

#[verifier::external_type_specification]
#[verifier::external_body]
pub struct ExGlobError(globset::Error);

/// The pattern text `p` of a glob that `Glob::new(p)` built. Only such globs,
/// built with the default options, are made and handled here.
pub uninterp spec fn glob_text(g: Glob) -> Seq<char>;

/// Whether `Glob::new` accepts the pattern `p`.
pub uninterp spec fn glob_valid(p: Seq<char>) -> bool;

/// Whether the glob that `Glob::new(p)` builds matches the target `t`.
pub uninterp spec fn glob_matches(p: Seq<char>, t: Seq<char>) -> bool;

/// Whether `GlobSetBuilder::build` succeeds on globs built from `ps`: it fails
/// only when the combined matcher exceeds its size limits.
pub uninterp spec fn set_builds(ps: Seq<Seq<char>>) -> bool;

/// The patterns of the globs added to a `GlobSetBuilder`, in order.
pub uninterp spec fn builder_patterns(b: GlobSetBuilder) -> Seq<Seq<char>>;

/// The patterns a `GlobSet` was compiled from, in order.
pub uninterp spec fn set_patterns(s: GlobSet) -> Seq<Seq<char>>;

/// Relies on `Glob::new`: it succeeds exactly on valid patterns, and the glob
/// keeps the text it was built from (`Glob::glob`).
#[verifier::external_body]
fn parse_glob(p: &str) -> (r: Result<Glob, globset::Error>)
    ensures
        r is Ok <==> glob_valid(p@),
        r matches Ok(g) ==> glob_text(g) == p@,
{
    Glob::new(p)
}

/// Relies on `GlobSetBuilder::new`: a builder holding no pattern.
#[verifier::external_body]
fn builder_new() -> (b: GlobSetBuilder)
    ensures
        builder_patterns(b) == Seq::<Seq<char>>::empty(),
{
    GlobSetBuilder::new()
}

/// Relies on `GlobSetBuilder::add`: appends the glob to the builder's patterns.
#[verifier::external_body]
fn builder_add(b: &mut GlobSetBuilder, g: Glob)
    ensures
        builder_patterns(*final(b)) == builder_patterns(*old(b)).push(glob_text(g)),
{
    b.add(g);
}

/// Relies on `GlobSetBuilder::build`: a set of the builder's patterns; whether
/// it succeeds depends on those patterns alone (regex size limits).
#[verifier::external_body]
fn builder_build(b: &GlobSetBuilder) -> (r: Result<GlobSet, globset::Error>)
    ensures
        r is Ok <==> set_builds(builder_patterns(*b)),
        r matches Ok(s) ==> set_patterns(s) == builder_patterns(*b),
{
    b.build()
}

/// Relies on `GlobSet::empty`: a set of no pattern.
#[verifier::external_body]
fn globset_empty() -> (s: GlobSet)
    ensures
        set_patterns(s) == Seq::<Seq<char>>::empty(),
{
    GlobSet::empty()
}

/// Relies on `GlobSet::is_match`: true iff some pattern of the set matches.
#[verifier::external_body]
fn globset_is_match(set: &GlobSet, t: &str) -> (r: bool)
    ensures
        r == (exists|i: int| 0 <= i < set_patterns(*set).len() && glob_matches(set_patterns(*set)[i], t@)),
{
    set.is_match(t)
}

/// Relies on `GlobSet::is_empty`: true iff the set holds no pattern.
#[verifier::external_body]
fn globset_is_empty(set: &GlobSet) -> (r: bool)
    ensures
        r == (set_patterns(*set).len() == 0),
{
    set.is_empty()
}

/// Whether one of `patterns` matches `target`.
pub open spec fn some_pattern_matches(patterns: Seq<Seq<char>>, target: Seq<char>) -> bool {
    exists|i: int| 0 <= i < patterns.len() && #[trigger] glob_matches(patterns[i], target)
}

/// Whether a record's target passes a pattern set: every target passes an
/// empty set, and otherwise the target must match one of its patterns.
pub open spec fn target_passes(patterns: Seq<Seq<char>>, target: Seq<char>) -> bool {
    patterns.len() == 0 || some_pattern_matches(patterns, target)
}

/// Whether a record of `level` and `target` passes both filters.
pub open spec fn record_passes(
    level_filter: LevelFilter,
    patterns: Seq<Seq<char>>,
    level: Level,
    target: Seq<char>,
) -> bool {
    level_filter.allows(level) && target_passes(patterns, target)
}

/// The filter decision, given what the compiled matcher said of the target:
/// `no_patterns` when the set is empty, `target_matched` when a pattern matched.
pub fn passes(level_filter: &LevelFilter, level: Level, no_patterns: bool, target_matched: bool) -> (r: bool)
    ensures
        r == (level_filter.allows(level) && (no_patterns || target_matched)),
{
    level_filter.matches(level) && (no_patterns || target_matched)
}

/// The characters of each string of `v`, in order.
pub open spec fn texts(v: Seq<String>) -> Seq<Seq<char>> {
    v.map_values(|s: String| s@)
}

/// Whether every pattern of `ps` is a valid glob.
pub open spec fn all_valid(ps: Seq<Seq<char>>) -> bool {
    forall|i: int| 0 <= i < ps.len() ==> #[trigger] glob_valid(ps[i])
}

/// Why a change of the target patterns was refused; the filter is left as it was.
pub enum FilterError {
    /// A pattern is not a valid glob.
    InvalidPattern(globset::Error),
    /// The patterns could not be compiled into one matcher.
    Compile(globset::Error),
}

/// A compiled matcher over a list of glob patterns.
pub struct TargetMatcher {
    set: GlobSet,
}

impl TargetMatcher {
    /// The patterns the matcher was compiled from.
    pub closed spec fn patterns(&self) -> Seq<Seq<char>> {
        set_patterns(self.set)
    }

    /// A matcher of no pattern: it lets every target pass.
    pub fn empty() -> (r: Self)
        ensures
            r.patterns() == Seq::<Seq<char>>::empty(),
    {
        TargetMatcher { set: globset_empty() }
    }

    /// Compiles `patterns` into one matcher. It fails with `InvalidPattern`
    /// iff some pattern is not a valid glob, and succeeds iff, besides, the
    /// combined matcher can be built.
    pub fn compile(patterns: &Vec<String>) -> (r: Result<Self, FilterError>)
        ensures
            r matches Err(FilterError::InvalidPattern(_)) <==> !all_valid(texts(patterns@)),
            r is Ok <==> all_valid(texts(patterns@)) && set_builds(texts(patterns@)),
            r matches Ok(m) ==> m.patterns() == texts(patterns@),
    {
        let mut builder = builder_new();
        let mut i: usize = 0;
        while i < patterns.len()
            invariant
                0 <= i <= patterns.len(),
                builder_patterns(builder) == texts(patterns@.subrange(0, i as int)),
                forall|j: int| 0 <= j < i ==> #[trigger] glob_valid(texts(patterns@)[j]),
            decreases patterns.len() - i,
        {
            let g = match parse_glob(patterns[i].as_str()) {
                Ok(g) => g,
                Err(e) => {
                    assert(!glob_valid(texts(patterns@)[i as int]));
                    return Err(FilterError::InvalidPattern(e));
                },
            };
            builder_add(&mut builder, g);
            assert(texts(patterns@.subrange(0, i + 1)) =~= texts(patterns@.subrange(0, i as int)).push(
                patterns@[i as int]@,
            ));
            i = i + 1;
        }
        assert(patterns@.subrange(0, patterns.len() as int) =~= patterns@);
        match builder_build(&builder) {
            Ok(set) => Ok(TargetMatcher { set }),
            Err(e) => Err(FilterError::Compile(e)),
        }
    }

    /// Whether the matcher holds no pattern.
    pub fn is_empty(&self) -> (r: bool)
        ensures
            r == (self.patterns().len() == 0),
    {
        globset_is_empty(&self.set)
    }

    /// Whether one of the matcher's patterns matches `target`.
    pub fn is_match(&self, target: &str) -> (r: bool)
        ensures
            r == some_pattern_matches(self.patterns(), target@),
    {
        globset_is_match(&self.set, target)
    }
}

/// The glob patterns records are filtered by, as text, and the text being
/// typed for the next one.
pub struct TargetFilter {
    pub input: String,
    pub targets: Vec<String>,
}

impl TargetFilter {
    pub open spec fn patterns(&self) -> Seq<Seq<char>> {
        texts(self.targets@)
    }
}

impl Default for TargetFilter {
    fn default() -> (r: TargetFilter)
        ensures
            r.input@ == Seq::<char>::empty(),
            r.targets@ == Seq::<String>::empty(),
    {
        TargetFilter { input: String::new(), targets: Vec::new() }
    }
}

/// The filter settings: a level mask and a target pattern set.
pub struct State {
    pub level_filter: LevelFilter,
    pub target_filter: TargetFilter,
}

impl Default for State {
    fn default() -> (r: State)
        ensures
            r.level_filter == (LevelFilter { trace: false, debug: true, info: true, warn: true, error: true }),
            r.target_filter.input@ == Seq::<char>::empty(),
            r.target_filter.targets@ == Seq::<String>::empty(),
    {
        State { level_filter: LevelFilter::default(), target_filter: TargetFilter::default() }
    }
}

} // verus!
