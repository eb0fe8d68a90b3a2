use egui_tracing::{
    passes, CollectedEvent, DurationExt, Level, LevelFilter, MessageVisitor, NewSpan, State,
};

#[test]
fn event_without_message_is_skipped() {
    assert!(CollectedEvent::new("t".to_owned(), Level::Info, None, 5).is_none());
    let e = CollectedEvent::new("t".to_owned(), Level::Warn, Some("hi".to_owned()), 5).unwrap();
    assert_eq!(e.target, "t");
    assert_eq!(e.level, Level::Warn);
    assert_eq!(e.message, "hi");
    assert_eq!(e.time, 5);
    let copy = e.copy();
    assert_eq!(copy.message, "hi");
}

#[test]
fn message_visitor_keeps_only_message_field() {
    let mut v = MessageVisitor::new();
    v.record_debug("user", "\"bob\"".to_owned());
    assert_eq!(v.0, None);
    v.record_debug("message", "hello".to_owned());
    v.record_debug("count", "3".to_owned());
    assert_eq!(v.into_message(), Some("hello".to_owned()));
}

#[test]
fn new_span_keeps_its_fields() {
    let s = NewSpan::new(3, "n".to_owned(), "t".to_owned(), Level::Error, Some(1));
    assert_eq!(s.id, 3);
    assert_eq!(s.name, "n");
    assert_eq!(s.target, "t");
    assert_eq!(s.level, Level::Error);
    assert_eq!(s.parent, Some(1));
}

#[test]
fn level_filter_default_and_matches() {
    let f = LevelFilter::default();
    assert!(!f.matches(Level::Trace));
    assert!(f.matches(Level::Debug));
    assert!(f.matches(Level::Info));
    assert!(f.matches(Level::Warn));
    assert!(f.matches(Level::Error));
    let none = LevelFilter::none();
    for l in [Level::Trace, Level::Debug, Level::Info, Level::Warn, Level::Error] {
        assert!(!none.matches(l));
        assert!(LevelFilter::all().matches(l));
    }
}

#[test]
fn level_order_and_names() {
    assert!(Level::Error.at_least(&Level::Warn));
    assert!(!Level::Trace.at_least(&Level::Debug));
    assert!(Level::Info.at_least(&Level::Info));
    assert_eq!(Level::Warn.as_str(), "WARN");
    assert_eq!(Level::Trace.as_str(), "TRACE");
}

#[test]
fn filter_decision() {
    let f = LevelFilter::default();
    assert!(passes(&f, Level::Info, true, false));
    assert!(passes(&f, Level::Info, false, true));
    assert!(!passes(&f, Level::Info, false, false));
    assert!(!passes(&f, Level::Trace, true, true));
}

#[test]
fn default_state() {
    let s = State::default();
    assert_eq!(s.level_filter, LevelFilter::default());
    assert!(s.target_filter.targets.is_empty());
    assert_eq!(s.target_filter.input, "");
}

#[test]
fn display_ext_formats_clock() {
    assert_eq!(0u64.display_ext(), "00:00:00:000.000.000");
    let d: u64 = 3_723_004_005_006;
    assert_eq!(d.display_ext(), "01:02:03:004.005.006");
    let long: u64 = 100 * 3600 * 1_000_000_000 + 999_999_999;
    assert_eq!(long.display_ext(), "100:00:00:999.999.999");
    assert_eq!(u64::MAX.display_ext(), "5124095:34:33:709.551.615");
}
