use egui_tracing::{
    ClosedSpan, CollectedEvent, CollectedTracings, EguiTracing, EnterSpan, ExitSpan, FilterError,
    Level, LevelFilter, NewSpan, SpanError, TargetFilter, TransportQueue, DEFAULT_CAPACITY,
};

fn event(target: &str, level: Level, message: &str, time: u64) -> CollectedTracings {
    let e = CollectedEvent::new(target.to_owned(), level, Some(message.to_owned()), time).unwrap();
    CollectedTracings::Event(e)
}

fn new_span(id: u64, name: &str) -> CollectedTracings {
    CollectedTracings::NewSpan(NewSpan::new(id, name.to_owned(), "app::work".to_owned(), Level::Info, None))
}

fn enter(id: u64, time: u64) -> CollectedTracings {
    CollectedTracings::EnterSpan(EnterSpan::new(id, time))
}

fn exit(id: u64, time: u64) -> CollectedTracings {
    CollectedTracings::ExitSpan(ExitSpan::new(id, time))
}

fn close(id: u64) -> CollectedTracings {
    CollectedTracings::ClosedSpan(ClosedSpan::new(id))
}

fn messages(c: &EguiTracing) -> Vec<String> {
    (0..c.len()).map(|i| c.event(i).unwrap().message.clone()).collect()
}

fn ingest(c: &mut EguiTracing, batch: Vec<CollectedTracings>) {
    assert_eq!(c.breach(&batch), None);
    c.ingest(batch);
}

fn filtered_targets(c: &EguiTracing) -> Vec<(String, Level)> {
    c.filtered()
        .into_iter()
        .map(|i| {
            let e = c.event(i).unwrap();
            (e.target.clone(), e.level)
        })
        .collect()
}

#[test]
fn span_entered_at_10_exited_at_25() {
    let mut c = EguiTracing::new(8);
    let batch = vec![new_span(1, "S"), enter(1, 10), exit(1, 25), close(1)];
    ingest(&mut c, batch);
    let f = c.finished_span(1).unwrap();
    assert_eq!(f.start, 10);
    assert_eq!(f.duration, 15);
    assert_eq!(f.name, "S");
    assert_eq!(f.target, "app::work");
    assert_eq!(f.level, Level::Info);
    assert!(c.open_span(1).is_none());
}

#[test]
fn span_start_is_relative_to_epoch() {
    let mut c = EguiTracing::new_with_timer(8, 100);
    let batch = vec![new_span(7, "S"), enter(7, 130), exit(7, 170)];
    ingest(&mut c, batch);
    let f = c.finished_span(7).unwrap();
    assert_eq!(f.start, 30);
    assert_eq!(f.duration, 40);
    let open = c.open_span(7).unwrap();
    assert_eq!(open.start, None);
}

#[test]
fn span_keeps_its_parent() {
    let mut c = EguiTracing::new(8);
    let child = CollectedTracings::NewSpan(NewSpan::new(2, "child".to_owned(), "t".to_owned(), Level::Debug, Some(1)));
    ingest(&mut c, vec![new_span(1, "parent"), child, enter(2, 5), exit(2, 6)]);
    assert_eq!(c.finished_span(2).unwrap().parent, Some(1));
    assert_eq!(c.finished_span(2).unwrap().level, Level::Debug);
}

#[test]
fn reentry_keeps_only_latest_interval() {
    let mut c = EguiTracing::new(8);
    let batch = vec![new_span(3, "S"), enter(3, 10), exit(3, 20), enter(3, 50), exit(3, 58)];
    ingest(&mut c, batch);
    let f = c.finished_span(3).unwrap();
    assert_eq!(f.start, 50);
    assert_eq!(f.duration, 8);
}

#[test]
fn enter_before_create_is_reported() {
    let c = EguiTracing::new(8);
    assert_eq!(c.check(&enter(4, 1)), Err(SpanError::EnteredBeforeCreated { id: 4 }));
    assert_eq!(c.breach(&vec![enter(4, 1)]), Some(SpanError::EnteredBeforeCreated { id: 4 }));
}

#[test]
fn exit_before_enter_is_reported() {
    let mut c = EguiTracing::new(8);
    c.process(new_span(5, "S"));
    assert_eq!(c.check(&exit(5, 3)), Err(SpanError::ExitedWithoutEntering { id: 5 }));
    assert_eq!(c.check(&exit(6, 3)), Err(SpanError::ExitedBeforeCreated { id: 6 }));
    let again = vec![enter(5, 1), exit(5, 2), exit(5, 3)];
    assert_eq!(c.breach(&again), Some(SpanError::ExitedWithoutEntering { id: 5 }));
    assert!(c.finished_span(5).is_none());
}

#[test]
fn close_without_create_is_reported() {
    let c = EguiTracing::new(8);
    let e = c.check(&close(8)).unwrap_err();
    assert_eq!(e, SpanError::ClosedBeforeCreated { id: 8 });
    assert_eq!(e.id(), 8);
    assert_eq!(e.message(), "Span was closed before creating it");
    let twice = vec![new_span(8, "S"), close(8), close(8)];
    assert_eq!(c.breach(&twice), Some(SpanError::ClosedBeforeCreated { id: 8 }));
}

#[test]
fn double_create_and_double_enter_are_reported() {
    let mut c = EguiTracing::new(8);
    c.process(new_span(1, "S"));
    assert_eq!(c.check(&new_span(1, "S")), Err(SpanError::CreatedTwice { id: 1 }));
    c.process(enter(1, 4));
    assert_eq!(c.check(&enter(1, 5)), Err(SpanError::EnteredTwice { id: 1 }));
    assert_eq!(c.open_span(1).unwrap().start, Some(4));
}

#[test]
fn breach_is_found_after_valid_prefix() {
    let c = EguiTracing::new(8);
    let batch = vec![event("a", Level::Info, "one", 1), new_span(2, "S"), close(2), enter(2, 3)];
    assert_eq!(c.breach(&batch), Some(SpanError::EnteredBeforeCreated { id: 2 }));
    let fine = vec![new_span(2, "S"), enter(2, 1), exit(2, 2), enter(2, 3), exit(2, 4), close(2)];
    assert_eq!(c.breach(&fine), None);
    assert_eq!(c.len(), 0);
}

#[test]
fn events_drains_queue_in_push_order() {
    let (mut c, mut q) = EguiTracing::with_queue(4);
    q.push(event("t", Level::Info, "E1", 1));
    q.push(event("t", Level::Info, "E2", 2));
    q.push(event("t", Level::Info, "E3", 3));
    let got: Vec<String> = c.events(&mut q).into_iter().map(|e| e.message).collect();
    assert_eq!(got, vec!["E1".to_owned(), "E2".to_owned(), "E3".to_owned()]);
    assert_eq!(q.len(), 0);
    assert!(c.events(&mut q).len() == 3);
}

#[test]
fn events_keeps_last_capacity_of_overflowing_pushes() {
    let (mut c, mut q) = EguiTracing::with_queue(3);
    for k in 0..5u64 {
        q.push(event("t", Level::Info, &format!("E{}", k), k));
    }
    let got: Vec<String> = c.events(&mut q).into_iter().map(|e| e.message).collect();
    assert_eq!(got, vec!["E2".to_owned(), "E3".to_owned(), "E4".to_owned()]);
}

#[test]
fn capacity_two_retains_last_two_events() {
    let mut q = TransportQueue::new(2);
    let mut c = EguiTracing::new(2);
    q.push(event("t", Level::Info, "E1", 1));
    q.push(event("t", Level::Info, "E2", 2));
    q.push(event("t", Level::Info, "E3", 3));
    c.fetch_tracings(&mut q);
    assert_eq!(messages(&c), vec!["E2".to_owned(), "E3".to_owned()]);
    assert_eq!(q.len(), 0);
}

#[test]
fn history_evicts_oldest_once_full() {
    let mut c = EguiTracing::new(2);
    let batch = vec![
        event("t", Level::Info, "E1", 1),
        event("t", Level::Info, "E2", 2),
        event("t", Level::Info, "E3", 3),
    ];
    ingest(&mut c, batch);
    assert_eq!(c.len(), 2);
    assert_eq!(c.event(0).unwrap().message, "E2");
    assert_eq!(c.event(1).unwrap().message, "E3");
    assert_eq!(c.event(1).unwrap().time, 3);
    assert!(c.event(2).is_none());
}

#[test]
fn level_and_target_filters_scenario() {
    let mut c = EguiTracing::new(8);
    let batch = vec![
        event("a::b", Level::Info, "m1", 1),
        event("a::c", Level::Warn, "m2", 2),
        event("z", Level::Error, "m3", 3),
    ];
    ingest(&mut c, batch);
    let mut mask = LevelFilter::all();
    mask.info = false;
    c.set_level_filter(mask);
    assert!(c.add_target("a::*").is_ok());
    assert_eq!(filtered_targets(&c), vec![("a::c".to_owned(), Level::Warn)]);
}

#[test]
fn all_levels_off_gives_empty_view() {
    let mut c = EguiTracing::new(8);
    let batch = vec![
        event("a", Level::Trace, "m", 1),
        event("b", Level::Debug, "m", 2),
        event("c", Level::Info, "m", 3),
        event("d", Level::Warn, "m", 4),
        event("e", Level::Error, "m", 5),
    ];
    ingest(&mut c, batch);
    c.set_level_filter(LevelFilter::all());
    assert_eq!(c.filtered(), vec![0, 1, 2, 3, 4]);
    c.set_level_filter(LevelFilter::none());
    assert!(c.filtered().is_empty());
}

#[test]
fn default_level_filter_hides_trace() {
    let mut c = EguiTracing::new(8);
    let batch = vec![event("a", Level::Trace, "m", 1), event("a", Level::Debug, "m", 2)];
    ingest(&mut c, batch);
    assert_eq!(c.filtered(), vec![1]);
}

#[test]
fn empty_pattern_set_matches_every_target() {
    let mut c = EguiTracing::new(8);
    let batch = vec![event("x::y", Level::Info, "m", 1), event("", Level::Warn, "m", 2)];
    ingest(&mut c, batch);
    assert_eq!(c.filtered(), vec![0, 1]);
}

#[test]
fn target_matches_any_of_several_patterns() {
    let mut c = EguiTracing::new(8);
    let batch = vec![
        event("net::tcp", Level::Info, "m", 1),
        event("db::pool", Level::Info, "m", 2),
        event("ui::paint", Level::Info, "m", 3),
    ];
    ingest(&mut c, batch);
    assert!(c.add_target("net::*").is_ok());
    assert_eq!(c.filtered(), vec![0]);
    assert!(c.add_target("ui::*").is_ok());
    assert_eq!(c.filtered(), vec![0, 2]);
    assert!(c.remove_target(0).is_ok());
    assert_eq!(c.filtered(), vec![2]);
    assert_eq!(c.state().target_filter.targets.len(), 1);
    assert_eq!(c.state().target_filter.targets[0], "ui::*");
}

#[test]
fn invalid_pattern_leaves_filter_unchanged() {
    let mut c = EguiTracing::new(8);
    ingest(&mut c, vec![event("a::b", Level::Info, "m", 1), event("q", Level::Info, "m", 2)]);
    assert!(c.add_target("a::*").is_ok());
    let r = c.add_target("a::[");
    assert!(matches!(r, Err(FilterError::InvalidPattern(_))));
    assert_eq!(c.state().target_filter.targets.len(), 1);
    assert_eq!(c.filtered(), vec![0]);
}

#[test]
fn submit_input_adds_pattern_and_clears_input() {
    let mut c = EguiTracing::new(8);
    c.set_input("{a,b".to_owned());
    assert!(matches!(c.submit_input(), Err(FilterError::InvalidPattern(_))));
    assert_eq!(c.state().target_filter.input, "{a,b");
    c.set_input("core::*".to_owned());
    assert!(c.submit_input().is_ok());
    assert_eq!(c.state().target_filter.input, "");
    assert_eq!(c.state().target_filter.targets[0], "core::*");
}

#[test]
fn update_globset_replaces_the_pattern_set() {
    let mut c = EguiTracing::new(8);
    ingest(&mut c, vec![event("a", Level::Info, "m", 1), event("b", Level::Info, "m", 2)]);
    let bad = TargetFilter { input: "x".to_owned(), targets: vec!["b".to_owned(), "[".to_owned()] };
    assert!(matches!(c.update_globset(bad), Err(FilterError::InvalidPattern(_))));
    assert_eq!(c.state().target_filter.input, "");
    let tf = TargetFilter { input: "pending".to_owned(), targets: vec!["b".to_owned()] };
    assert!(c.update_globset(tf).is_ok());
    assert_eq!(c.filtered(), vec![1]);
    assert_eq!(c.state().target_filter.input, "pending");
    assert!(c.update_globset(TargetFilter::default()).is_ok());
    assert_eq!(c.filtered(), vec![0, 1]);
}

#[test]
fn default_collector_has_default_capacity() {
    let c = EguiTracing::default();
    assert_eq!(DEFAULT_CAPACITY, 50000);
    assert!(c.state().target_filter.targets.is_empty());
    assert_eq!(c.len(), 0);
    assert_eq!(c.level_filter(), LevelFilter::default());
}
