use forge_scan::handler::{FunctionRef, Unresolved};
use forge_scan::manifest::{
    Consumer, EventTrigger, ForgeModules, FunctionMod, FunctionTy, Interval, Module, RawTrigger,
    Resolver, ScheduledTrigger,
};

fn function(key: &str) -> FunctionMod {
    FunctionMod { key: key.to_string(), handler: format!("index.{}", key), providers: None }
}

fn trigger(key: &str, function: &str) -> RawTrigger {
    RawTrigger { key: key.to_string(), function: function.to_string() }
}

fn consumer(function: &str) -> Consumer {
    Consumer {
        key: format!("{}-consumer", function),
        queue: "queue".to_string(),
        resolver: Some(Resolver { function: function.to_string(), method: None }),
    }
}

fn modules(functions: &[&str]) -> ForgeModules {
    ForgeModules {
        functions: functions.iter().map(|k| function(k)).collect(),
        webtriggers: vec![],
        event_triggers: vec![],
        scheduled_triggers: vec![],
        consumers: vec![],
        extra: vec![],
    }
}

fn keys(out: &[FunctionTy<FunctionMod>]) -> Vec<String> {
    out.iter().map(|f| f.as_ref().key.clone()).collect()
}

#[test]
fn scheduled_and_event_functions_are_omitted() {
    let mut m = modules(&["a", "b", "c"]);
    m.scheduled_triggers.push(ScheduledTrigger { raw: trigger("s", "a"), interval: Some(Interval::Hour) });
    m.event_triggers.push(EventTrigger { raw: trigger("e", "b"), events: vec!["created".to_string()] });
    let out = m.into_analyzable_functions();
    assert_eq!(keys(&out), vec!["c".to_string()]);
}

#[test]
fn ignore_takes_precedence_over_webtrigger() {
    let mut m = modules(&["a"]);
    m.webtriggers.push(trigger("w", "a"));
    m.scheduled_triggers.push(ScheduledTrigger { raw: trigger("s", "a"), interval: Some(Interval::Week) });
    m.extra.push((
        "jira:issuePanel".to_string(),
        vec![Module { function: Some("a".to_string()), resolver: None }],
    ));
    assert!(m.into_analyzable_functions().is_empty());
}

#[test]
fn internal_consumer_is_omitted() {
    let mut m = modules(&["worker", "other"]);
    m.consumers.push(consumer("worker"));
    let out = m.into_analyzable_functions();
    assert_eq!(keys(&out), vec!["other".to_string()]);
}

#[test]
fn consumer_named_by_extension_module_is_kept() {
    let mut m = modules(&["worker"]);
    m.consumers.push(consumer("worker"));
    m.extra.push((
        "jira:issuePanel".to_string(),
        vec![Module {
            function: None,
            resolver: Some(Resolver { function: "worker".to_string(), method: None }),
        }],
    ));
    let out = m.into_analyzable_functions();
    assert_eq!(out, vec![FunctionTy::Invokable(function("worker"))]);
}

#[test]
fn webtrigger_and_unreferenced_functions_are_tagged() {
    let mut m = modules(&["hook", "plain"]);
    m.webtriggers.push(trigger("w", "hook"));
    let out = m.into_analyzable_functions();
    assert_eq!(
        out,
        vec![FunctionTy::WebTrigger(function("hook")), FunctionTy::Invokable(function("plain"))]
    );
}

#[test]
fn is_ignored_reports_each_reason() {
    let mut m = modules(&["a"]);
    m.scheduled_triggers.push(ScheduledTrigger { raw: trigger("s", "sched"), interval: Some(Interval::Day) });
    m.event_triggers.push(EventTrigger { raw: trigger("e", "evt"), events: vec![] });
    m.consumers.push(consumer("queue-only"));
    m.consumers.push(consumer("exposed"));
    m.extra.push((
        "macro".to_string(),
        vec![Module { function: Some("exposed".to_string()), resolver: None }],
    ));
    assert!(m.is_ignored(&"sched".to_string()));
    assert!(m.is_ignored(&"evt".to_string()));
    assert!(m.is_ignored(&"queue-only".to_string()));
    assert!(!m.is_ignored(&"exposed".to_string()));
    assert!(!m.is_ignored(&"a".to_string()));
}

#[test]
fn empty_modules_give_nothing() {
    assert!(modules(&[]).into_analyzable_functions().is_empty());
}

#[test]
fn exposed_consumer_is_reported_once_with_its_location() {
    let mut m = modules(&[]);
    m.functions.push(FunctionMod { key: "q".to_string(), handler: "index.run".to_string(), providers: None });
    m.consumers.push(consumer("q"));
    m.extra.push((
        "jira:adminPage".to_string(),
        vec![Module { function: Some("q".to_string()), resolver: None }],
    ));
    let out = m.into_analyzable_functions();
    assert_eq!(out.len(), 1);
    match &out[0] {
        FunctionTy::Invokable(f) => {
            let loc: FunctionRef<Unresolved> = FunctionRef::try_from(f).ok().unwrap();
            assert_eq!(loc.key, "q");
            assert_eq!(loc.func(), "run");
            assert_eq!(loc.path(), "src/index");
        }
        other => panic!("unexpected {:?}", other),
    }
}

#[test]
fn map_keeps_the_tag() {
    let w: FunctionTy<FunctionMod> = FunctionTy::WebTrigger(function("hook"));
    assert_eq!(w.map(|f| f.key), FunctionTy::WebTrigger("hook".to_string()));
    let i: FunctionTy<FunctionMod> = FunctionTy::Invokable(function("plain"));
    assert_eq!(i.map(|f| f.handler.len()), FunctionTy::Invokable("index.plain".len()));
}

#[test]
fn consumer_without_resolver_names_nothing() {
    let mut m = modules(&["a"]);
    m.consumers.push(Consumer { key: "c".to_string(), queue: "q".to_string(), resolver: None });
    assert_eq!(keys(&m.into_analyzable_functions()), vec!["a".to_string()]);
}
