use forge_scan::handler::{parse_handler, resolve_functions, Error, FunctionRef, Resolved, Unresolved};
use forge_scan::manifest::{AuthProviders, FunctionMod, FunctionTy};

#[test]
fn parse_handler_splits_module_and_export() {
    let loc = parse_handler("index.run", "k").ok().unwrap();
    assert_eq!(loc.path(), "src/index");
    assert_eq!(loc.func(), "run");
    assert_eq!(loc.key, "k");
    assert_eq!(loc.status, Unresolved);
}

#[test]
fn parse_handler_without_period_fails() {
    let err = parse_handler("noperiod", "k").err().unwrap();
    assert_eq!(err, Error::InvalidHandler("k".to_string()));
}

#[test]
fn parse_handler_splits_at_first_period() {
    let loc = parse_handler("lib/util.a.b", "k").ok().unwrap();
    assert_eq!(loc.path(), "src/lib/util");
    assert_eq!(loc.func(), "a.b");
}

#[test]
fn try_from_reads_function_module() {
    let f = FunctionMod {
        key: "my-function".to_string(),
        handler: "my-function-handler.app".to_string(),
        providers: Some(AuthProviders { auth: vec!["my-auth-provider".to_string()] }),
    };
    let loc = FunctionRef::try_from(&f).ok().unwrap();
    assert_eq!(
        loc,
        FunctionRef {
            func: "app".to_string(),
            key: "my-function".to_string(),
            path: "src/my-function-handler".to_string(),
            status: Unresolved,
        }
    );
}

#[test]
fn test_function_handler_parsing() {
    let f = FunctionMod {
        key: "my-function".to_string(),
        handler: "my-function-handler".to_string(),
        providers: None,
    };
    let err = FunctionRef::try_from(&f).err().unwrap();
    assert_eq!(err, Error::InvalidHandler("my-function".to_string()));
}

#[test]
fn resolve_finds_tsx() {
    let loc = parse_handler("index.run", "k").ok().unwrap();
    let files = vec!["src/index.tsx".to_string()];
    let res = loc.try_resolve(&files, "").ok().unwrap();
    assert_eq!(res.path(), "src/index.tsx");
    assert_eq!(res.func(), "run");
    assert_eq!(res.status, Resolved);
    assert_eq!(res.into_func_path(), ("run".to_string(), "src/index.tsx".to_string()));
}

#[test]
fn resolve_prefers_jsx_over_js() {
    let loc = parse_handler("index.run", "k").ok().unwrap();
    let files = vec!["app/src/index.js".to_string(), "app/src/index.jsx".to_string()];
    let res = loc.try_resolve(&files, "app").ok().unwrap();
    assert_eq!(res.path(), "app/src/index.jsx");
}

#[test]
fn resolve_joins_working_dir_with_trailing_slash() {
    let loc = parse_handler("index.run", "k").ok().unwrap();
    let files = vec!["/work/src/index.ts".to_string()];
    let res = loc.try_resolve(&files, "/work/").ok().unwrap();
    assert_eq!(res.path(), "/work/src/index.ts");
}

#[test]
fn resolve_failure_cites_jsx_first() {
    let loc = parse_handler("index.run", "k").ok().unwrap();
    let files = vec!["src/other.ts".to_string()];
    let err = loc.try_resolve(&files, "").err().unwrap();
    assert_eq!(
        err,
        Error::HandlerFileNotFound { function: "run".to_string(), path: "src/index.jsx".to_string() }
    );
}

#[test]
fn new_keeps_its_parts() {
    let loc = FunctionRef::new("run", "k", "src/index".to_string());
    assert_eq!(loc.func(), "run");
    assert_eq!(loc.path(), "src/index");
}

#[test]
fn resolve_functions_collects_each_result() {
    let make = |key: &str, handler: &str| FunctionMod {
        key: key.to_string(),
        handler: handler.to_string(),
        providers: None,
    };
    let functions = vec![
        FunctionTy::Invokable(make("bad", "nodot")),
        FunctionTy::WebTrigger(make("hook", "hooks.run")),
        FunctionTy::Invokable(make("missing", "gone.run")),
    ];
    let files = vec!["src/hooks.js".to_string()];
    let out = resolve_functions(&functions, &files, "");
    assert_eq!(out.len(), 3);
    match &out[0] {
        FunctionTy::Invokable(Err(e)) => assert_eq!(*e, Error::InvalidHandler("bad".to_string())),
        other => panic!("unexpected {:?}", other),
    }
    match &out[1] {
        FunctionTy::WebTrigger(Ok(r)) => assert_eq!(r.path(), "src/hooks.js"),
        other => panic!("unexpected {:?}", other),
    }
    match &out[2] {
        FunctionTy::Invokable(Err(e)) => assert_eq!(
            *e,
            Error::HandlerFileNotFound { function: "run".to_string(), path: "src/gone.jsx".to_string() }
        ),
        other => panic!("unexpected {:?}", other),
    }
}
