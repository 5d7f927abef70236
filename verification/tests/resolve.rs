use envlt::args::ImportMode;
use envlt::error::Error;
use envlt::json::Json;
use envlt::resolver::{Resolver, Step};
use envlt::vars::{FetchRequest, Vars};

fn s(x: &str) -> String {
    x.to_owned()
}

fn pairs(items: &[(&str, &str)]) -> Vec<(String, String)> {
    items.iter().map(|(a, b)| (s(a), s(b))).collect()
}

fn strings(items: &[&str]) -> Vec<String> {
    items.iter().map(|x| s(x)).collect()
}

/// Drives a resolver to completion, answering every fetch through
/// `fetch`, and reports the outcome and how many fetches were made.
fn run(
    ambient: Vec<(String, String)>,
    exprs: Vec<String>,
    mode: ImportMode,
    fetch: &dyn Fn(&FetchRequest) -> Result<Json, String>,
) -> (Result<Vars, Error>, usize) {
    let mut r = Resolver::new(ambient, exprs, mode);
    let mut fetches = 0usize;
    loop {
        match r.step() {
            Step::Continue => {}
            Step::Done => break,
            Step::Failed => break,
            Step::IsLogged(_role) => r.provide_is_logged(true),
            Step::Login(_role) => r.provide_login(Ok(())),
            Step::Fetch(req) => {
                fetches += 1;
                let answer = fetch(&req);
                r.provide_secret(answer);
            }
        }
    }
    (r.take_result(), fetches)
}

fn no_fetch(_req: &FetchRequest) -> Result<Json, String> {
    panic!("no fetch expected")
}

fn expect(vars: &Vars, name: &str, value: &str) {
    match vars.get(name) {
        Some(v) => assert_eq!(v.as_str(), value),
        None => panic!("missing key {}", name),
    }
}

#[test]
fn const_str_under_prefix() {
    let (r, fetches) = run(
        vec![],
        strings(&["GREETING=const:str:hello"]),
        ImportMode::NoImport,
        &no_fetch,
    );
    let vars = r.unwrap();
    assert_eq!(fetches, 0);
    assert_eq!(vars.len(), 1);
    expect(&vars, "GREETING", "hello");
}

#[test]
fn const_js_flattened_under_prefix() {
    let (r, _) = run(
        vec![],
        strings(&[r#"X=const:js:{"a":1,"b":[2,3]}"#]),
        ImportMode::NoImport,
        &no_fetch,
    );
    let vars = r.unwrap();
    assert_eq!(vars.len(), 3);
    expect(&vars, "X_A", "1");
    expect(&vars, "X_B_0", "2");
    expect(&vars, "X_B_1", "3");
}

#[test]
fn allex_keeps_plain_ambient_and_expands_explicit() {
    let (r, _) = run(
        pairs(&[("BAZ", "qux")]),
        strings(&["FOO=const:str:bar"]),
        ImportMode::AllEx,
        &no_fetch,
    );
    let vars = r.unwrap();
    assert_eq!(vars.len(), 2);
    expect(&vars, "FOO", "bar");
    expect(&vars, "BAZ", "qux");
}

#[test]
fn unknown_backend_aborts_run() {
    let (r, fetches) = run(
        vec![],
        strings(&["X=s3:role:bucket/key", "Y=const:str:never"]),
        ImportMode::NoImport,
        &no_fetch,
    );
    assert_eq!(fetches, 0);
    match r {
        Err(Error::UnknownBackend(t)) => assert_eq!(t, "s3"),
        other => panic!("expected UnknownBackend, got {:?}", other),
    }
}

#[test]
fn same_path_fetched_once() {
    let fetch = |req: &FetchRequest| -> Result<Json, String> {
        assert_eq!(req.path, "secret/db");
        Ok(Json::Obj(vec![
            (s("user"), Json::Text(s("alice"))),
            (s("pass"), Json::Text(s("pw"))),
        ]))
    };
    // Two expressions for one path, with different roles, methods and
    // anchors: the second is served from the cache.
    let (r, fetches) = run(
        vec![],
        strings(&["A=vault:role:secret/db#/user", "B=vault:role2,post:secret/db"]),
        ImportMode::NoImport,
        &fetch,
    );
    let vars = r.unwrap();
    assert_eq!(fetches, 1);
    assert_eq!(vars.len(), 3);
    expect(&vars, "A", "alice");
    expect(&vars, "B_USER", "alice");
    expect(&vars, "B_PASS", "pw");
}

#[test]
fn login_happens_when_not_logged() {
    let mut r = Resolver::new(vec![], strings(&["A=vault:role:p"]), ImportMode::NoImport);
    let role = match r.step() {
        Step::IsLogged(role) => role,
        other => panic!("expected IsLogged, got {:?}", step_name(&other)),
    };
    assert_eq!(role, "role");
    r.provide_is_logged(false);
    match r.step() {
        Step::Login(role) => assert_eq!(role, "role"),
        other => panic!("expected Login, got {:?}", step_name(&other)),
    }
    r.provide_login(Ok(()));
    match r.step() {
        Step::Fetch(req) => {
            assert_eq!(req.role, "role");
            assert_eq!(req.method, "GET");
            assert_eq!(req.path, "p");
            assert!(req.kwargs.is_none());
            r.provide_secret(Ok(Json::Text(s("v"))));
        }
        other => panic!("expected Fetch, got {:?}", step_name(&other)),
    }
    loop {
        match r.step() {
            Step::Continue => {}
            Step::Done => break,
            other => panic!("expected Done, got {:?}", step_name(&other)),
        }
    }
    let vars = r.take_result().unwrap();
    expect(&vars, "A", "v");
}

fn step_name(step: &Step) -> &'static str {
    match step {
        Step::IsLogged(_) => "IsLogged",
        Step::Login(_) => "Login",
        Step::Fetch(_) => "Fetch",
        Step::Continue => "Continue",
        Step::Done => "Done",
        Step::Failed => "Failed",
    }
}

#[test]
fn login_failure_aborts() {
    let mut r = Resolver::new(vec![], strings(&["A=vault:role:p"]), ImportMode::NoImport);
    match r.step() {
        Step::IsLogged(_) => r.provide_is_logged(false),
        other => panic!("expected IsLogged, got {:?}", step_name(&other)),
    }
    match r.step() {
        Step::Login(_) => r.provide_login(Err(s("denied"))),
        other => panic!("expected Login, got {:?}", step_name(&other)),
    }
    assert!(matches!(r.step(), Step::Failed));
    match r.take_result() {
        Err(Error::Vault(m)) => assert_eq!(m, "denied"),
        other => panic!("expected Vault error, got {:?}", other),
    }
}

#[test]
fn fetch_failure_aborts() {
    let (r, _) = run(
        vec![],
        strings(&["A=vault:role:p"]),
        ImportMode::NoImport,
        &|_req| Err(s("connection refused")),
    );
    match r {
        Err(Error::Vault(m)) => assert_eq!(m, "connection refused"),
        other => panic!("expected Vault error, got {:?}", other),
    }
}

#[test]
fn missing_anchor_is_pointer_error() {
    let (r, _) = run(
        vec![],
        strings(&["A=vault:role:p#/missing"]),
        ImportMode::NoImport,
        &|_req| Ok(Json::Obj(vec![(s("present"), Json::Text(s("x")))])),
    );
    match r {
        Err(Error::Pointer(a)) => assert_eq!(a, "/missing"),
        other => panic!("expected Pointer error, got {:?}", other),
    }
}

#[test]
fn vault_without_role_is_missing_role() {
    // Every argument is a keyword argument, so no role is left.
    let (r, fetches) = run(
        vec![],
        strings(&["A=vault:k=v:p"]),
        ImportMode::NoImport,
        &no_fetch,
    );
    assert_eq!(fetches, 0);
    match r {
        Err(Error::MissingRole(m)) => assert_eq!(m, ",k=v:p"),
        other => panic!("expected MissingRole, got {:?}", other),
    }
}

#[test]
fn const_with_other_arg_is_expected_arg() {
    let (r, _) = run(
        vec![],
        strings(&["A=const:zzz:p"]),
        ImportMode::NoImport,
        &no_fetch,
    );
    match r {
        Err(Error::ExpectedArg(w, m)) => {
            assert_eq!(w, "\"str\" or \"js\"");
            assert_eq!(m, "zzz:p");
        }
        other => panic!("expected ExpectedArg, got {:?}", other),
    }
}

#[test]
fn const_js_bad_literal_is_parse_error() {
    let (r, _) = run(
        vec![],
        strings(&["A=const:js:not json"]),
        ImportMode::NoImport,
        &no_fetch,
    );
    match r {
        Err(Error::Parse(t, _diag)) => assert_eq!(t, "not json"),
        other => panic!("expected Parse error, got {:?}", other),
    }
}

#[test]
fn onlyex_drops_plain_ambient() {
    let (r, _) = run(
        pairs(&[("GOOD", "const:str:v"), ("PLAIN", "x")]),
        vec![],
        ImportMode::OnlyEx,
        &no_fetch,
    );
    let vars = r.unwrap();
    assert_eq!(vars.len(), 1);
    expect(&vars, "GOOD", "v");
}

#[test]
fn all_copies_ambient_verbatim() {
    let (r, fetches) = run(
        pairs(&[("E", "const:str:v"), ("F", "w")]),
        vec![],
        ImportMode::All,
        &no_fetch,
    );
    let vars = r.unwrap();
    assert_eq!(fetches, 0);
    assert_eq!(vars.len(), 2);
    expect(&vars, "E", "const:str:v");
    expect(&vars, "F", "w");
}

#[test]
fn no_import_ignores_ambient() {
    let (r, _) = run(
        pairs(&[("SOME", "thing")]),
        vec![],
        ImportMode::NoImport,
        &no_fetch,
    );
    let vars = r.unwrap();
    assert_eq!(vars.len(), 0);
}

#[test]
fn explicit_without_value_reads_ambient() {
    let (r, _) = run(
        pairs(&[("NAME", "const:str:amb")]),
        strings(&["NAME"]),
        ImportMode::NoImport,
        &no_fetch,
    );
    let vars = r.unwrap();
    assert_eq!(vars.len(), 1);
    expect(&vars, "NAME", "amb");
}

#[test]
fn explicit_without_value_and_ambient_is_skipped() {
    let (r, _) = run(
        vec![],
        strings(&["ABSENT"]),
        ImportMode::NoImport,
        &no_fetch,
    );
    let vars = r.unwrap();
    assert_eq!(vars.len(), 0);
}

#[test]
fn explicit_overrides_ambient_import() {
    let (r, _) = run(
        pairs(&[("K", "old")]),
        strings(&["K=new"]),
        ImportMode::All,
        &no_fetch,
    );
    let vars = r.unwrap();
    assert_eq!(vars.len(), 1);
    expect(&vars, "K", "new");
}

#[test]
fn method_is_uppercased_and_kwargs_pass_through() {
    let mut vars = Vars::new();
    let sp = envlt::secret::SecretPath::try_from("vault:role,post,cn=x:secret/a").unwrap();
    let req = vars.insert_path("P", sp).unwrap().unwrap();
    assert_eq!(req.role, "role");
    assert_eq!(req.method, "POST");
    assert_eq!(req.path, "secret/a");
    assert_eq!(req.kwargs, Some(vec![(s("cn"), s("x"))]));
}
