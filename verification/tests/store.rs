use envlt::args::{Args, ImportMode};
use envlt::error::Error;
use envlt::vars::{parse_var, Vars};

fn s(x: &str) -> String {
    x.to_owned()
}

#[test]
fn parse_var_splits_at_first_equals() {
    assert_eq!(parse_var("N=V").unwrap(), (s("N"), Some(s("V"))));
    assert_eq!(parse_var("N=a=b").unwrap(), (s("N"), Some(s("a=b"))));
    assert_eq!(parse_var("N=").unwrap(), (s("N"), Some(s(""))));
    assert_eq!(parse_var("N").unwrap(), (s("N"), None));
}

#[test]
fn insert_overwrites_and_counts() {
    let mut vars = Vars::new();
    vars.insert(s("A"), s("one"));
    vars.insert(s("B"), s("two"));
    vars.insert(s("A"), s("three"));
    assert_eq!(vars.len(), 2);
    assert_eq!(vars.get("A").unwrap().as_str(), "three");
    assert_eq!(vars.get("B").unwrap().as_str(), "two");
    assert!(vars.get("C").is_none());
}

#[test]
fn get_envp_renders_lines() {
    let mut vars = Vars::new();
    vars.insert(s("A"), s("one"));
    vars.insert(s("B"), s("two"));
    let env = vars.get_envp().unwrap();
    assert_eq!(env, vec![s("A=one"), s("B=two")]);
}

#[test]
fn get_envp_rejects_embedded_nul() {
    let mut vars = Vars::new();
    vars.insert(s("GOOD"), s("fine"));
    vars.insert(s("BAD"), s("nul\0here"));
    match vars.get_envp() {
        Err(Error::Nul(name)) => assert_eq!(name, "BAD"),
        other => panic!("expected Nul error, got {:?}", other),
    }
}

#[test]
fn import_mode_from_switches() {
    let mut args = Args {
        url: s("https://localhost:8200/v1"),
        login_path: s("/auth/jwt/login"),
        cacert: s("ca.crt"),
        token: None,
        token_path: s("token"),
        vars: vec![],
        verbose: false,
        import: false,
        import_vault: false,
        cmd: s("true"),
        args: vec![],
    };
    assert_eq!(ImportMode::from_args(&args), ImportMode::NoImport);
    args.import = true;
    assert_eq!(ImportMode::from_args(&args), ImportMode::All);
    args.import_vault = true;
    assert_eq!(ImportMode::from_args(&args), ImportMode::AllEx);
    args.import = false;
    assert_eq!(ImportMode::from_args(&args), ImportMode::OnlyEx);
}

#[test]
fn error_messages_name_their_payloads() {
    assert_eq!(
        Error::Pointer(s("/data")).message(),
        "json pointer \"/data\" returns no result"
    );
    assert_eq!(Error::MissingRole(s("x:p")).message(), "missing role in x:p");
    assert_eq!(Error::NoBackend.message(), "no backend in expression");
}
