use envlt::backend::Backend;
use envlt::error::Error;
use envlt::secret::SecretPath;

fn s(x: &str) -> String {
    x.to_owned()
}

#[test]
fn parse_anchor() {
    let path = "vault:role,POST,common_name=example.com:pki/issue/example.com#/data";
    let secret_path = SecretPath::try_from(path).unwrap();
    assert_eq!(
        secret_path,
        SecretPath {
            backend: Backend::Vault,
            args: vec![s("role"), s("POST")],
            kwargs: Some(vec![(s("common_name"), s("example.com"))]),
            path: s("pki/issue/example.com"),
            anchor: s("/data"),
        }
    );
}

#[test]
fn parse_const_str() {
    let path = "const:str:https://localhost:8200";
    let secret_path = SecretPath::try_from(path).unwrap();
    assert_eq!(
        secret_path,
        SecretPath {
            backend: Backend::Const,
            args: vec![s("str")],
            kwargs: None,
            path: s("https://localhost:8200"),
            anchor: s(""),
        }
    );
}

#[test]
fn parse_const_json() {
    let path = r#"const:js:{"key": "val"}"#;
    let secret_path = SecretPath::try_from(path).unwrap();
    assert_eq!(
        secret_path,
        SecretPath {
            backend: Backend::Const,
            args: vec![s("js")],
            kwargs: None,
            path: s(r#"{"key": "val"}"#),
            anchor: s(""),
        }
    );
}

#[test]
fn parse_empty_is_no_backend() {
    assert!(matches!(SecretPath::try_from(""), Err(Error::NoBackend)));
}

#[test]
fn parse_no_colon_is_no_args() {
    match SecretPath::try_from("hello") {
        Err(Error::NoArgs(t)) => assert_eq!(t, "hello"),
        other => panic!("expected NoArgs, got {:?}", other),
    }
}

#[test]
fn parse_one_colon_is_no_args() {
    match SecretPath::try_from("vault:role") {
        Err(Error::NoArgs(t)) => assert_eq!(t, "vault:role"),
        other => panic!("expected NoArgs, got {:?}", other),
    }
}

#[test]
fn parse_nothing_after_second_colon_is_no_path() {
    match SecretPath::try_from("vault:role:") {
        Err(Error::NoPath(t)) => assert_eq!(t, "role"),
        other => panic!("expected NoPath, got {:?}", other),
    }
}

#[test]
fn parse_unknown_backend() {
    match SecretPath::try_from("s3:role:bucket/key") {
        Err(Error::UnknownBackend(t)) => assert_eq!(t, "s3"),
        other => panic!("expected UnknownBackend, got {:?}", other),
    }
}

#[test]
fn backend_matches_by_prefix_first_wins() {
    assert_eq!(Backend::try_from("vault"), Some(Backend::Vault));
    assert_eq!(Backend::try_from("vaultish"), Some(Backend::Vault));
    assert_eq!(Backend::try_from("const2"), Some(Backend::Const));
    assert_eq!(Backend::try_from("vaul"), None);
    assert_eq!(Backend::Vault.name(), "vault");
    assert_eq!(Backend::Const.name(), "const");
}

#[test]
fn parse_anchor_empty_when_hash_absent() {
    let sp = SecretPath::try_from("vault:role:a/b").unwrap();
    assert_eq!(sp.anchor, "");
    assert_eq!(sp.path, "a/b");
    let sp2 = SecretPath::try_from("vault:role:a/b#").unwrap();
    assert_eq!(sp2.anchor, "");
    assert_eq!(sp2.path, "a/b");
}

#[test]
fn format_lists_args_kwargs_and_path() {
    let sp = SecretPath::try_from("vault:role,POST,cn=x.com:pki/issue#/data").unwrap();
    assert_eq!(sp.to_string(), "role,POST,cn=x.com:pki/issue");
}
