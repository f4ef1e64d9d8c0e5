use winaskpass::backend_failure;
use winaskpass::get_credential;
use winaskpass::interpret_lookup_reply;
use winaskpass::list_credentials;
use winaskpass::parse_list_reply;
use winaskpass::store_credential;
use winaskpass::target_name;
use winaskpass::Vault;

#[test]
fn target_name_prepends_fixed_prefix() {
    assert_eq!(target_name("/home/user/.ssh/id_rsa"), "winaskpass:/home/user/.ssh/id_rsa");
    assert_eq!(target_name(""), "winaskpass:");
}

#[test]
fn get_on_empty_vault_is_absent() {
    let vault = Vault::new();
    assert_eq!(get_credential(&vault, "/k/id_rsa"), None);
}

#[test]
fn store_then_get_round_trips_exactly() {
    let mut vault = Vault::new();
    store_credential(&mut vault, "/k/id_rsa", "hunter2");
    assert_eq!(get_credential(&vault, "/k/id_rsa"), Some("hunter2".to_string()));
}

#[test]
fn round_trip_with_spaces_slashes_and_unicode() {
    let mut vault = Vault::new();
    let id = "/home/\u{fc}ser/my keys/kl\u{44e}\u{447} #1";
    let secret = "p@ss w\u{f6}rd \u{1f511}";
    store_credential(&mut vault, id, secret);
    assert_eq!(get_credential(&vault, id), Some(secret.to_string()));
}

#[test]
fn second_store_overwrites_whole_secret() {
    let mut vault = Vault::new();
    store_credential(&mut vault, "/k/id_rsa", "secretA");
    store_credential(&mut vault, "/k/id_rsa", "secretB");
    assert_eq!(get_credential(&vault, "/k/id_rsa"), Some("secretB".to_string()));
}

#[test]
fn stores_under_different_identifiers_do_not_collide() {
    let mut vault = Vault::new();
    store_credential(&mut vault, "/k/a", "first");
    store_credential(&mut vault, "/k/b", "second");
    assert_eq!(get_credential(&vault, "/k/a"), Some("first".to_string()));
    assert_eq!(get_credential(&vault, "/k/b"), Some("second".to_string()));
}

#[test]
fn list_on_empty_vault_is_empty() {
    let vault = Vault::new();
    assert!(list_credentials(&vault).is_empty());
}

#[test]
fn list_returns_each_stored_identifier_once() {
    let mut vault = Vault::new();
    store_credential(&mut vault, "/k/a", "first");
    store_credential(&mut vault, "/k/b", "second");
    store_credential(&mut vault, "/k/a", "replaced");
    let listed = list_credentials(&vault);
    assert_eq!(listed.len(), 2);
    assert!(listed.iter().any(|k| k == "/k/a"));
    assert!(listed.iter().any(|k| k == "/k/b"));
}

#[test]
fn lookup_reply_whitespace_only_is_absent() {
    assert_eq!(interpret_lookup_reply(""), None);
    assert_eq!(interpret_lookup_reply("  \r\n"), None);
}

#[test]
fn lookup_reply_strips_only_the_line_terminator() {
    assert_eq!(interpret_lookup_reply("hunter2\r\n"), Some("hunter2".to_string()));
    assert_eq!(interpret_lookup_reply("hunter2"), Some("hunter2".to_string()));
    assert_eq!(
        interpret_lookup_reply("  padded secret  \n"),
        Some("  padded secret  ".to_string())
    );
}

#[test]
fn list_reply_is_split_into_lines() {
    assert_eq!(parse_list_reply(""), Vec::<String>::new());
    assert_eq!(parse_list_reply("  \r\n"), Vec::<String>::new());
    assert_eq!(parse_list_reply("/k/a"), vec!["/k/a".to_string()]);
    assert_eq!(
        parse_list_reply("/k/a\n/k/b\n"),
        vec!["/k/a".to_string(), "/k/b".to_string()]
    );
    assert_eq!(
        parse_list_reply("a\n\nb"),
        vec!["a".to_string(), "".to_string(), "b".to_string()]
    );
    assert_eq!(
        parse_list_reply("/k/a\r\n/k/b\r\n"),
        vec!["/k/a".to_string(), "/k/b".to_string()]
    );
}

#[test]
fn backend_failure_carries_diagnostic() {
    let e = backend_failure("vault unreachable");
    assert_eq!(e.message, "PowerShell error: vault unreachable");
}
