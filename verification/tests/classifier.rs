use winaskpass::classify;
use winaskpass::extract_key_path;
use winaskpass::Intent;

#[test]
fn test_extract_key_path_with_quotes() {
    let prompt = "Enter passphrase for key '/home/user/.ssh/id_rsa': ";
    assert_eq!(extract_key_path(prompt), Some("/home/user/.ssh/id_rsa".to_string()));
}

#[test]
fn test_extract_key_path_without_quotes() {
    let prompt = "Enter passphrase for /home/user/.ssh/id_ed25519: ";
    assert_eq!(extract_key_path(prompt), Some("/home/user/.ssh/id_ed25519".to_string()));
}

#[test]
fn test_extract_key_path_with_spaces() {
    let prompt = "Enter passphrase for '/home/user/my keys/id_rsa': ";
    assert_eq!(extract_key_path(prompt), Some("/home/user/my keys/id_rsa".to_string()));
}

#[test]
fn classify_authenticity_prompt_is_host_trust() {
    let prompt = "The authenticity of host 'example.com (1.2.3.4)' can't be established.";
    assert_eq!(classify(prompt), Intent::HostTrustConfirmation);
}

#[test]
fn classify_continue_connecting_prompt_is_host_trust() {
    let prompt = "Are you sure you want to continue connecting (yes/no)?";
    assert_eq!(classify(prompt), Intent::HostTrustConfirmation);
}

#[test]
fn classify_passphrase_prompt_is_secret_request() {
    let prompt = "Enter passphrase for key '/home/user/.ssh/id_rsa': ";
    assert_eq!(classify(prompt), Intent::SecretRequest);
}

#[test]
fn classify_empty_prompt_is_secret_request() {
    assert_eq!(classify(""), Intent::SecretRequest);
}

#[test]
fn extract_url_identifier_from_quotes() {
    assert_eq!(
        extract_key_path("Username for 'https://github.com': "),
        Some("https://github.com".to_string())
    );
}

#[test]
fn extract_no_identifier_from_bare_prompt() {
    assert_eq!(extract_key_path("Verification code: "), None);
}

#[test]
fn extract_outer_quote_pair_wins() {
    let prompt = "Enter passphrase for key 'a' or 'b': ";
    assert_eq!(extract_key_path(prompt), Some("a' or 'b".to_string()));
}

#[test]
fn extract_single_quote_falls_back_to_keyword() {
    let prompt = "Enter passphrase for od'd key: ";
    assert_eq!(extract_key_path(prompt), Some("od'd key".to_string()));
}

#[test]
fn extract_empty_rest_after_keyword_is_none() {
    assert_eq!(extract_key_path("Enter passphrase for : "), None);
    assert_eq!(extract_key_path("Enter passphrase for"), None);
}

#[test]
fn extract_strips_one_trailing_colon_and_whitespace() {
    assert_eq!(
        extract_key_path("  Enter passphrase for /k/id_rsa: \t"),
        Some("/k/id_rsa".to_string())
    );
    assert_eq!(
        extract_key_path("Enter passphrase for /k/id_rsa:: "),
        Some("/k/id_rsa:".to_string())
    );
}

#[test]
fn extract_never_yields_an_empty_identifier() {
    assert_eq!(extract_key_path("''"), None);
    assert_eq!(extract_key_path(" '' "), None);
    assert_eq!(
        extract_key_path("Enter passphrase for key '': "),
        Some("key ''".to_string())
    );
}

#[test]
fn extract_unicode_identifier() {
    let prompt = "Enter passphrase for /home/\u{fc}ser/kl\u{44e}\u{447}: ";
    assert_eq!(
        extract_key_path(prompt),
        Some("/home/\u{fc}ser/kl\u{44e}\u{447}".to_string())
    );
}
