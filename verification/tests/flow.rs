use winaskpass::absorb_store_failure;
use winaskpass::allow_persist;
use winaskpass::classify_dialog_failure;
use winaskpass::confirm_step;
use winaskpass::exit_code;
use winaskpass::format_list;
use winaskpass::get_credential;
use winaskpass::initial_step;
use winaskpass::lookup_step;
use winaskpass::parse_confirm_reply;
use winaskpass::parse_dialog_reply;
use winaskpass::secret_step;
use winaskpass::stdout_text;
use winaskpass::store_credential;
use winaskpass::BackendError;
use winaskpass::ConfirmAnswer;
use winaskpass::DialogError;
use winaskpass::LookupNext;
use winaskpass::Outcome;
use winaskpass::PromptResult;
use winaskpass::Step;
use winaskpass::Vault;

#[test]
fn fresh_secret_is_echoed_stored_and_cached_for_the_next_run() {
    let prompt = "Enter passphrase for /k/id_rsa: ";
    let mut vault = Vault::new();

    // First invocation: cache miss, the dialog supplies the secret and
    // asks for it to be persisted.
    let step = initial_step(prompt);
    assert_eq!(step, Step::LookupSecret { key_path: "/k/id_rsa".to_string() });
    let key_path = match step {
        Step::LookupSecret { key_path } => key_path,
        _ => unreachable!(),
    };
    let cached = get_credential(&vault, &key_path);
    assert_eq!(cached, None);
    let next = lookup_step(key_path, Ok(cached));
    let key_path = match next {
        LookupNext::Ask { key_path } => key_path,
        _ => unreachable!(),
    };
    let reply = Ok(Some(PromptResult { password: "p@ss".to_string(), save: true }));
    let resolution = secret_step(Some(key_path), reply);
    let request = resolution.store.expect("persisting secret must be queued");
    store_credential(&mut vault, &request.key_path, &request.secret);
    assert_eq!(stdout_text(&resolution.outcome), Some("p@ss".to_string()));
    assert_eq!(exit_code(&resolution.outcome), 0);

    // Second invocation with the same prompt: cache hit, settled without
    // ever reaching the dialog.
    let step = initial_step(prompt);
    let key_path = match step {
        Step::LookupSecret { key_path } => key_path,
        _ => unreachable!(),
    };
    let cached = get_credential(&vault, &key_path);
    let next = lookup_step(key_path, Ok(cached));
    let outcome = match next {
        LookupNext::Resolved { outcome } => outcome,
        LookupNext::Ask { .. } => unreachable!("cached secret must not reach the dialog"),
    };
    assert_eq!(stdout_text(&outcome), Some("p@ss".to_string()));
    assert_eq!(exit_code(&outcome), 0);
}

#[test]
fn host_trust_prompt_confirmed_no_echoes_no() {
    let prompt = "Are you sure you want to continue connecting (yes/no)?";
    assert_eq!(initial_step(prompt), Step::AskConfirm);
    let outcome = confirm_step(Ok(ConfirmAnswer::No));
    assert_eq!(stdout_text(&outcome), Some("no".to_string()));
    assert_eq!(exit_code(&outcome), 0);
}

#[test]
fn host_trust_prompt_confirmed_yes_echoes_yes() {
    let prompt = "The authenticity of host 'h' can't be established.";
    assert_eq!(initial_step(prompt), Step::AskConfirm);
    let outcome = confirm_step(Ok(ConfirmAnswer::Yes));
    assert_eq!(stdout_text(&outcome), Some("yes".to_string()));
    assert_eq!(exit_code(&outcome), 0);
}

#[test]
fn cancelled_confirmation_prints_nothing_and_exits_one() {
    let outcome = confirm_step(Ok(ConfirmAnswer::Cancelled));
    assert_eq!(outcome, Outcome::Cancelled);
    assert_eq!(stdout_text(&outcome), None);
    assert_eq!(exit_code(&outcome), 1);
}

#[test]
fn cancelled_secret_dialog_prints_nothing_and_exits_one() {
    let resolution = secret_step(Some("/k/id_rsa".to_string()), Ok(None));
    assert_eq!(resolution.store, None);
    assert_eq!(resolution.outcome, Outcome::Cancelled);
    assert_eq!(stdout_text(&resolution.outcome), None);
    assert_eq!(exit_code(&resolution.outcome), 1);
}

#[test]
fn secret_without_identifier_is_echoed_but_never_stored() {
    let prompt = "Verification code: ";
    let step = initial_step(prompt);
    assert_eq!(step, Step::AskSecret { key_path: None });
    assert!(!allow_persist(&None));
    let reply = Ok(Some(PromptResult { password: "123456".to_string(), save: true }));
    let resolution = secret_step(None, reply);
    assert_eq!(resolution.store, None);
    assert_eq!(stdout_text(&resolution.outcome), Some("123456".to_string()));
    assert_eq!(exit_code(&resolution.outcome), 0);
}

#[test]
fn secret_without_save_request_is_not_stored() {
    let reply = Ok(Some(PromptResult { password: "p".to_string(), save: false }));
    let resolution = secret_step(Some("/k/id_rsa".to_string()), reply);
    assert_eq!(resolution.store, None);
    assert_eq!(stdout_text(&resolution.outcome), Some("p".to_string()));
}

#[test]
fn backend_failure_on_lookup_is_fatal() {
    let err = BackendError { message: "vault unreachable".to_string() };
    let next = lookup_step("/k/id_rsa".to_string(), Err(err));
    let outcome = match next {
        LookupNext::Resolved { outcome } => outcome,
        _ => unreachable!(),
    };
    assert_eq!(
        outcome,
        Outcome::Failed { message: "credential lookup failed: vault unreachable".to_string() }
    );
    assert_eq!(stdout_text(&outcome), None);
    assert_eq!(exit_code(&outcome), 1);
}

#[test]
fn dialog_failure_is_fatal() {
    let err = DialogError { message: "no display".to_string() };
    let resolution = secret_step(Some("/k".to_string()), Err(err));
    assert_eq!(resolution.store, None);
    assert_eq!(
        resolution.outcome,
        Outcome::Failed { message: "secret dialog failed: no display".to_string() }
    );
    let err = DialogError { message: "no display".to_string() };
    let outcome = confirm_step(Err(err));
    assert_eq!(
        outcome,
        Outcome::Failed { message: "confirmation dialog failed: no display".to_string() }
    );
}

#[test]
fn store_failure_keeps_outcome_and_warns() {
    let outcome = Outcome::Done { output: "p@ss".to_string() };
    let followup = absorb_store_failure(
        outcome.clone(),
        Err(BackendError { message: "disk full".to_string() }),
    );
    assert_eq!(followup.outcome, outcome);
    assert_eq!(
        followup.warning,
        Some("Warning: Failed to save credential: disk full".to_string())
    );
    let followup = absorb_store_failure(outcome.clone(), Ok(()));
    assert_eq!(followup.outcome, outcome);
    assert_eq!(followup.warning, None);
}

#[test]
fn allow_persist_tracks_identifier_presence() {
    assert!(allow_persist(&Some("/k".to_string())));
    assert!(!allow_persist(&None));
}

#[test]
fn dialog_reply_frames_decode_exactly() {
    let r = parse_dialog_reply("SAVE|p@ss\r\n").unwrap();
    assert_eq!(r.password, "p@ss");
    assert!(r.save);
    let r = parse_dialog_reply("NOSAVE|p@ss").unwrap();
    assert_eq!(r.password, "p@ss");
    assert!(!r.save);
    let r = parse_dialog_reply("bare reply").unwrap();
    assert_eq!(r.password, "bare reply");
    assert!(!r.save);
    assert_eq!(parse_dialog_reply(""), None);
    assert_eq!(parse_dialog_reply(" \r\n "), None);
}

#[test]
fn dialog_reply_keeps_the_secret_verbatim() {
    let r = parse_dialog_reply("SAVE|  p@ss with edges  \n").unwrap();
    assert_eq!(r.password, "  p@ss with edges  ");
    assert!(r.save);
}

#[test]
fn confirmation_reply_decodes_button_names() {
    assert_eq!(parse_confirm_reply("Yes\r\n"), ConfirmAnswer::Yes);
    assert_eq!(parse_confirm_reply("No"), ConfirmAnswer::No);
    assert_eq!(parse_confirm_reply("Cancel"), ConfirmAnswer::Cancelled);
    assert_eq!(parse_confirm_reply(""), ConfirmAnswer::Cancelled);
}

#[test]
fn dialog_transport_failure_classification() {
    assert_eq!(classify_dialog_failure("error 1223 raised", false), None);
    assert_eq!(classify_dialog_failure("anything", true), None);
    let e = classify_dialog_failure("boom", false).unwrap();
    assert_eq!(e.message, "PowerShell error: boom");
}

#[test]
fn format_list_renders_empty_notice() {
    assert_eq!(format_list(&Vec::new()), "No SSH credentials stored.\n");
}

#[test]
fn format_list_renders_indented_lines() {
    let ids = vec!["/k/a".to_string(), "/k/b".to_string()];
    assert_eq!(format_list(&ids), "Stored SSH credentials:\n  /k/a\n  /k/b\n");
}
