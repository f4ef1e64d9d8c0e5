//! The orchestrator: composes the classifier, the credential backend and
//! the dialog into one invocation's decision flow.  Every function here is
//! a pure decision — the hosting process performs the vault and dialog
//! calls and feeds their results back, and alone turns the final `Outcome`
//! into an exit code and stdout.

use vstd::prelude::*;

use crate::classifier::classify;
use crate::classifier::extract_id;
use crate::classifier::extract_key_path;
use crate::classifier::is_host_trust;
use crate::classifier::Intent;
use crate::credential::BackendError;
use crate::dialog::ConfirmAnswer;
use crate::dialog::DialogError;
use crate::dialog::PromptResult;

verus! {

/// The terminal state of one invocation.  The hosting process alone maps
/// it onto an exit code and decides what stands on stdout.
#[derive(Debug, PartialEq, Eq, Clone)]
pub enum Outcome {
    /// The resolved answer, to be printed to stdout verbatim.
    Done { output: String },
    /// The user cancelled: no output, non-zero exit.
    Cancelled,
    /// A vault or dialog failure: diagnostic to stderr, non-zero exit.
    Failed { message: String },
}

/// The first move of an invocation, decided from the prompt text alone.
#[derive(Debug, PartialEq, Eq, Clone)]
pub enum Step {
    /// A host-trust prompt: show the yes/no/cancel confirmation.
    AskConfirm,
    /// A secret request with an identifier: consult the cache first.
    LookupSecret { key_path: String },
    /// A secret request with no identifier: nothing to cache under, go
    /// straight to the dialog.
    AskSecret { key_path: Option<String> },
}

/// Decides the first move: host-trust prompts go to the confirmation
/// dialog; secret requests are keyed by the extracted identifier and
/// consult the cache, or go straight to the dialog when no identifier
/// could be extracted.
pub fn initial_step(prompt: &str) -> (s: Step)
    ensures
        is_host_trust(prompt@) ==> s == Step::AskConfirm,
        !is_host_trust(prompt@) && extract_id(prompt@) is Some ==> (s matches Step::LookupSecret {
            key_path,
        } && key_path@ == extract_id(prompt@).unwrap()),
        !is_host_trust(prompt@) && extract_id(prompt@) is None ==> s == (Step::AskSecret {
            key_path: None,
        }),
{
    match classify(prompt) {
        Intent::HostTrustConfirmation => Step::AskConfirm,
        Intent::SecretRequest => match extract_key_path(prompt) {
            Some(path) => Step::LookupSecret { key_path: path },
            None => Step::AskSecret { key_path: None },
        },
    }
}

/// Resolves the confirmation flow.  The tokens `yes` and `no` are echoed
/// verbatim — the remote-login tool expects exactly those; cancellation
/// produces no output; a dialog failure is fatal.
pub fn confirm_step(answer: Result<ConfirmAnswer, DialogError>) -> (o: Outcome)
    ensures
        answer matches Ok(ConfirmAnswer::Yes) ==> o matches Outcome::Done { output } && output@
            == "yes"@,
        answer matches Ok(ConfirmAnswer::No) ==> o matches Outcome::Done { output } && output@
            == "no"@,
        answer matches Ok(ConfirmAnswer::Cancelled) ==> o == Outcome::Cancelled,
        answer matches Err(e) ==> o matches Outcome::Failed { message } && message@
            == "confirmation dialog failed: "@ + e.message@,
{
    match answer {
        Ok(ConfirmAnswer::Yes) => Outcome::Done { output: String::from_str("yes") },
        Ok(ConfirmAnswer::No) => Outcome::Done { output: String::from_str("no") },
        Ok(ConfirmAnswer::Cancelled) => Outcome::Cancelled,
        Err(e) => {
            let mut m: String = String::from_str("confirmation dialog failed: ");
            m.append(e.message.as_str());
            Outcome::Failed { message: m }
        },
    }
}

/// What follows the mandatory cache lookup.
#[derive(Debug, PartialEq, Eq, Clone)]
pub enum LookupNext {
    /// The invocation is settled: a cache hit, or a fatal backend failure.
    Resolved { outcome: Outcome },
    /// A cache miss: ask the dialog, keeping the identifier so the answer
    /// can be persisted under it.
    Ask { key_path: String },
}

/// Resolves the cache lookup.  A hit is echoed at once — the dialog is
/// never shown for a cached secret.  A miss moves on to the secret dialog.
/// A backend failure on this mandatory path is fatal.
pub fn lookup_step(key_path: String, cached: Result<Option<String>, BackendError>) -> (r:
    LookupNext)
    ensures
        cached matches Ok(Some(secret)) ==> r matches LookupNext::Resolved { outcome } && outcome
            matches Outcome::Done { output } && output@ == secret@,
        cached matches Ok(None) ==> r matches LookupNext::Ask { key_path: k } && k@ == key_path@,
        cached matches Err(e) ==> r matches LookupNext::Resolved { outcome } && outcome
            matches Outcome::Failed { message } && message@ == "credential lookup failed: "@
            + e.message@,
{
    match cached {
        Ok(Some(secret)) => LookupNext::Resolved { outcome: Outcome::Done { output: secret } },
        Ok(None) => LookupNext::Ask { key_path },
        Err(e) => {
            let mut m: String = String::from_str("credential lookup failed: ");
            m.append(e.message.as_str());
            LookupNext::Resolved { outcome: Outcome::Failed { message: m } }
        },
    }
}

/// The save toggle is offered only when an identifier exists to key the
/// saved entry on.
pub fn allow_persist(key_path: &Option<String>) -> (b: bool)
    ensures
        b == (key_path is Some),
{
    key_path.is_some()
}

/// A pending write of a freshly supplied secret.
#[derive(Debug, PartialEq, Eq, Clone)]
pub struct StoreRequest {
    pub key_path: String,
    pub secret: String,
}

/// How the secret dialog's reply resolves the invocation.
#[derive(Debug, PartialEq, Eq, Clone)]
pub struct SecretResolution {
    /// The write to perform before printing, when the human asked to
    /// persist the secret and an identifier exists to key it.
    pub store: Option<StoreRequest>,
    pub outcome: Outcome,
}

/// Resolves the secret dialog's reply.  A supplied secret is echoed, and
/// queued for storage only when the human asked to persist it and an
/// identifier exists; cancellation ends the invocation with no output and
/// nothing stored; a dialog failure is fatal.
pub fn secret_step(
    key_path: Option<String>,
    reply: Result<Option<PromptResult>, DialogError>,
) -> (r: SecretResolution)
    ensures
        reply matches Ok(Some(pr)) ==> r.outcome matches Outcome::Done { output } && output@
            == pr.password@,
        reply matches Ok(Some(pr)) ==> (pr.save && key_path is Some ==> (r.store matches Some(req)
            && req.key_path@ == key_path.unwrap()@ && req.secret@ == pr.password@)),
        reply matches Ok(Some(pr)) && !(pr.save && key_path is Some) ==> r.store is None,
        reply matches Ok(None) ==> r.outcome == Outcome::Cancelled && r.store is None,
        reply matches Err(e) ==> r.outcome matches Outcome::Failed { message } && message@
            == "secret dialog failed: "@ + e.message@ && r.store is None,
{
    match reply {
        Ok(Some(pr)) => {
            let store: Option<StoreRequest> = if pr.save && key_path.is_some() {
                Some(StoreRequest { key_path: key_path.unwrap(), secret: pr.password.clone() })
            } else {
                None
            };
            SecretResolution { store, outcome: Outcome::Done { output: pr.password } }
        },
        Ok(None) => SecretResolution { store: None, outcome: Outcome::Cancelled },
        Err(e) => {
            let mut m: String = String::from_str("secret dialog failed: ");
            m.append(e.message.as_str());
            SecretResolution { store: None, outcome: Outcome::Failed { message: m } }
        },
    }
}

/// What follows the optional store of a fresh secret.
#[derive(Debug, PartialEq, Eq, Clone)]
pub struct StoreFollowup {
    pub outcome: Outcome,
    /// The warning to print to stderr when the store failed.
    pub warning: Option<String>,
}

/// A failed optional store never fails the invocation — the human still
/// gets their secret this run.  The outcome passes through untouched; the
/// failure only yields a warning line.
pub fn absorb_store_failure(outcome: Outcome, stored: Result<(), BackendError>) -> (r:
    StoreFollowup)
    ensures
        r.outcome == outcome,
        (r.warning is Some) == (stored is Err),
        stored matches Err(e) ==> r.warning.unwrap()@ == "Warning: Failed to save credential: "@
            + e.message@,
{
    match stored {
        Ok(()) => StoreFollowup { outcome, warning: None },
        Err(e) => {
            let mut m: String = String::from_str("Warning: Failed to save credential: ");
            m.append(e.message.as_str());
            StoreFollowup { outcome, warning: Some(m) }
        },
    }
}

/// The hosting process's exit status: zero exactly when an answer stands
/// on stdout; cancellation and failure exit non-zero.
pub fn exit_code(outcome: &Outcome) -> (c: i32)
    ensures
        (c == 0) == (outcome matches Outcome::Done { .. }),
        (outcome matches Outcome::Cancelled) ==> c == 1,
        (outcome matches Outcome::Failed { .. }) ==> c == 1,
{
    match outcome {
        Outcome::Done { .. } => 0,
        Outcome::Cancelled => 1,
        Outcome::Failed { .. } => 1,
    }
}

/// What one invocation prints to stdout: exactly the resolved answer on
/// success — with no trailing newline — and nothing otherwise.
pub fn stdout_text(outcome: &Outcome) -> (r: Option<String>)
    ensures
        outcome matches Outcome::Done { output } ==> r is Some && r.unwrap()@ == output@,
        !(outcome matches Outcome::Done { .. }) ==> r is None,
{
    match outcome {
        Outcome::Done { output } => Some(output.clone()),
        _ => None,
    }
}

/// One rendered listing line per stored identifier, two-space indented.
pub open spec fn rendered_items(ids: Seq<Seq<char>>) -> Seq<char>
    decreases ids.len(),
{
    if ids.len() == 0 {
        Seq::empty()
    } else {
        rendered_items(ids.drop_last()) + "  "@ + ids.last() + "\n"@
    }
}

/// The listing printed for the enumeration command: a framing line and one
/// indented line per stored identifier, or a fixed notice when none are
/// stored.
pub open spec fn rendered_list(ids: Seq<Seq<char>>) -> Seq<char> {
    if ids.len() == 0 {
        "No SSH credentials stored.\n"@
    } else {
        "Stored SSH credentials:\n"@ + rendered_items(ids)
    }
}

/// Renders the stored-identifier listing, exactly as `rendered_list`
/// describes it.
pub fn format_list(ids: &Vec<String>) -> (r: String)
    ensures
        r@ == rendered_list(ids.deep_view()),
{
    if ids.len() == 0 {
        return String::from_str("No SSH credentials stored.\n");
    }
    let mut out: String = String::from_str("Stored SSH credentials:\n");
    let n: usize = ids.len();
    let mut i: usize = 0;
    while i < n
        invariant
            0 <= i <= n,
            n == ids@.len(),
            ids.deep_view().len() == ids@.len(),
            out@ == "Stored SSH credentials:\n"@ + rendered_items(ids.deep_view().take(i as int)),
        decreases n - i,
    {
        out.append("  ");
        out.append(ids[i].as_str());
        out.append("\n");
        proof {
            assert(ids.deep_view().take(i + 1).drop_last() =~= ids.deep_view().take(i as int));
            assert(ids.deep_view().take(i + 1).last() == ids@[i as int]@);
            assert(out@ =~= "Stored SSH credentials:\n"@ + rendered_items(
                ids.deep_view().take(i + 1),
            ));
        }
        i = i + 1;
    }
    proof {
        assert(ids.deep_view().take(n as int) =~= ids.deep_view());
    }
    out
}

} // verus!
