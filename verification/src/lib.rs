//! Prompt-driven credential broker.
//!
//! An external SSH tool hands this library a free-text prompt whenever it
//! needs sensitive input.  The library classifies the prompt, extracts a
//! stable identifier from it, resolves the identifier against a credential
//! vault, and decides how the surrounding process must answer: echo a cached
//! secret, ask the user through a dialog, or confirm a host-trust question.
//! Everything that decides is verified here; the operating-system vault and
//! the dialog surface are driven by the thin binary around the library.

pub mod classifier;
pub mod credential;
pub mod dialog;
pub mod flow;
pub mod text;

pub use classifier::classify;
pub use classifier::extract_key_path;
pub use classifier::Intent;
pub use credential::backend_failure;
pub use credential::get_credential;
pub use credential::interpret_lookup_reply;
pub use credential::list_credentials;
pub use credential::parse_list_reply;
pub use credential::store_credential;
pub use credential::target_name;
pub use credential::BackendError;
pub use credential::Vault;
pub use dialog::classify_dialog_failure;
pub use dialog::parse_confirm_reply;
pub use dialog::parse_dialog_reply;
pub use dialog::ConfirmAnswer;
pub use dialog::DialogError;
pub use dialog::PromptResult;
pub use flow::absorb_store_failure;
pub use flow::allow_persist;
pub use flow::confirm_step;
pub use flow::exit_code;
pub use flow::format_list;
pub use flow::initial_step;
pub use flow::lookup_step;
pub use flow::secret_step;
pub use flow::stdout_text;
pub use flow::LookupNext;
pub use flow::Outcome;
pub use flow::SecretResolution;
pub use flow::Step;
pub use flow::StoreFollowup;
pub use flow::StoreRequest;
