//! The dialog contract: the shapes a human's answer can take, and the
//! verified decoding of the scripted dialog transport's replies.  The modal
//! dialog itself is shown by the thin binary around the library; only its
//! output crosses back into verified code.

use vstd::prelude::*;

use crate::text::contains_str;
use crate::text::contains_sub;
use crate::text::starts_with_seq;
use crate::text::starts_with_str;
use crate::text::str_eq;
use crate::text::strip_line_end;
use crate::text::strip_line_end_str;
use crate::text::trim_of;
use crate::text::trim_str;

verus! {

/// What the human answered to a secret prompt: the secret itself, and
/// whether they asked for it to be remembered.
#[derive(Debug, PartialEq, Eq, Clone)]
pub struct PromptResult {
    pub password: String,
    pub save: bool,
}

/// The three-way answer of a host-trust confirmation dialog.
#[derive(Clone, Copy, Debug, PartialEq, Eq, Structural)]
pub enum ConfirmAnswer {
    Yes,
    No,
    Cancelled,
}

/// A dialog-layer failure distinct from the user cancelling.
#[derive(Debug, PartialEq, Eq, Clone)]
pub struct DialogError {
    pub message: String,
}

/// The decoded reply of the scripted secret dialog.  Its transport prints
/// `SAVE|<secret>` or `NOSAVE|<secret>` followed by a line terminator, and
/// nothing but whitespace when the user cancelled; a reply in neither frame
/// is taken as a bare secret that is not to be persisted.  Only the
/// transport's trailing line terminator is removed: the secret itself —
/// its own whitespace included — passes through verbatim.
pub open spec fn parsed_reply(raw: Seq<char>) -> Option<(Seq<char>, bool)> {
    let t = strip_line_end(raw);
    if trim_of(raw).len() == 0 {
        None
    } else if starts_with_seq(t, "SAVE|"@) {
        Some((t.skip("SAVE|"@.len() as int), true))
    } else if starts_with_seq(t, "NOSAVE|"@) {
        Some((t.skip("NOSAVE|"@.len() as int), false))
    } else {
        Some((t, false))
    }
}

/// Decodes one scripted-dialog reply, exactly as `parsed_reply` describes.
/// Cancellation comes back as `None`, never as an empty secret.
pub fn parse_dialog_reply(raw: &str) -> (r: Option<PromptResult>)
    ensures
        (r is Some) == (parsed_reply(raw@) is Some),
        r is Some ==> r.unwrap().password@ == parsed_reply(raw@).unwrap().0,
        r is Some ==> r.unwrap().save == parsed_reply(raw@).unwrap().1,
{
    if trim_str(raw).is_empty() {
        return None;
    }
    let t: &str = strip_line_end_str(raw);
    proof {
        reveal_strlit("SAVE|");
        reveal_strlit("NOSAVE|");
    }
    let n: usize = t.unicode_len();
    if starts_with_str(t, "SAVE|") {
        let secret: &str = t.substring_char(5, n);
        proof {
            assert(secret@ =~= strip_line_end(raw@).skip("SAVE|"@.len() as int));
        }
        return Some(PromptResult { password: secret.to_owned(), save: true });
    }
    if starts_with_str(t, "NOSAVE|") {
        let secret: &str = t.substring_char(7, n);
        proof {
            assert(secret@ =~= strip_line_end(raw@).skip("NOSAVE|"@.len() as int));
        }
        return Some(PromptResult { password: secret.to_owned(), save: false });
    }
    Some(PromptResult { password: t.to_owned(), save: false })
}

/// The decoded reply of the scripted confirmation dialog: the transport
/// prints the chosen button's name; anything else — a closed window
/// included — counts as a cancellation.
pub open spec fn parsed_confirm(raw: Seq<char>) -> ConfirmAnswer {
    let t = trim_of(raw);
    if t == "Yes"@ {
        ConfirmAnswer::Yes
    } else if t == "No"@ {
        ConfirmAnswer::No
    } else {
        ConfirmAnswer::Cancelled
    }
}

/// Decodes one confirmation-dialog reply, exactly as `parsed_confirm`
/// describes.
pub fn parse_confirm_reply(raw: &str) -> (r: ConfirmAnswer)
    ensures
        r == parsed_confirm(raw@),
{
    let t: &str = trim_str(raw);
    if str_eq(t, "Yes") {
        ConfirmAnswer::Yes
    } else if str_eq(t, "No") {
        ConfirmAnswer::No
    } else {
        ConfirmAnswer::Cancelled
    }
}

/// Interprets a failed scripted-dialog transport: when the diagnostic
/// stream names the platform's cancellation code, or nothing was printed,
/// the user cancelled; anything else is a dialog error carrying the
/// diagnostic text.
pub fn classify_dialog_failure(stderr_text: &str, stdout_empty: bool) -> (r: Option<DialogError>)
    ensures
        (r is None) == (contains_sub(stderr_text@, "1223"@) || stdout_empty),
        r is Some ==> r.unwrap().message@ == "PowerShell error: "@ + stderr_text@,
{
    proof {
        reveal_strlit("1223");
    }
    if stdout_empty || contains_str(stderr_text, "1223") {
        None
    } else {
        let mut m: String = String::from_str("PowerShell error: ");
        m.append(stderr_text);
        Some(DialogError { message: m })
    }
}

} // verus!
