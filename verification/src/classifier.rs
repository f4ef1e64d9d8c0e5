//! Prompt classification: decides what an incoming free-text prompt asks
//! for, and extracts the stable identifier (a key path, URL or label) that
//! a secret can be cached under.

use vstd::prelude::*;

use crate::text::contains_sub;
use crate::text::contains_str;
use crate::text::find_char;
use crate::text::find_sub;
use crate::text::first_idx_of;
use crate::text::first_match_idx;
use crate::text::last_idx_of;
use crate::text::rfind_char;
use crate::text::strip_colon_str;
use crate::text::strip_end_colon;
use crate::text::trim_of;
use crate::text::trim_str;

verus! {

/// What a prompt asks for: either a confirmation that an unrecognized host
/// may be trusted, or a secret (passphrase, password, token).
#[derive(Clone, Copy, Debug, PartialEq, Eq, Structural)]
pub enum Intent {
    HostTrustConfirmation,
    SecretRequest,
}

/// A prompt asks for a host-trust confirmation when it contains either
/// known phrasing of the remote-login tool's authenticity question.
/// Both phrasings are plain substring tests; no case folding is applied.
pub open spec fn is_host_trust(prompt: Seq<char>) -> bool {
    contains_sub(prompt, "authenticity of host"@) || contains_sub(
        prompt,
        "continue connecting (yes/no"@,
    )
}

/// Classifies a prompt into its `Intent`.
pub fn classify(prompt: &str) -> (r: Intent)
    ensures
        (r == Intent::HostTrustConfirmation) == is_host_trust(prompt@),
        (r == Intent::SecretRequest) == !is_host_trust(prompt@),
{
    proof {
        reveal_strlit("authenticity of host");
        reveal_strlit("continue connecting (yes/no");
    }
    if contains_str(prompt, "authenticity of host") {
        Intent::HostTrustConfirmation
    } else if contains_str(prompt, "continue connecting (yes/no") {
        Intent::HostTrustConfirmation
    } else {
        Intent::SecretRequest
    }
}

/// The identifier taken from a quoted span: the text strictly between the
/// first and the last `'` of the trimmed prompt, provided something stands
/// between them.  The outermost pair always wins, even when the prompt
/// holds more than two quote characters; an empty span is no identifier,
/// so adjacent quotes fall through to the keyword heuristic.
pub open spec fn quoted_span(t: Seq<char>) -> Option<Seq<char>> {
    let fq = first_idx_of(t, '\'');
    let lq = last_idx_of(t, '\'');
    if fq < t.len() && fq + 1 < lq {
        Some(t.subrange(fq + 1, lq))
    } else {
        None
    }
}

/// The keyword that introduces an unquoted identifier.
pub open spec fn keyword_pat() -> Seq<char> {
    "for "@
}

/// The identifier taken from the keyword heuristic: everything after the
/// first `"for "`, with one trailing colon and surrounding whitespace
/// stripped; an empty result counts as no identifier.
pub open spec fn keyword_rest(t: Seq<char>) -> Option<Seq<char>> {
    let k = first_match_idx(t, keyword_pat());
    if k + keyword_pat().len() <= t.len() {
        let id = trim_of(strip_end_colon(t.subrange(k + keyword_pat().len() as int, t.len() as int)));
        if id.len() > 0 {
            Some(id)
        } else {
            None
        }
    } else {
        None
    }
}

/// The identifier extracted from a prompt: the quoted-span heuristic is
/// tried first, then the keyword heuristic; `None` when neither yields a
/// non-empty identifier (a bare password or PIN prompt with no subject).
pub open spec fn extract_id(prompt: Seq<char>) -> Option<Seq<char>> {
    let t = trim_of(prompt);
    if quoted_span(t) is Some {
        quoted_span(t)
    } else {
        keyword_rest(t)
    }
}

/// Extracts the stable identifier from a prompt, exactly as `extract_id`
/// describes.  The identifier is returned verbatim — it is the
/// byte-for-byte lookup key under which a secret is cached — and it is
/// never the empty string.
pub fn extract_key_path(prompt: &str) -> (r: Option<String>)
    ensures
        (r is Some) == (extract_id(prompt@) is Some),
        r is Some ==> r.unwrap()@ == extract_id(prompt@).unwrap(),
        r is Some ==> r.unwrap()@.len() > 0,
{
    let t: &str = trim_str(prompt);
    let n: usize = t.unicode_len();
    let fq_opt = find_char(t, '\'');
    let lq_opt = rfind_char(t, '\'');
    if let Some(fq) = fq_opt {
        if let Some(lq) = lq_opt {
            if fq + 1 < lq {
                assert(quoted_span(t@) == Some(t@.subrange(fq + 1, lq as int)));
                let span: &str = t.substring_char(fq + 1, lq);
                return Some(span.to_owned());
            }
        }
    }
    assert(quoted_span(t@) is None);
    proof {
        reveal_strlit("for ");
    }
    match find_sub(t, "for ") {
        Some(k) => {
            let rest: &str = t.substring_char(k + 4, n);
            let id: &str = trim_str(strip_colon_str(rest));
            assert(rest@ == t@.subrange(k + keyword_pat().len() as int, t@.len() as int));
            if !id.is_empty() {
                Some(id.to_owned())
            } else {
                None
            }
        },
        None => None,
    }
}

} // verus!
