//! The credential-backend contract: identifiers are filed in a vault under
//! a fixed namespace prefix, secrets can be looked up, stored idempotently,
//! and enumerated.  The vault state is held explicitly, so every operation
//! is specified against the map from target name to secret; the thin binary
//! around the library mirrors these operations onto the operating-system
//! credential store.

use vstd::prelude::*;

use crate::text::split_lines;
use crate::text::split_lines_of;
use crate::text::starts_with_seq;
use crate::text::starts_with_str;
use crate::text::strip_line_end;
use crate::text::strip_line_end_str;
use crate::text::trim_of;
use crate::text::trim_str;

verus! {

/// A backend failure distinct from "not found": the vault was unreachable,
/// a stored record was malformed, or access was denied.
#[derive(Debug, PartialEq, Eq, Clone)]
pub struct BackendError {
    pub message: String,
}

/// Namespace prefix put before every identifier to form the vault target
/// name, so this tool's entries can be told apart from unrelated vault
/// entries.  Every backend transport must use this same prefix, so that
/// stored credentials are interchangeable between them.
pub open spec fn credential_prefix() -> Seq<char> {
    "winaskpass:"@
}

/// The vault target name a secret is filed under: the fixed namespace
/// prefix followed by the identifier, verbatim.
pub open spec fn target_of(id: Seq<char>) -> Seq<char> {
    credential_prefix() + id
}

/// Derives the vault target name for an identifier.
pub fn target_name(key_path: &str) -> (r: String)
    ensures
        r@ == target_of(key_path@),
{
    let mut s: String = String::from_str("winaskpass:");
    s.append(key_path);
    s
}

/// Law: distinct identifiers live under distinct vault targets; the fixed
/// prefix never makes two identifiers collide.
pub proof fn lemma_target_injective(a: Seq<char>, b: Seq<char>)
    requires
        target_of(a) == target_of(b),
    ensures
        a == b,
{
    assert(a =~= target_of(a).skip(credential_prefix().len() as int));
    assert(b =~= target_of(b).skip(credential_prefix().len() as int));
}

/// The credential vault of one invocation: (target name, secret) pairs.
/// Its view is the map from target name to secret.
pub struct Vault {
    entries: Vec<(String, String)>,
}

spec fn entries_map(s: Seq<(String, String)>) -> Map<Seq<char>, Seq<char>>
    decreases s.len(),
{
    if s.len() == 0 {
        Map::empty()
    } else {
        entries_map(s.drop_last()).insert(s.last().0@, s.last().1@)
    }
}

spec fn unique_targets(s: Seq<(String, String)>) -> bool {
    forall|i: int, j: int| 0 <= i < j < s.len() ==> s[i].0@ != s[j].0@
}

impl View for Vault {
    type V = Map<Seq<char>, Seq<char>>;

    /// The vault contents: target name to secret.
    closed spec fn view(&self) -> Map<Seq<char>, Seq<char>> {
        entries_map(self.entries@)
    }
}

impl Vault {
    /// Well-formed: no target name is filed twice.
    pub closed spec fn wf(&self) -> bool {
        unique_targets(self.entries@)
    }

    /// An empty vault.
    pub fn new() -> (v: Vault)
        ensures
            v.wf(),
            v@ == Map::<Seq<char>, Seq<char>>::empty(),
            v.listed() == Seq::<Seq<char>>::empty(),
    {
        Vault { entries: Vec::new() }
    }

    /// The identifiers this tool has stored, in the vault's own entry
    /// order: each target name that carries the namespace prefix, with the
    /// prefix stripped.  Which order the vault keeps its entries in is the
    /// vault's own business — the map view fixes what is stored; this
    /// sequence only fixes that enumeration passes that order through.
    pub closed spec fn listed(&self) -> Seq<Seq<char>> {
        listed_ids(self.entries@)
    }
}

proof fn lemma_entries_map(s: Seq<(String, String)>)
    requires
        unique_targets(s),
    ensures
        forall|i: int|
            0 <= i < s.len() ==> entries_map(s).contains_key(#[trigger] s[i].0@) && entries_map(
                s,
            )[s[i].0@] == s[i].1@,
        forall|k: Seq<char>|
            #[trigger] entries_map(s).contains_key(k) ==> exists|i: int|
                0 <= i < s.len() && #[trigger] s[i].0@ == k,
    decreases s.len(),
{
    if s.len() == 0 {
    } else {
        let s2 = s.drop_last();
        assert(unique_targets(s2));
        lemma_entries_map(s2);
        assert forall|i: int|
            0 <= i < s.len() implies entries_map(s).contains_key(#[trigger] s[i].0@) && entries_map(
            s,
        )[s[i].0@] == s[i].1@ by {
            if i < s.len() - 1 {
                assert(s2[i] == s[i]);
                assert(s[i].0@ != s.last().0@);
            }
        }
        assert forall|k: Seq<char>| #[trigger] entries_map(s).contains_key(k) implies exists|i: int|
            0 <= i < s.len() && #[trigger] s[i].0@ == k by {
            if k == s.last().0@ {
                assert(s[s.len() - 1].0@ == k);
            } else {
                assert(entries_map(s2).contains_key(k));
                let i = choose|i: int| 0 <= i < s2.len() && #[trigger] s2[i].0@ == k;
                assert(s[i].0@ == k);
            }
        }
    }
}

proof fn lemma_entries_map_remove(s: Seq<(String, String)>, i: int)
    requires
        unique_targets(s),
        0 <= i < s.len(),
    ensures
        entries_map(s.remove(i)) == entries_map(s).remove(s[i].0@),
    decreases s.len(),
{
    let s2 = s.drop_last();
    assert(unique_targets(s2));
    if i == s.len() - 1 {
        assert(s.remove(i) =~= s2);
        lemma_entries_map(s2);
        if entries_map(s2).contains_key(s[i].0@) {
            let j = choose|j: int| 0 <= j < s2.len() && #[trigger] s2[j].0@ == s[i].0@;
            assert(s[j].0@ == s[i].0@);
            assert(false);
        }
        assert(entries_map(s2) =~= entries_map(s2).insert(s.last().0@, s.last().1@).remove(
            s[i].0@,
        ));
    } else {
        lemma_entries_map_remove(s2, i);
        assert(s.remove(i).drop_last() =~= s2.remove(i));
        assert(s.remove(i).last() == s.last());
        assert(s.remove(i).len() == s.len() - 1);
        assert(entries_map(s.remove(i)) == entries_map(s2.remove(i)).insert(
            s.last().0@,
            s.last().1@,
        ));
        assert(s[i].0@ != s.last().0@);
        assert(entries_map(s2).remove(s[i].0@).insert(s.last().0@, s.last().1@) =~= entries_map(
            s2,
        ).insert(s.last().0@, s.last().1@).remove(s[i].0@));
    }
}

fn find_index(vault: &Vault, target: &String) -> (r: Option<usize>)
    ensures
        match r {
            Some(i) => i < vault.entries@.len() && vault.entries@[i as int].0@ == target@,
            None => forall|j: int| 0 <= j < vault.entries@.len() ==> vault.entries@[j].0@ != target@,
        },
{
    let n: usize = vault.entries.len();
    let mut i: usize = 0;
    while i < n
        invariant
            0 <= i <= n,
            n == vault.entries@.len(),
            forall|j: int| 0 <= j < i ==> vault.entries@[j].0@ != target@,
        decreases n - i,
    {
        if vault.entries[i].0 == *target {
            return Some(i);
        }
        i = i + 1;
    }
    None
}

/// Looks up the secret stored for `key_path`, or `None` when the vault has
/// no entry under its target name.
pub fn get_credential(vault: &Vault, key_path: &str) -> (r: Option<String>)
    requires
        vault.wf(),
    ensures
        (r is Some) == vault@.contains_key(target_of(key_path@)),
        r is Some ==> r.unwrap()@ == vault@[target_of(key_path@)],
{
    let target: String = target_name(key_path);
    proof {
        lemma_entries_map(vault.entries@);
    }
    match find_index(vault, &target) {
        Some(i) => {
            assert(vault@.contains_key(target_of(key_path@)));
            Some(vault.entries[i].1.clone())
        },
        None => {
            proof {
                if vault@.contains_key(target_of(key_path@)) {
                    let j = choose|j: int|
                        0 <= j < vault.entries@.len() && #[trigger] vault.entries@[j].0@
                            == target_of(key_path@);
                    assert(false);
                }
            }
            None
        },
    }
}

/// Stores `passphrase` under the target name of `key_path`, overwriting
/// any earlier secret held there; the write is a whole-entry replacement,
/// never a partial merge.
pub fn store_credential(vault: &mut Vault, key_path: &str, passphrase: &str)
    requires
        old(vault).wf(),
    ensures
        final(vault).wf(),
        final(vault)@ == old(vault)@.insert(target_of(key_path@), passphrase@),
{
    let target: String = target_name(key_path);
    match find_index(vault, &target) {
        Some(i) => {
            proof {
                lemma_entries_map_remove(vault.entries@, i as int);
            }
            let ghost before = vault.entries@;
            vault.entries.remove(i);
            proof {
                assert forall|a: int, b: int|
                    0 <= a < b < vault.entries@.len() implies vault.entries@[a].0@
                    != vault.entries@[b].0@ by {
                    before.remove_ensures(i as int);
                }
                assert forall|j: int| 0 <= j < vault.entries@.len() implies vault.entries@[j].0@
                    != target@ by {
                    before.remove_ensures(i as int);
                }
            }
        },
        None => {},
    }
    let ghost mid = vault.entries@;
    vault.entries.push((target, passphrase.to_owned()));
    proof {
        assert(vault.entries@.drop_last() =~= mid);
        assert(entries_map(vault.entries@) == entries_map(mid).insert(
            target_of(key_path@),
            passphrase@,
        ));
        assert forall|a: int, b: int|
            0 <= a < b < vault.entries@.len() implies vault.entries@[a].0@
            != vault.entries@[b].0@ by {
            assert(vault.entries@[a] == mid[a]);
            if b < vault.entries@.len() - 1 {
                assert(vault.entries@[b] == mid[b]);
            }
        }
        assert(entries_map(mid).insert(target_of(key_path@), passphrase@) =~= old(
            vault,
        )@.insert(target_of(key_path@), passphrase@));
    }
}

spec fn listed_ids(s: Seq<(String, String)>) -> Seq<Seq<char>>
    decreases s.len(),
{
    if s.len() == 0 {
        Seq::empty()
    } else {
        let rest = listed_ids(s.drop_last());
        if starts_with_seq(s.last().0@, credential_prefix()) {
            rest.push(s.last().0@.skip(credential_prefix().len() as int))
        } else {
            rest
        }
    }
}

proof fn lemma_listed_ids(s: Seq<(String, String)>)
    requires
        unique_targets(s),
    ensures
        forall|m: int|
            0 <= m < listed_ids(s).len() ==> exists|j: int|
                0 <= j < s.len() && #[trigger] s[j].0@ == target_of(#[trigger] listed_ids(s)[m]),
        forall|j: int|
            0 <= j < s.len() && starts_with_seq(#[trigger] s[j].0@, credential_prefix())
                ==> exists|m: int|
                0 <= m < listed_ids(s).len() && #[trigger] listed_ids(s)[m] == s[j].0@.skip(
                    credential_prefix().len() as int,
                ),
        forall|m1: int, m2: int|
            0 <= m1 < m2 < listed_ids(s).len() ==> listed_ids(s)[m1] != listed_ids(s)[m2],
    decreases s.len(),
{
    if s.len() == 0 {
    } else {
        let s2 = s.drop_last();
        assert(unique_targets(s2));
        lemma_listed_ids(s2);
        let l2 = listed_ids(s2);
        let l = listed_ids(s);
        let p = credential_prefix();
        assert forall|m: int| 0 <= m < l.len() implies exists|j: int|
            0 <= j < s.len() && #[trigger] s[j].0@ == target_of(#[trigger] l[m]) by {
            if m < l2.len() {
                let j = choose|j: int| 0 <= j < s2.len() && #[trigger] s2[j].0@ == target_of(l2[m]);
                assert(s[j].0@ == target_of(l[m]));
            } else {
                let last = s[s.len() - 1];
                assert(starts_with_seq(last.0@, p));
                assert(l[m] == last.0@.skip(p.len() as int));
                assert(target_of(l[m]) =~= last.0@);
                assert(s[s.len() - 1].0@ == target_of(l[m]));
            }
        }
        assert forall|j: int|
            0 <= j < s.len() && starts_with_seq(#[trigger] s[j].0@, p) implies exists|m: int|
            0 <= m < l.len() && #[trigger] l[m] == s[j].0@.skip(p.len() as int) by {
            if j < s.len() - 1 {
                assert(s2[j] == s[j]);
                let m = choose|m: int|
                    0 <= m < l2.len() && #[trigger] l2[m] == s2[j].0@.skip(p.len() as int);
                assert(l[m] == s[j].0@.skip(p.len() as int));
            } else {
                assert(l[l.len() - 1] == s[j].0@.skip(p.len() as int));
            }
        }
        assert forall|m1: int, m2: int| 0 <= m1 < m2 < l.len() implies l[m1] != l[m2] by {
            if m2 == l.len() - 1 && l.len() > l2.len() {
                let last = s[s.len() - 1];
                let j1 = choose|j: int| 0 <= j < s2.len() && #[trigger] s2[j].0@ == target_of(l2[m1]);
                if l[m1] == l[m2] {
                    assert(starts_with_seq(last.0@, p));
                    assert(target_of(l[m2]) =~= last.0@);
                    assert(s[j1].0@ == last.0@);
                    assert(false);
                }
            }
        }
    }
}

/// Enumerates every identifier this tool has stored: each vault entry whose
/// target name begins with the namespace prefix, with that prefix stripped.
/// The result lists each stored identifier exactly once, in the vault's own
/// enumeration order — passed through, never re-sorted.
pub fn list_credentials(vault: &Vault) -> (r: Vec<String>)
    requires
        vault.wf(),
    ensures
        r.deep_view() == vault.listed(),
        forall|m: int|
            0 <= m < r@.len() ==> vault@.contains_key(target_of(#[trigger] r@[m]@)),
        forall|id: Seq<char>|
            #[trigger] vault@.contains_key(target_of(id)) ==> exists|m: int|
                0 <= m < r@.len() && #[trigger] r@[m]@ == id,
        forall|m1: int, m2: int| 0 <= m1 < m2 < r@.len() ==> r@[m1]@ != r@[m2]@,
{
    let prefix: &str = "winaskpass:";
    let plen: usize = prefix.unicode_len();
    let n: usize = vault.entries.len();
    let mut r: Vec<String> = Vec::new();
    let mut i: usize = 0;
    while i < n
        invariant
            0 <= i <= n,
            n == vault.entries@.len(),
            plen == credential_prefix().len(),
            prefix@ == credential_prefix(),
            r.deep_view() =~= listed_ids(vault.entries@.take(i as int)),
        decreases n - i,
    {
        let entry_target: &str = vault.entries[i].0.as_str();
        let ghost prev = vault.entries@.take(i as int);
        if starts_with_str(entry_target, prefix) {
            let id: &str = entry_target.substring_char(plen, entry_target.unicode_len());
            proof {
                assert(id@ =~= vault.entries@[i as int].0@.skip(credential_prefix().len() as int));
            }
            r.push(id.to_owned());
        }
        proof {
            assert(vault.entries@.take(i + 1).drop_last() =~= prev);
            assert(vault.entries@.take(i + 1).last() == vault.entries@[i as int]);
            assert(r.deep_view() =~= listed_ids(vault.entries@.take(i + 1)));
        }
        i = i + 1;
    }
    proof {
        assert(vault.entries@.take(n as int) =~= vault.entries@);
        assert(r.deep_view() =~~= vault.listed());
        lemma_listed_ids(vault.entries@);
        lemma_entries_map(vault.entries@);
        let l = listed_ids(vault.entries@);
        let p = credential_prefix();
        assert forall|m: int| 0 <= m < r@.len() implies vault@.contains_key(
            target_of(#[trigger] r@[m]@),
        ) by {
            assert(r.deep_view()[m] == r@[m]@);
            let j = choose|j: int|
                0 <= j < vault.entries@.len() && #[trigger] vault.entries@[j].0@ == target_of(l[m]);
        }
        assert forall|id: Seq<char>| #[trigger] vault@.contains_key(target_of(id)) implies exists|m: int|
            0 <= m < r@.len() && #[trigger] r@[m]@ == id by {
            let j = choose|j: int|
                0 <= j < vault.entries@.len() && #[trigger] vault.entries@[j].0@ == target_of(id);
            assert(vault.entries@[j].0@.subrange(0, p.len() as int) =~= p);
            assert(starts_with_seq(vault.entries@[j].0@, p));
            let m = choose|m: int|
                0 <= m < l.len() && #[trigger] l[m] == vault.entries@[j].0@.skip(p.len() as int);
            assert(vault.entries@[j].0@.skip(p.len() as int) =~= id);
            assert(r@[m]@ == id);
        }
        assert forall|m1: int, m2: int| 0 <= m1 < m2 < r@.len() implies r@[m1]@ != r@[m2]@ by {
            assert(r.deep_view()[m1] == r@[m1]@);
            assert(r.deep_view()[m2] == r@[m2]@);
        }
    }
    r
}

/// Interprets the scripted vault lookup's printed reply: the stored
/// secret, or absent when the transport printed nothing but whitespace —
/// "not found" is never an error.  Only the transport's trailing line
/// terminator is removed: the secret comes back exactly as stored, its own
/// whitespace included.
pub fn interpret_lookup_reply(raw: &str) -> (r: Option<String>)
    ensures
        (r is Some) == (trim_of(raw@).len() > 0),
        r is Some ==> r.unwrap()@ == strip_line_end(raw@),
{
    if trim_str(raw).is_empty() {
        None
    } else {
        Some(strip_line_end_str(raw).to_owned())
    }
}

/// Decodes the scripted vault enumeration's printed reply: one stored
/// identifier per line; an all-whitespace reply is the empty listing.
pub fn parse_list_reply(raw: &str) -> (r: Vec<String>)
    ensures
        trim_of(raw@).len() == 0 ==> r@.len() == 0,
        trim_of(raw@).len() > 0 ==> r.deep_view() == split_lines_of(trim_of(raw@)),
{
    let t: &str = trim_str(raw);
    if t.is_empty() {
        Vec::new()
    } else {
        split_lines(t)
    }
}

/// Maps a failed vault transport onto a backend error carrying the
/// transport's own diagnostic text.
pub fn backend_failure(stderr_text: &str) -> (e: BackendError)
    ensures
        e.message@ == "PowerShell error: "@ + stderr_text@,
{
    let mut m: String = String::from_str("PowerShell error: ");
    m.append(stderr_text);
    BackendError { message: m }
}

/// Law: storing a secret under an identifier and then looking that same
/// identifier up yields exactly that secret, whatever the vault held before
/// and whatever characters (spaces, slashes, any Unicode) the identifier
/// contains.  `store_credential` ensures the vault becomes the inserted
/// map; `get_credential` then returns the mapped secret.
pub proof fn lemma_store_then_get(
    vault: Map<Seq<char>, Seq<char>>,
    id: Seq<char>,
    secret: Seq<char>,
)
    ensures
        vault.insert(target_of(id), secret).contains_key(target_of(id)),
        vault.insert(target_of(id), secret)[target_of(id)] == secret,
{
}

/// Law: two consecutive stores under one identifier leave exactly the
/// second secret; the first is overwritten whole, never merged with or
/// interleaved into the survivor.
pub proof fn lemma_store_overwrites(
    vault: Map<Seq<char>, Seq<char>>,
    id: Seq<char>,
    first_secret: Seq<char>,
    second_secret: Seq<char>,
)
    ensures
        vault.insert(target_of(id), first_secret).insert(target_of(id), second_secret)
            == vault.insert(target_of(id), second_secret),
{
    assert(vault.insert(target_of(id), first_secret).insert(target_of(id), second_secret)
        =~= vault.insert(target_of(id), second_secret));
}

} // verus!
