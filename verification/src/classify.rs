//! The tier of one call: what exempts it from pinning, what revision it names,
//! and which of the two decides.
//!
//! A call is given as its own text, from its name to its closing parenthesis.
//! Its first argument is what follows its first opening parenthesis.

use vstd::prelude::*;
use vstd::slice::slice_subrange;
use crate::identifier::{is_commit_id, is_commit_sha_chars};
use crate::status::Status;
use crate::text::{
    find_char, find_char_from, find_quote, find_quote_from, is_quote, is_quote_char,
    lemma_find_quote, lemma_skip_spaces, occurs_at, skip_spaces, skip_spaces_from, starts_at,
    to_chars,
};

verus! {

/// The keyword that hands a stored credential to a call.
pub open spec fn credential_key() -> Seq<char> {
    "use_auth_token"@
}

/// The value that switches the credential keyword on.
pub open spec fn credential_on() -> Seq<char> {
    "True"@
}

/// The keyword that names a revision.
pub open spec fn revision_key() -> Seq<char> {
    "revision"@
}

/// Whether the credential flag, set to true, starts at index `at` of `call`:
/// the keyword, an equals sign and the value, with any white space around the
/// equals sign.
pub open spec fn credential_flag_at(call: Seq<char>, at: int) -> bool {
    let eq = skip_spaces(call, at + credential_key().len());
    &&& occurs_at(call, credential_key(), at)
    &&& eq < call.len()
    &&& call[eq] == '='
    &&& occurs_at(call, credential_on(), skip_spaces(call, eq + 1))
}

/// Whether `call` sets the credential flag to true somewhere.
pub open spec fn holds_credential_flag(call: Seq<char>) -> bool {
    exists|at: int| credential_flag_at(call, at)
}

/// Whether the first argument of `call` is a local path: whether the first
/// opening parenthesis of `call` is followed at once by a quote, and the
/// quote by `/` or by `./`. This holds of a call of any kind, whatever it
/// loads or downloads.
pub open spec fn first_argument_is_local(call: Seq<char>) -> bool {
    let open = find_char(call, '(', 0);
    &&& open + 2 < call.len()
    &&& is_quote(call[open + 1])
    &&& (call[open + 2] == '/' || (call[open + 2] == '.' && open + 3 < call.len() && call[open
        + 3] == '/'))
}

/// The revision named at index `at` of `call`, if one is named there: the
/// keyword, an equals sign, a quote, one or more characters that are no
/// quotes, and a quote, with any white space around the equals sign. The
/// revision is what stands between the two quotes.
pub open spec fn revision_at(call: Seq<char>, at: int) -> Option<Seq<char>> {
    let eq = skip_spaces(call, at + revision_key().len());
    let open = skip_spaces(call, eq + 1);
    let close = find_quote(call, open + 1);
    if occurs_at(call, revision_key(), at) && eq < call.len() && call[eq] == '=' && open
        < call.len() && is_quote(call[open]) && open + 1 < close < call.len() {
        Some(call.subrange(open + 1, close))
    } else {
        None
    }
}

/// The revision named at the first index at or after `from` at which `call`
/// names one.
pub open spec fn first_revision(call: Seq<char>, from: int) -> Option<Seq<char>>
    decreases call.len() - from,
{
    if from < 0 || from >= call.len() {
        None
    } else if revision_at(call, from) is Some {
        revision_at(call, from)
    } else {
        first_revision(call, from + 1)
    }
}

/// The revision that `call` names: the first one, where it names several.
pub open spec fn revision_of(call: Seq<char>) -> Option<Seq<char>> {
    first_revision(call, 0)
}

/// The tier of a call. A credential flag, or a local path as its first
/// argument, makes it safe, whatever revision it names. Otherwise a revision that is an immutable
/// identifier makes it safe, any other revision partially safe, and none
/// unsafe.
pub open spec fn call_status(call: Seq<char>) -> Status {
    if holds_credential_flag(call) || first_argument_is_local(call) {
        Status::Safe
    } else {
        match revision_of(call) {
            Some(revision) => if is_commit_id(revision) {
                Status::Safe
            } else {
                Status::PartiallySafe
            },
            None => Status::Unsafe,
        }
    }
}

/// Which calls fall into which tier. A call is unsafe exactly if nothing
/// exempts it and it names no revision; partially safe exactly if nothing
/// exempts it and the revision it names is no immutable identifier; and safe
/// exactly if something exempts it or the revision it names is an immutable
/// identifier.
pub proof fn lemma_call_status(call: Seq<char>)
    ensures
        call_status(call) == Status::Unsafe <==> !holds_credential_flag(call) && !first_argument_is_local(
            call,
        ) && revision_of(call) is None,
        call_status(call) == Status::PartiallySafe <==> !holds_credential_flag(call)
            && !first_argument_is_local(call) && revision_of(call) is Some && !is_commit_id(
            revision_of(call)->0,
        ),
        call_status(call) == Status::Safe <==> holds_credential_flag(call) || first_argument_is_local(call)
            || (revision_of(call) is Some && is_commit_id(revision_of(call)->0)),
{
}

/// Whether `text` stands in `call` at index `at` with a quote before it and a
/// quote after it.
pub open spec fn quoted_at(call: Seq<char>, text: Seq<char>, at: int) -> bool {
    &&& 0 < at
    &&& at + text.len() < call.len()
    &&& is_quote(call[at - 1])
    &&& is_quote(call[at + text.len()])
    &&& call.subrange(at, at + text.len()) == text
}

/// Whether `text` can be the revision that `call` names: it is not empty,
/// holds no quote and stands in `call` between two quotes.
pub open spec fn is_quoted_in(call: Seq<char>, text: Seq<char>) -> bool {
    &&& text.len() >= 1
    &&& forall|i: int| 0 <= i < text.len() ==> !is_quote(#[trigger] text[i])
    &&& exists|at: int| quoted_at(call, text, at)
}

/// The revision that a call names stands in the call between two quotes, is
/// not empty and holds no quote; a call names none only if no index of it
/// names one.
pub proof fn lemma_revision_of(call: Seq<char>)
    ensures
        revision_of(call) is Some ==> is_quoted_in(call, revision_of(call)->0),
        revision_of(call) is None ==> forall|at: int| revision_at(call, at) is None,
{
    lemma_first_revision(call, 0);
    if revision_of(call) is None {
        assert forall|at: int| revision_at(call, at) is None by {
            if at < 0 {
                assert(!occurs_at(call, revision_key(), at));
            }
        }
    }
}

/// The revision named at an index stands in the call between two quotes, is
/// not empty and holds no quote.
proof fn lemma_revision_at(call: Seq<char>, at: int)
    requires
        revision_at(call, at) is Some,
    ensures
        is_quoted_in(call, revision_at(call, at)->0),
{
    let eq = skip_spaces(call, at + revision_key().len());
    lemma_skip_spaces(call, at + revision_key().len());
    let open = skip_spaces(call, eq + 1);
    lemma_skip_spaces(call, eq + 1);
    let close = find_quote(call, open + 1);
    lemma_find_quote(call, open + 1);
    let revision = call.subrange(open + 1, close);
    assert(revision_at(call, at) == Some(revision));
    assert(quoted_at(call, revision, open + 1));
}

/// The first revision from an index on is the revision at some index at or
/// after it, and there is none if no index at or after it names one.
proof fn lemma_first_revision(call: Seq<char>, from: int)
    requires
        0 <= from,
    ensures
        first_revision(call, from) is Some ==> is_quoted_in(call, first_revision(call, from)->0),
        first_revision(call, from) is None ==> forall|at: int|
            from <= at ==> revision_at(call, at) is None,
    decreases call.len() - from,
{
    if from >= call.len() {
        assert forall|at: int| from <= at implies revision_at(call, at) is None by {
            reveal_strlit("revision");
            assert(!occurs_at(call, revision_key(), at));
        }
    } else if revision_at(call, from) is Some {
        lemma_revision_at(call, from);
    } else {
        lemma_first_revision(call, from + 1);
        if first_revision(call, from) is None {
            assert forall|at: int| from <= at implies revision_at(call, at) is None by {
                if at > from {
                    assert(from + 1 <= at);
                }
            }
        }
    }
}

/// Tells whether the credential flag, set to true, starts at index `at`.
fn credential_flag_starts_at(call: &[char], key: &[char], on: &[char], at: usize) -> (r: bool)
    requires
        key@ == credential_key(),
        on@ == credential_on(),
    ensures
        r == credential_flag_at(call@, at as int),
{
    let len = call.len();
    if !starts_at(call, key, at) {
        return false;
    }
    let eq = skip_spaces_from(call, at + key.len());
    if eq >= len || call[eq] != '=' {
        return false;
    }
    let value = skip_spaces_from(call, eq + 1);
    starts_at(call, on, value)
}

/// Tells whether the call sets the credential flag to true.
pub fn has_credential_flag(call: &[char]) -> (r: bool)
    ensures
        r == holds_credential_flag(call@),
{
    let key = to_chars("use_auth_token");
    let on = to_chars("True");
    let mut at: usize = 0;
    while at < call.len()
        invariant
            at <= call.len(),
            key@ == credential_key(),
            on@ == credential_on(),
            forall|j: int| 0 <= j < at ==> !credential_flag_at(call@, j),
        decreases call.len() - at,
    {
        if credential_flag_starts_at(call, key.as_slice(), on.as_slice(), at) {
            return true;
        }
        at += 1;
    }
    proof {
        reveal_strlit("use_auth_token");
    }
    false
}

/// Tells whether the first argument of the call is a local path.
pub fn has_local_path(call: &[char]) -> (r: bool)
    ensures
        r == first_argument_is_local(call@),
{
    let len = call.len();
    let open = find_char_from(call, '(', 0);
    if open >= len || len - open < 3 || !is_quote_char(call[open + 1]) {
        return false;
    }
    call[open + 2] == '/' || (call[open + 2] == '.' && len - open > 3 && call[open + 3] == '/')
}

/// The revision named at index `at`, if one is named there.
fn revision_starting_at<'a>(call: &'a [char], key: &[char], at: usize) -> (r: Option<&'a [char]>)
    requires
        key@ == revision_key(),
    ensures
        match r {
            Some(revision) => revision_at(call@, at as int) == Some(revision@),
            None => revision_at(call@, at as int) is None,
        },
{
    let len = call.len();
    if !starts_at(call, key, at) {
        return None;
    }
    let eq = skip_spaces_from(call, at + key.len());
    if eq >= len || call[eq] != '=' {
        return None;
    }
    let open = skip_spaces_from(call, eq + 1);
    if open >= len || !is_quote_char(call[open]) {
        return None;
    }
    let close = find_quote_from(call, open + 1);
    if close <= open + 1 || close >= len {
        return None;
    }
    Some(slice_subrange(call, open + 1, close))
}

/// The revision that the call names, if it names one.
pub fn find_revision<'a>(call: &'a [char]) -> (r: Option<&'a [char]>)
    ensures
        match r {
            Some(revision) => revision_of(call@) == Some(revision@),
            None => revision_of(call@) is None,
        },
{
    let key = to_chars("revision");
    let mut at: usize = 0;
    while at < call.len()
        invariant
            at <= call.len(),
            key@ == revision_key(),
            revision_of(call@) == first_revision(call@, at as int),
        decreases call.len() - at,
    {
        let found = revision_starting_at(call, key.as_slice(), at);
        if found.is_some() {
            return found;
        }
        at += 1;
    }
    None
}

/// The tier of one call, given as the text from the call's name to its closing
/// parenthesis.
pub fn classify_call(call: &[char]) -> (r: Status)
    ensures
        r == call_status(call@),
{
    if has_credential_flag(call) || has_local_path(call) {
        return Status::Safe;
    }
    match find_revision(call) {
        Some(revision) => if is_commit_sha_chars(revision) {
            Status::Safe
        } else {
            Status::PartiallySafe
        },
        None => Status::Unsafe,
    }
}

} // verus!
