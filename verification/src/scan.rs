//! The calls of a text: where each risky call starts and ends, and how many
//! fall into each tier.

use vstd::prelude::*;
use vstd::slice::slice_subrange;
use crate::classify::{call_status, classify_call, first_argument_is_local};
use crate::status::Status;
use crate::text::{
    find_char, find_char_from, is_quote, is_space, lemma_find_char, lemma_skip_spaces, occurs_at,
    skip_spaces, skip_spaces_from, starts_at, to_chars,
};

verus! {

/// The call that loads a model.
pub open spec fn model_load() -> Seq<char> {
    "AutoModel.from_pretrained"@
}

/// The call that loads a tokenizer.
pub open spec fn tokenizer_load() -> Seq<char> {
    "AutoTokenizer.from_pretrained"@
}

/// The call that loads a dataset.
pub open spec fn dataset_load() -> Seq<char> {
    "load_dataset"@
}

/// The call that downloads one file from the hub.
pub open spec fn file_download() -> Seq<char> {
    "hf_hub_download"@
}

/// The call that downloads a whole repository from the hub.
pub open spec fn snapshot_download() -> Seq<char> {
    "snapshot_download"@
}

/// Where the call of `name` that starts at index `start` of `text` ends, if
/// one starts there: the name, any white space, an opening parenthesis, and
/// then everything up to the first closing parenthesis, whatever stands
/// between the two. The end is the index after that closing parenthesis.
pub open spec fn call_end(text: Seq<char>, name: Seq<char>, start: int) -> Option<int> {
    let open = skip_spaces(text, start + name.len());
    let close = find_char(text, ')', open + 1);
    if occurs_at(text, name, start) && open < text.len() && text[open] == '(' && close
        < text.len() {
        Some(close + 1)
    } else {
        None
    }
}

/// The start and the end of the first call of `name` that starts at or after
/// index `from` of `text`.
pub open spec fn next_call(text: Seq<char>, name: Seq<char>, from: int) -> Option<(int, int)>
    decreases text.len() - from,
{
    if from < 0 || from >= text.len() {
        None
    } else {
        match call_end(text, name, from) {
            Some(end) => Some((from, end)),
            None => next_call(text, name, from + 1),
        }
    }
}

/// The calls of `name` in `text` from index `from` on, from left to right: each
/// search starts where the call before it ended, so that no two overlap.
pub open spec fn calls_from(text: Seq<char>, name: Seq<char>, from: int) -> Seq<Seq<char>>
    decreases text.len() - from,
{
    match next_call(text, name, from) {
        Some((start, end)) => {
            proof {
                lemma_next_call(text, name, from);
            }
            seq![text.subrange(start, end)] + calls_from(text, name, end)
        },
        None => Seq::empty(),
    }
}

/// The calls of `name` in `text`.
pub open spec fn calls_of(text: Seq<char>, name: Seq<char>) -> Seq<Seq<char>> {
    calls_from(text, name, 0)
}

/// The risky calls of `text`: those of each call in turn, in a fixed order.
pub open spec fn all_calls(text: Seq<char>) -> Seq<Seq<char>> {
    calls_of(text, model_load()) + calls_of(text, tokenizer_load()) + calls_of(
        text,
        dataset_load(),
    ) + calls_of(text, file_download()) + calls_of(text, snapshot_download())
}

/// How many of `calls` fall into the tier `status`.
pub open spec fn count_status(calls: Seq<Seq<char>>, status: Status) -> nat {
    calls.filter(|call: Seq<char>| call_status(call) == status).len()
}

/// No call at all falls into any tier.
pub proof fn lemma_count_none(status: Status)
    ensures
        count_status(Seq::empty(), status) == 0,
{
    Seq::<Seq<char>>::empty().lemma_filter_len(|call: Seq<char>| call_status(call) == status);
}

/// One call more counts for its own tier and for no other.
pub proof fn lemma_count_push(calls: Seq<Seq<char>>, call: Seq<char>, status: Status)
    ensures
        count_status(calls.push(call), status) == count_status(calls, status) + if call_status(call)
            == status {
            1nat
        } else {
            0nat
        },
{
    calls.lemma_filter_len_push(|call: Seq<char>| call_status(call) == status, call);
}

/// The counts of two runs of calls add up.
pub proof fn lemma_count_add(a: Seq<Seq<char>>, b: Seq<Seq<char>>, status: Status)
    ensures
        count_status(a + b, status) == count_status(a, status) + count_status(b, status),
{
    Seq::filter_distributes_over_add(a, b, |call: Seq<char>| call_status(call) == status);
}

/// Every call falls into exactly one tier.
pub proof fn lemma_count_total(calls: Seq<Seq<char>>)
    ensures
        count_status(calls, Status::Safe) + count_status(calls, Status::PartiallySafe)
            + count_status(calls, Status::Unsafe) == calls.len(),
    decreases calls.len(),
{
    if calls.len() == 0 {
        lemma_count_none(Status::Safe);
        lemma_count_none(Status::PartiallySafe);
        lemma_count_none(Status::Unsafe);
        assert(calls =~= Seq::<Seq<char>>::empty());
    } else {
        let front = calls.drop_last();
        lemma_count_total(front);
        assert(calls =~= front.push(calls.last()));
        lemma_count_push(front, calls.last(), Status::Safe);
        lemma_count_push(front, calls.last(), Status::PartiallySafe);
        lemma_count_push(front, calls.last(), Status::Unsafe);
    }
}

/// From the start of a call on, the calls are that call and those from its end
/// on.
pub proof fn lemma_calls_step(text: Seq<char>, name: Seq<char>, from: int)
    ensures
        match next_call(text, name, from) {
            Some((start, end)) => calls_from(text, name, from) == seq![text.subrange(start, end)]
                + calls_from(text, name, end),
            None => calls_from(text, name, from) == Seq::<Seq<char>>::empty(),
        },
{
}

/// A call holds its name and two parentheses at least, and ends within the
/// text.
pub proof fn lemma_call_end(text: Seq<char>, name: Seq<char>, start: int)
    requires
        call_end(text, name, start) is Some,
    ensures
        0 <= start,
        start + name.len() + 2 <= call_end(text, name, start)->0 <= text.len(),
{
    let open = skip_spaces(text, start + name.len());
    lemma_skip_spaces(text, start + name.len());
    lemma_find_char(text, ')', open + 1);
}

/// Whether `name` holds no opening parenthesis.
pub open spec fn holds_no_parenthesis(name: Seq<char>) -> bool {
    forall|i: int| 0 <= i < name.len() ==> #[trigger] name[i] != '('
}

/// The first opening parenthesis in a call is the call's own, the one that
/// follows the name and the white space after it, if the name holds none. So
/// the first argument of a call is what follows this parenthesis.
pub proof fn lemma_own_parenthesis(text: Seq<char>, name: Seq<char>, start: int)
    requires
        call_end(text, name, start) is Some,
        holds_no_parenthesis(name),
    ensures
        find_char(text.subrange(start, call_end(text, name, start)->0), '(', 0) == skip_spaces(
            text,
            start + name.len(),
        ) - start,
{
    let end = call_end(text, name, start)->0;
    let call = text.subrange(start, end);
    let open = skip_spaces(text, start + name.len());
    lemma_call_end(text, name, start);
    lemma_skip_spaces(text, start + name.len());
    lemma_find_char(text, ')', open + 1);
    lemma_find_char(call, '(', 0);
    let first = find_char(call, '(', 0);
    assert(call[open - start] == '(');
    assert forall|k: int| 0 <= k < open - start implies call[k] != '(' by {
        if k < name.len() {
            assert(text.subrange(start, start + name.len())[k] == name[k]);
        } else {
            assert(is_space(text[start + k]));
            assert(!is_space('('));
        }
    }
    if first < open - start {
        assert(call[first] == '(');
    }
}

/// Whether a quote and then `/` or `./` stand in `text` at index `at`: the
/// start of a local path in quotes.
pub open spec fn local_path_starts(text: Seq<char>, at: int) -> bool {
    &&& 0 <= at
    &&& at + 1 < text.len()
    &&& is_quote(text[at])
    &&& (text[at + 1] == '/' || (text[at + 1] == '.' && at + 2 < text.len() && text[at + 2]
        == '/'))
}

/// A call of any name without a parenthesis is safe if a local path in quotes
/// follows its opening parenthesis at once, whatever else it holds.
pub proof fn lemma_local_call_is_safe(text: Seq<char>, name: Seq<char>, start: int)
    requires
        call_end(text, name, start) is Some,
        holds_no_parenthesis(name),
        local_path_starts(text, skip_spaces(text, start + name.len()) + 1),
    ensures
        call_status(text.subrange(start, call_end(text, name, start)->0)) == Status::Safe,
{
    let end = call_end(text, name, start)->0;
    let call = text.subrange(start, end);
    let open = skip_spaces(text, start + name.len());
    lemma_call_end(text, name, start);
    lemma_skip_spaces(text, start + name.len());
    lemma_find_char(text, ')', open + 1);
    lemma_own_parenthesis(text, name, start);
    let close = end - 1;
    assert(text[close] == ')');
    assert(close > open + 2) by {
        if close == open + 1 {
            assert(is_quote(text[open + 1]));
        } else if close == open + 2 {
            assert(text[open + 2] == '/' || text[open + 2] == '.');
        }
    }
    if text[open + 2] == '.' {
        assert(text[open + 3] == '/');
        assert(close > open + 3);
    }
    assert(call[open - start + 1] == text[open + 1]);
    assert(call[open - start + 2] == text[open + 2]);
    assert(first_argument_is_local(call));
}

/// None of the names of the risky calls holds an opening parenthesis.
pub proof fn lemma_names_hold_no_parenthesis()
    ensures
        holds_no_parenthesis(model_load()),
        holds_no_parenthesis(tokenizer_load()),
        holds_no_parenthesis(dataset_load()),
        holds_no_parenthesis(file_download()),
        holds_no_parenthesis(snapshot_download()),
{
    reveal_strlit("AutoModel.from_pretrained");
    reveal_strlit("AutoTokenizer.from_pretrained");
    reveal_strlit("load_dataset");
    reveal_strlit("hf_hub_download");
    reveal_strlit("snapshot_download");
}

/// The next call is a call, starts at or after the index the search started
/// from, and is the first to do so.
pub proof fn lemma_next_call(text: Seq<char>, name: Seq<char>, from: int)
    ensures
        match next_call(text, name, from) {
            Some((start, end)) => {
                &&& 0 <= from <= start
                &&& call_end(text, name, start) == Some(end)
                &&& start + name.len() + 2 <= end <= text.len()
                &&& forall|k: int| from <= k < start ==> call_end(text, name, k) is None
            },
            None => true,
        },
    decreases text.len() - from,
{
    if 0 <= from < text.len() {
        if call_end(text, name, from) is Some {
            lemma_call_end(text, name, from);
        } else {
            lemma_next_call(text, name, from + 1);
        }
    }
}

/// Where no call starts between `from` and `later`, the search from `from`
/// finds what the search from `later` finds.
pub proof fn lemma_next_call_skip(text: Seq<char>, name: Seq<char>, from: int, later: int)
    requires
        0 <= from <= later <= text.len(),
        forall|k: int| from <= k < later ==> call_end(text, name, k) is None,
    ensures
        next_call(text, name, from) == next_call(text, name, later),
    decreases later - from,
{
    if from < later {
        lemma_next_call_skip(text, name, from + 1, later);
    }
}

/// Calls do not overlap, and each holds its name and two parentheses, so
/// that many together fit into the text.
pub proof fn lemma_calls_fit(text: Seq<char>, name: Seq<char>, from: int)
    requires
        0 <= from <= text.len(),
    ensures
        calls_from(text, name, from).len() * (name.len() + 2) <= text.len() - from,
    decreases text.len() - from,
{
    match next_call(text, name, from) {
        Some((start, end)) => {
            lemma_next_call(text, name, from);
            lemma_calls_fit(text, name, end);
            let rest = calls_from(text, name, end).len();
            let width = name.len() + 2;
            assert((rest + 1) * width == rest * width + width) by (nonlinear_arith);
        },
        None => {},
    }
}

/// The first call of `name` that starts at or after index `from`: its start,
/// and the index after its closing parenthesis.
pub fn find_call(text: &[char], name: &[char], from: usize) -> (r: Option<(usize, usize)>)
    ensures
        match r {
            Some((start, end)) => next_call(text@, name@, from as int) == Some(
                (start as int, end as int),
            ),
            None => next_call(text@, name@, from as int) is None,
        },
{
    let len = text.len();
    if from >= len {
        return None;
    }
    let mut at: usize = from;
    while at < len
        invariant
            from <= at <= len,
            len == text.len(),
            next_call(text@, name@, from as int) == next_call(text@, name@, at as int),
        decreases len - at,
    {
        if starts_at(text, name, at) {
            let open = skip_spaces_from(text, at + name.len());
            if open < len && text[open] == '(' {
                let close = find_char_from(text, ')', open + 1);
                if close < len {
                    return Some((at, close + 1));
                }
                proof {
                    lemma_no_call_after(text@, name@, at as int);
                }
                return None;
            }
        }
        at += 1;
    }
    None
}

/// Where a call's opening parenthesis is never closed, no call starts there or
/// later.
proof fn lemma_no_call_after(text: Seq<char>, name: Seq<char>, at: int)
    requires
        0 <= at,
        at + name.len() <= text.len(),
        ({
            let open = skip_spaces(text, at + name.len());
            open < text.len() && text[open] == '(' && find_char(text, ')', open + 1) == text.len()
        }),
    ensures
        next_call(text, name, at) is None,
{
    let open = skip_spaces(text, at + name.len());
    lemma_skip_spaces(text, at + name.len());
    lemma_find_char(text, ')', open + 1);
    assert forall|k: int| at + name.len() <= k < text.len() implies text[k] != ')' by {
        assert(!is_space(')'));
    }
    assert forall|k: int| at <= k < text.len() implies call_end(text, name, k) is None by {
        if call_end(text, name, k) is Some {
            lemma_call_end(text, name, k);
            let close = call_end(text, name, k)->0 - 1;
            lemma_skip_spaces(text, k + name.len());
            lemma_find_char(text, ')', skip_spaces(text, k + name.len()) + 1);
            assert(text[close] == ')');
        }
    }
    lemma_next_call_skip(text, name, at, text.len() as int);
}

/// How many calls of `name` in the text are safe, partially safe and unsafe,
/// in this order.
pub fn tally_calls(text: &[char], name: &[char]) -> (r: (usize, usize, usize))
    ensures
        r.0 == count_status(calls_of(text@, name@), Status::Safe),
        r.1 == count_status(calls_of(text@, name@), Status::PartiallySafe),
        r.2 == count_status(calls_of(text@, name@), Status::Unsafe),
        r.0 + r.1 + r.2 == calls_of(text@, name@).len(),
{
    let mut safe: usize = 0;
    let mut partial: usize = 0;
    let mut unsafe_: usize = 0;
    let mut from: usize = 0;
    let ghost mut seen: Seq<Seq<char>> = Seq::empty();
    let mut next = find_call(text, name, 0);
    proof {
        lemma_calls_fit(text@, name@, 0);
        assert(calls_of(text@, name@).len() <= text@.len()) by (nonlinear_arith)
            requires
                calls_of(text@, name@).len() * (name@.len() + 2) <= text@.len(),
        ;
        assert(seen + calls_from(text@, name@, 0) =~= calls_of(text@, name@));
        lemma_count_none(Status::Safe);
        lemma_count_none(Status::PartiallySafe);
        lemma_count_none(Status::Unsafe);
    }
    while next.is_some()
        invariant
            from <= text.len(),
            calls_of(text@, name@).len() <= text@.len(),
            calls_of(text@, name@) == seen + calls_from(text@, name@, from as int),
            match next {
                Some((start, end)) => next_call(text@, name@, from as int) == Some(
                    (start as int, end as int),
                ),
                None => next_call(text@, name@, from as int) is None,
            },
            safe == count_status(seen, Status::Safe),
            partial == count_status(seen, Status::PartiallySafe),
            unsafe_ == count_status(seen, Status::Unsafe),
            safe + partial + unsafe_ == seen.len(),
        decreases text.len() - from,
    {
        let (start, end) = next.unwrap();
        proof {
            lemma_next_call(text@, name@, from as int);
            lemma_calls_step(text@, name@, from as int);
        }
        let call = slice_subrange(text, start, end);
        let status = classify_call(call);
        proof {
            let rest = calls_from(text@, name@, end as int);
            assert(seen.push(call@) + rest =~= seen + (seq![call@] + rest));
            lemma_count_push(seen, call@, Status::Safe);
            lemma_count_push(seen, call@, Status::PartiallySafe);
            lemma_count_push(seen, call@, Status::Unsafe);
            seen = seen.push(call@);
        }
        match status {
            Status::Safe => {
                safe += 1;
            },
            Status::PartiallySafe => {
                partial += 1;
            },
            Status::Unsafe => {
                unsafe_ += 1;
            },
        }
        from = end;
        next = find_call(text, name, end);
    }
    proof {
        lemma_calls_step(text@, name@, from as int);
        assert(seen + Seq::<Seq<char>>::empty() =~= seen);
    }
    (safe, partial, unsafe_)
}

/// The names of the risky calls have three characters or more.
proof fn lemma_name_lengths()
    ensures
        model_load().len() >= 3,
        tokenizer_load().len() >= 3,
        dataset_load().len() >= 3,
        file_download().len() >= 3,
        snapshot_download().len() >= 3,
{
    reveal_strlit("AutoModel.from_pretrained");
    reveal_strlit("AutoTokenizer.from_pretrained");
    reveal_strlit("load_dataset");
    reveal_strlit("hf_hub_download");
    reveal_strlit("snapshot_download");
}

/// How many risky calls in the text are safe, partially safe and unsafe, in
/// this order.
pub fn scan_chars(text: &[char]) -> (r: (usize, usize, usize))
    ensures
        r.0 == count_status(all_calls(text@), Status::Safe),
        r.1 == count_status(all_calls(text@), Status::PartiallySafe),
        r.2 == count_status(all_calls(text@), Status::Unsafe),
        r.0 + r.1 + r.2 == all_calls(text@).len(),
{
    let model = to_chars("AutoModel.from_pretrained");
    let tokenizer = to_chars("AutoTokenizer.from_pretrained");
    let dataset = to_chars("load_dataset");
    let file = to_chars("hf_hub_download");
    let snapshot = to_chars("snapshot_download");
    let a = tally_calls(text, model.as_slice());
    let b = tally_calls(text, tokenizer.as_slice());
    let c = tally_calls(text, dataset.as_slice());
    let d = tally_calls(text, file.as_slice());
    let e = tally_calls(text, snapshot.as_slice());
    proof {
        // A text has no more characters than a count can hold.
        assert(text@.len() == text.len());
        lemma_name_lengths();
        lemma_few_calls(text@, model_load());
        lemma_few_calls(text@, tokenizer_load());
        lemma_few_calls(text@, dataset_load());
        lemma_few_calls(text@, file_download());
        lemma_few_calls(text@, snapshot_download());
        lemma_count_all(text@, Status::Safe);
        lemma_count_all(text@, Status::PartiallySafe);
        lemma_count_all(text@, Status::Unsafe);
        lemma_count_total(all_calls(text@));
    }
    (a.0 + b.0 + c.0 + d.0 + e.0, a.1 + b.1 + c.1 + d.1 + e.1, a.2 + b.2 + c.2 + d.2 + e.2)
}

/// Of a name of three characters or more, at most a fifth as many calls fit
/// into a text as it has characters.
proof fn lemma_few_calls(text: Seq<char>, name: Seq<char>)
    requires
        name.len() >= 3,
    ensures
        5 * calls_of(text, name).len() <= text.len(),
{
    lemma_calls_fit(text, name, 0);
    let n = calls_of(text, name).len();
    let width = name.len() + 2;
    assert(5 * n <= n * width) by (nonlinear_arith)
        requires
            width >= 5,
            n >= 0,
    ;
}

/// The count over all risky calls is the sum of the counts over each call's.
proof fn lemma_count_all(text: Seq<char>, status: Status)
    ensures
        count_status(all_calls(text), status) == count_status(calls_of(text, model_load()), status)
            + count_status(calls_of(text, tokenizer_load()), status) + count_status(
            calls_of(text, dataset_load()),
            status,
        ) + count_status(calls_of(text, file_download()), status) + count_status(
            calls_of(text, snapshot_download()),
            status,
        ),
{
    let a = calls_of(text, model_load());
    let b = calls_of(text, tokenizer_load());
    let c = calls_of(text, dataset_load());
    let d = calls_of(text, file_download());
    let e = calls_of(text, snapshot_download());
    lemma_count_add(a, b, status);
    lemma_count_add(a + b, c, status);
    lemma_count_add(a + b + c, d, status);
    lemma_count_add(a + b + c + d, e, status);
}

/// Scans a source text for risky calls and counts them by tier: safe,
/// partially safe and unsafe, in this order. The counts depend on the text
/// alone.
pub fn scan_code_for_usage(code: &str) -> (r: (usize, usize, usize))
    ensures
        r.0 == count_status(all_calls(code@), Status::Safe),
        r.1 == count_status(all_calls(code@), Status::PartiallySafe),
        r.2 == count_status(all_calls(code@), Status::Unsafe),
        r.0 + r.1 + r.2 == all_calls(code@).len(),
{
    let text = to_chars(code);
    scan_chars(text.as_slice())
}

/// The counts of one file, given its text if it could be read. A file that
/// could not be read counts as a file without calls.
pub fn scan_file(content: Option<&str>) -> (r: (usize, usize, usize))
    ensures
        match content {
            Some(code) => {
                &&& r.0 == count_status(all_calls(code@), Status::Safe)
                &&& r.1 == count_status(all_calls(code@), Status::PartiallySafe)
                &&& r.2 == count_status(all_calls(code@), Status::Unsafe)
            },
            None => r == (0usize, 0usize, 0usize),
        },
{
    match content {
        Some(code) => scan_code_for_usage(code),
        None => (0, 0, 0),
    }
}

} // verus!
