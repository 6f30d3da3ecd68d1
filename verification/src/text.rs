//! Texts as sequences of characters, and the few searches the scanner is made of.

use vstd::prelude::*;

verus! {

/// Whether `c` is white space: a character with the Unicode property
/// `White_Space`.
pub open spec fn is_space(c: char) -> bool {
    let n = c as int;
    ||| 0x09 <= n <= 0x0D
    ||| n == 0x20
    ||| n == 0x85
    ||| n == 0xA0
    ||| n == 0x1680
    ||| 0x2000 <= n <= 0x200A
    ||| n == 0x2028
    ||| n == 0x2029
    ||| n == 0x202F
    ||| n == 0x205F
    ||| n == 0x3000
}

/// Whether `c` is a single or a double quote.
pub open spec fn is_quote(c: char) -> bool {
    c == '"' || c == '\''
}

/// Whether `pat` stands in `text` at index `at`, character for character.
pub open spec fn occurs_at(text: Seq<char>, pat: Seq<char>, at: int) -> bool {
    &&& 0 <= at
    &&& at + pat.len() <= text.len()
    &&& text.subrange(at, at + pat.len()) == pat
}

/// Whether `pat` stands somewhere in `text`.
pub open spec fn occurs_in(text: Seq<char>, pat: Seq<char>) -> bool {
    exists|at: int| occurs_at(text, pat, at)
}

/// The first index at or after `from` that holds no white space: the length
/// of `text` if only white space follows, and `from` itself if it lies outside
/// the text.
pub open spec fn skip_spaces(text: Seq<char>, from: int) -> int
    decreases text.len() - from,
{
    if 0 <= from < text.len() && is_space(text[from]) {
        skip_spaces(text, from + 1)
    } else {
        from
    }
}

/// The first index at or after `from` that holds `c`: the length of `text` if
/// none does, and `from` itself if it lies outside the text.
pub open spec fn find_char(text: Seq<char>, c: char, from: int) -> int
    decreases text.len() - from,
{
    if 0 <= from < text.len() && text[from] != c {
        find_char(text, c, from + 1)
    } else {
        from
    }
}

/// The first index at or after `from` that holds a quote: the length of
/// `text` if none does, and `from` itself if it lies outside the text.
pub open spec fn find_quote(text: Seq<char>, from: int) -> int
    decreases text.len() - from,
{
    if 0 <= from < text.len() && !is_quote(text[from]) {
        find_quote(text, from + 1)
    } else {
        from
    }
}

/// `skip_spaces` stays within the text and passes over white space only.
pub proof fn lemma_skip_spaces(text: Seq<char>, from: int)
    requires
        0 <= from <= text.len(),
    ensures
        from <= skip_spaces(text, from) <= text.len(),
        forall|k: int| from <= k < skip_spaces(text, from) ==> is_space(#[trigger] text[k]),
        skip_spaces(text, from) < text.len() ==> !is_space(text[skip_spaces(text, from)]),
    decreases text.len() - from,
{
    if from < text.len() && is_space(text[from]) {
        lemma_skip_spaces(text, from + 1);
    }
}

/// `find_char` stays within the text and passes over no `c`.
pub proof fn lemma_find_char(text: Seq<char>, c: char, from: int)
    requires
        0 <= from <= text.len(),
    ensures
        from <= find_char(text, c, from) <= text.len(),
        forall|k: int| from <= k < find_char(text, c, from) ==> #[trigger] text[k] != c,
        find_char(text, c, from) < text.len() ==> text[find_char(text, c, from)] == c,
    decreases text.len() - from,
{
    if from < text.len() && text[from] != c {
        lemma_find_char(text, c, from + 1);
    }
}

/// `find_quote` stays within the text and passes over no quote.
pub proof fn lemma_find_quote(text: Seq<char>, from: int)
    requires
        0 <= from <= text.len(),
    ensures
        from <= find_quote(text, from) <= text.len(),
        forall|k: int| from <= k < find_quote(text, from) ==> !is_quote(#[trigger] text[k]),
        find_quote(text, from) < text.len() ==> is_quote(text[find_quote(text, from)]),
    decreases text.len() - from,
{
    if from < text.len() && !is_quote(text[from]) {
        lemma_find_quote(text, from + 1);
    }
}

/// The characters of a string, in order.
pub fn to_chars(s: &str) -> (chars: Vec<char>)
    ensures
        chars@ == s@,
{
    let mut chars: Vec<char> = Vec::new();
    for c in it: s.chars()
        invariant
            chars@ == it.seq().take(it.index() as int),
            it.seq() == s@,
    {
        chars.push(c);
    }
    chars
}

/// Assumed of `String::push` of the standard library, and not proved here:
/// it appends the character to the end of the string and leaves what stood
/// before it as it was.
pub assume_specification[ String::push ](s: &mut String, c: char)
    ensures
        final(s)@ == old(s)@.push(c),
;

/// The string made of the given characters, in order.
pub fn to_string(chars: &[char]) -> (s: String)
    ensures
        s@ == chars@,
{
    let mut s = String::new();
    let mut i: usize = 0;
    while i < chars.len()
        invariant
            i <= chars.len(),
            s@ == chars@.take(i as int),
        decreases chars.len() - i,
    {
        s.push(chars[i]);
        i += 1;
    }
    s
}

/// Tells whether a character is white space.
pub fn is_space_char(c: char) -> (r: bool)
    ensures
        r == is_space(c),
{
    let n: u32 = c as u32;
    (0x09 <= n && n <= 0x0D) || n == 0x20 || n == 0x85 || n == 0xA0 || n == 0x1680 || (0x2000 <= n
        && n <= 0x200A) || n == 0x2028 || n == 0x2029 || n == 0x202F || n == 0x205F || n == 0x3000
}

/// Tells whether a character is a single or a double quote.
pub fn is_quote_char(c: char) -> (r: bool)
    ensures
        r == is_quote(c),
{
    c == '"' || c == '\''
}

/// Tells whether `pat` stands in `text` at index `at`.
pub fn starts_at(text: &[char], pat: &[char], at: usize) -> (r: bool)
    ensures
        r == occurs_at(text@, pat@, at as int),
{
    if pat.len() > text.len() || at > text.len() - pat.len() {
        return false;
    }
    let mut k: usize = 0;
    while k < pat.len()
        invariant
            k <= pat.len(),
            at + pat.len() <= text.len(),
            forall|j: int| 0 <= j < k ==> text@[at + j] == #[trigger] pat@[j],
        decreases pat.len() - k,
    {
        if text[at + k] != pat[k] {
            assert(text@.subrange(at as int, at + pat.len())[k as int] != pat@[k as int]);
            return false;
        }
        k += 1;
    }
    assert(text@.subrange(at as int, at + pat.len()) =~= pat@);
    true
}

/// Tells whether `pat` stands somewhere in `text`.
pub fn contains(text: &[char], pat: &[char]) -> (r: bool)
    ensures
        r == occurs_in(text@, pat@),
{
    if pat.len() > text.len() {
        return false;
    }
    let last: usize = text.len() - pat.len();
    let mut at: usize = 0;
    while at < last
        invariant
            at <= last,
            last == text.len() - pat.len(),
            forall|j: int| 0 <= j < at ==> !occurs_at(text@, pat@, j),
        decreases last - at,
    {
        if starts_at(text, pat, at) {
            return true;
        }
        at += 1;
    }
    starts_at(text, pat, last)
}

/// The first index at or after `from` that holds no white space.
pub fn skip_spaces_from(text: &[char], from: usize) -> (r: usize)
    ensures
        r == skip_spaces(text@, from as int),
        from <= r,
        from <= text.len() ==> r <= text.len(),
{
    if from >= text.len() {
        return from;
    }
    let mut i: usize = from;
    while i < text.len() && is_space_char(text[i])
        invariant
            from <= i <= text.len(),
            skip_spaces(text@, from as int) == skip_spaces(text@, i as int),
        decreases text.len() - i,
    {
        i += 1;
    }
    i
}

/// The first index at or after `from` that holds `c`.
pub fn find_char_from(text: &[char], c: char, from: usize) -> (r: usize)
    ensures
        r == find_char(text@, c, from as int),
        from <= r,
        from <= text.len() ==> r <= text.len(),
{
    if from >= text.len() {
        return from;
    }
    let mut i: usize = from;
    while i < text.len() && text[i] != c
        invariant
            from <= i <= text.len(),
            find_char(text@, c, from as int) == find_char(text@, c, i as int),
        decreases text.len() - i,
    {
        i += 1;
    }
    i
}

/// The first index at or after `from` that holds a quote.
pub fn find_quote_from(text: &[char], from: usize) -> (r: usize)
    ensures
        r == find_quote(text@, from as int),
        from <= r,
        from <= text.len() ==> r <= text.len(),
{
    if from >= text.len() {
        return from;
    }
    let mut i: usize = from;
    while i < text.len() && !is_quote_char(text[i])
        invariant
            from <= i <= text.len(),
            find_quote(text@, from as int) == find_quote(text@, i as int),
        decreases text.len() - i,
    {
        i += 1;
    }
    i
}

} // verus!
