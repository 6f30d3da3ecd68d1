//! Comma-separated values: how a field is quoted, how fields make a record
//! and records a document, and how a reader gets the fields back.

use vstd::prelude::*;
use crate::aggregate::{row_views, FileRow};
use crate::summary::FileCounts;
use crate::text::{to_chars, to_string};

verus! {

/// Whether `c` is a character that a field cannot hold unquoted: a comma, a
/// double quote or a line feed.
pub open spec fn is_special(c: char) -> bool {
    c == ',' || c == '"' || c == '\n'
}

/// Whether `field` has to be quoted: whether it holds a special character.
pub open spec fn needs_quotes(field: Seq<char>) -> bool {
    exists|i: int| 0 <= i < field.len() && is_special(#[trigger] field[i])
}

/// `field` with each double quote written twice.
pub open spec fn double_quotes(field: Seq<char>) -> Seq<char>
    decreases field.len(),
{
    if field.len() == 0 {
        Seq::empty()
    } else if field[0] == '"' {
        seq!['"', '"'] + double_quotes(field.drop_first())
    } else {
        seq![field[0]] + double_quotes(field.drop_first())
    }
}

/// `field` as it stands in a record: unchanged where it holds no special
/// character, else between double quotes, with each double quote of its own
/// written twice.
pub open spec fn csv_field(field: Seq<char>) -> Seq<char> {
    if needs_quotes(field) {
        seq!['"'] + double_quotes(field) + seq!['"']
    } else {
        field
    }
}

/// What a reader takes for the rest of a quoted field, and what it leaves
/// unread, when `text` follows the opening quote: a doubled quote stands for
/// one quote, and a single one ends the field.
pub open spec fn read_quoted(text: Seq<char>) -> (Seq<char>, Seq<char>)
    decreases text.len(),
{
    if text.len() == 0 {
        (Seq::empty(), text)
    } else if text[0] != '"' {
        let (value, rest) = read_quoted(text.drop_first());
        (seq![text[0]] + value, rest)
    } else if text.len() >= 2 && text[1] == '"' {
        let (value, rest) = read_quoted(text.skip(2));
        (seq!['"'] + value, rest)
    } else {
        (Seq::empty(), text.drop_first())
    }
}

/// What a reader takes for an unquoted field at the start of `text`, and what
/// it leaves unread: the field goes up to the next comma or line feed.
pub open spec fn read_plain(text: Seq<char>) -> (Seq<char>, Seq<char>)
    decreases text.len(),
{
    if text.len() == 0 || text[0] == ',' || text[0] == '\n' {
        (Seq::empty(), text)
    } else {
        let (value, rest) = read_plain(text.drop_first());
        (seq![text[0]] + value, rest)
    }
}

/// What a reader takes for the field at the start of `text`, and what it
/// leaves unread. A field that starts with a double quote is quoted.
pub open spec fn read_field(text: Seq<char>) -> (Seq<char>, Seq<char>) {
    if text.len() > 0 && text[0] == '"' {
        read_quoted(text.drop_first())
    } else {
        read_plain(text)
    }
}

/// Whether a field can end where `rest` starts: at the end of the text, at a
/// comma or at a line feed.
pub open spec fn ends_field(rest: Seq<char>) -> bool {
    rest.len() == 0 || rest[0] == ',' || rest[0] == '\n'
}

/// Doubling the quotes of a text one character longer.
pub proof fn lemma_double_quotes_push(field: Seq<char>, c: char)
    ensures
        double_quotes(field.push(c)) == double_quotes(field) + if c == '"' {
            seq!['"', '"']
        } else {
            seq![c]
        },
    decreases field.len(),
{
    let piece = if c == '"' {
        seq!['"', '"']
    } else {
        seq![c]
    };
    if field.len() == 0 {
        let one = field.push(c);
        assert(one.drop_first() =~= Seq::<char>::empty());
        assert(double_quotes(one.drop_first()) =~= Seq::<char>::empty());
        assert(double_quotes(one) =~= piece + double_quotes(one.drop_first()));
        assert(double_quotes(field) + piece =~= piece);
    } else {
        lemma_double_quotes_push(field.drop_first(), c);
        assert(field.push(c).drop_first() =~= field.drop_first().push(c));
        let head = if field[0] == '"' {
            seq!['"', '"']
        } else {
            seq![field[0]]
        };
        assert(head + (double_quotes(field.drop_first()) + piece) =~= (head + double_quotes(
            field.drop_first(),
        )) + piece);
    }
}

/// A reader gets a quoted field back: after the opening quote it reads the
/// field itself, and leaves what follows the closing quote.
pub proof fn lemma_read_quoted(field: Seq<char>, rest: Seq<char>)
    requires
        rest.len() == 0 || rest[0] != '"',
    ensures
        read_quoted(double_quotes(field) + seq!['"'] + rest) == (field, rest),
    decreases field.len(),
{
    let text = double_quotes(field) + seq!['"'] + rest;
    if field.len() == 0 {
        assert(text =~= seq!['"'] + rest);
        assert(text.drop_first() =~= rest);
    } else {
        let tail = field.drop_first();
        lemma_read_quoted(tail, rest);
        let after = double_quotes(tail) + seq!['"'] + rest;
        if field[0] == '"' {
            assert(text =~= seq!['"', '"'] + after);
            assert(text.skip(2) =~= after);
            assert(seq!['"'] + tail =~= field);
        } else {
            assert(text =~= seq![field[0]] + after);
            assert(text.drop_first() =~= after);
            assert(seq![field[0]] + tail =~= field);
        }
    }
}

/// A reader gets an unquoted field back, and leaves what follows it.
pub proof fn lemma_read_plain(field: Seq<char>, rest: Seq<char>)
    requires
        !needs_quotes(field),
        ends_field(rest),
    ensures
        read_plain(field + rest) == (field, rest),
    decreases field.len(),
{
    let text = field + rest;
    if field.len() == 0 {
        assert(text =~= rest);
    } else {
        let tail = field.drop_first();
        assert(!is_special(field[0]));
        assert(!needs_quotes(tail)) by {
            if needs_quotes(tail) {
                let i = choose|i: int| 0 <= i < tail.len() && is_special(#[trigger] tail[i]);
                assert(is_special(field[i + 1]));
            }
        }
        lemma_read_plain(tail, rest);
        assert(text.drop_first() =~= tail + rest);
        assert(seq![field[0]] + tail =~= field);
    }
}

/// A reader gets every field back as it was, quoted or not, and leaves what
/// follows it.
pub proof fn lemma_read_field(field: Seq<char>, rest: Seq<char>)
    requires
        ends_field(rest),
    ensures
        read_field(csv_field(field) + rest) == (field, rest),
{
    let text = csv_field(field) + rest;
    if needs_quotes(field) {
        assert(text.drop_first() =~= double_quotes(field) + seq!['"'] + rest);
        lemma_read_quoted(field, rest);
    } else {
        lemma_read_plain(field, rest);
        if field.len() > 0 {
            assert(!is_special(field[0]));
        }
    }
}

/// Formats a field for a record: quotes it if and only if it holds a comma, a
/// double quote or a line feed, and then writes each double quote in it
/// twice.
pub fn format_csv_field(field: &str) -> (r: String)
    ensures
        r@ == csv_field(field@),
{
    let chars = to_chars(field);
    let out = format_field(chars.as_slice());
    to_string(out.as_slice())
}

/// Tells whether a field has to be quoted.
pub fn has_special(field: &[char]) -> (r: bool)
    ensures
        r == needs_quotes(field@),
{
    let mut i: usize = 0;
    while i < field.len()
        invariant
            i <= field.len(),
            forall|j: int| 0 <= j < i ==> !is_special(#[trigger] field@[j]),
        decreases field.len() - i,
    {
        let c = field[i];
        if c == ',' || c == '"' || c == '\n' {
            return true;
        }
        i += 1;
    }
    false
}

/// Adds a field to the end of `out`, formatted for a record.
pub fn push_field(out: &mut Vec<char>, field: &[char])
    ensures
        final(out)@ == old(out)@ + csv_field(field@),
{
    if !has_special(field) {
        let mut i: usize = 0;
        while i < field.len()
            invariant
                i <= field.len(),
                out@ == old(out)@ + field@.take(i as int),
            decreases field.len() - i,
        {
            out.push(field[i]);
            proof {
                assert(field@.take(i + 1) =~= field@.take(i as int).push(field@[i as int]));
            }
            i += 1;
        }
        proof {
            assert(field@.take(field@.len() as int) =~= field@);
        }
        return ;
    }
    out.push('"');
    let mut i: usize = 0;
    proof {
        assert(field@.take(0) =~= Seq::<char>::empty());
    }
    while i < field.len()
        invariant
            i <= field.len(),
            out@ == old(out)@ + seq!['"'] + double_quotes(field@.take(i as int)),
        decreases field.len() - i,
    {
        let c = field[i];
        proof {
            lemma_double_quotes_push(field@.take(i as int), c);
            assert(field@.take(i + 1) =~= field@.take(i as int).push(c));
        }
        if c == '"' {
            out.push('"');
            out.push('"');
        } else {
            out.push(c);
        }
        i += 1;
    }
    out.push('"');
    proof {
        assert(field@.take(field@.len() as int) =~= field@);
        assert(out@ =~= old(out)@ + (seq!['"'] + double_quotes(field@) + seq!['"']));
    }
}

/// A field formatted for a record.
pub fn format_field(field: &[char]) -> (r: Vec<char>)
    ensures
        r@ == csv_field(field@),
{
    let mut out: Vec<char> = Vec::new();
    push_field(&mut out, field);
    proof {
        assert(Seq::<char>::empty() + csv_field(field@) =~= csv_field(field@));
    }
    out
}

/// The fields of a record as they stand in it: each formatted, with a comma
/// between each two.
pub open spec fn join_fields(fields: Seq<Seq<char>>) -> Seq<char>
    decreases fields.len(),
{
    if fields.len() == 0 {
        Seq::empty()
    } else if fields.len() == 1 {
        csv_field(fields[0])
    } else {
        csv_field(fields[0]) + seq![','] + join_fields(fields.drop_first())
    }
}

/// A record as it stands in a document: its fields, and a line feed.
pub open spec fn csv_record(fields: Seq<Seq<char>>) -> Seq<char> {
    join_fields(fields) + seq!['\n']
}

/// A document: its records, one after the other.
pub open spec fn csv_document(records: Seq<Seq<Seq<char>>>) -> Seq<char>
    decreases records.len(),
{
    if records.len() == 0 {
        Seq::empty()
    } else {
        csv_record(records[0]) + csv_document(records.drop_first())
    }
}

/// What a reader takes for the record at the start of `text`, and what it
/// leaves unread: fields as long as a comma follows.
pub open spec fn read_record(text: Seq<char>) -> (Seq<Seq<char>>, Seq<char>)
    decreases text.len(),
{
    let (field, rest) = read_field(text);
    if rest.len() > 0 && rest[0] == ',' {
        proof {
            lemma_read_field_rest(text);
        }
        let (fields, after) = read_record(rest.drop_first());
        (seq![field] + fields, after)
    } else {
        (seq![field], rest)
    }
}

/// What a reader takes for the records of `text`: records as long as a line
/// feed follows and text is left.
pub open spec fn read_document(text: Seq<char>) -> Seq<Seq<Seq<char>>>
    decreases text.len(),
{
    if text.len() == 0 {
        Seq::empty()
    } else {
        let (fields, rest) = read_record(text);
        if rest.len() > 0 && rest[0] == '\n' {
            proof {
                lemma_read_record_rest(text);
            }
            seq![fields] + read_document(rest.drop_first())
        } else {
            seq![fields]
        }
    }
}

/// What a reader leaves unread after a quoted field is no longer than what it
/// was given.
pub proof fn lemma_read_quoted_rest(text: Seq<char>)
    ensures
        read_quoted(text).1.len() <= text.len(),
    decreases text.len(),
{
    if text.len() == 0 {
    } else if text[0] != '"' {
        lemma_read_quoted_rest(text.drop_first());
    } else if text.len() >= 2 && text[1] == '"' {
        lemma_read_quoted_rest(text.skip(2));
    }
}

/// What a reader leaves unread after an unquoted field is no longer than what
/// it was given.
pub proof fn lemma_read_plain_rest(text: Seq<char>)
    ensures
        read_plain(text).1.len() <= text.len(),
    decreases text.len(),
{
    if !(text.len() == 0 || text[0] == ',' || text[0] == '\n') {
        lemma_read_plain_rest(text.drop_first());
    }
}

/// What a reader leaves unread after a field is no longer than what it was
/// given.
pub proof fn lemma_read_field_rest(text: Seq<char>)
    ensures
        read_field(text).1.len() <= text.len(),
{
    if text.len() > 0 && text[0] == '"' {
        lemma_read_quoted_rest(text.drop_first());
    } else {
        lemma_read_plain_rest(text);
    }
}

/// What a reader leaves unread after a record is no longer than what it was
/// given.
pub proof fn lemma_read_record_rest(text: Seq<char>)
    ensures
        read_record(text).1.len() <= text.len(),
    decreases text.len(),
{
    lemma_read_field_rest(text);
    let rest = read_field(text).1;
    if rest.len() > 0 && rest[0] == ',' {
        lemma_read_record_rest(rest.drop_first());
    }
}

/// A reader gets the fields of a record back, and leaves what follows them.
pub proof fn lemma_read_record(fields: Seq<Seq<char>>, rest: Seq<char>)
    requires
        fields.len() >= 1,
        rest.len() == 0 || rest[0] == '\n',
    ensures
        read_record(join_fields(fields) + rest) == (fields, rest),
    decreases fields.len(),
{
    let text = join_fields(fields) + rest;
    if fields.len() == 1 {
        lemma_read_field(fields[0], rest);
        assert(seq![fields[0]] =~= fields);
    } else {
        let tail = fields.drop_first();
        let after = seq![','] + (join_fields(tail) + rest);
        assert(text =~= csv_field(fields[0]) + after);
        lemma_read_field(fields[0], after);
        assert(after.drop_first() =~= join_fields(tail) + rest);
        lemma_read_record(tail, rest);
        assert(seq![fields[0]] + tail =~= fields);
    }
}

/// A reader gets a document back as it was written: every record, and in
/// each every field, whatever commas, quotes and line feeds the fields hold.
pub proof fn lemma_read_document(records: Seq<Seq<Seq<char>>>)
    requires
        forall|i: int| 0 <= i < records.len() ==> (#[trigger] records[i]).len() >= 1,
    ensures
        read_document(csv_document(records)) == records,
    decreases records.len(),
{
    let text = csv_document(records);
    if records.len() == 0 {
        assert(records =~= Seq::<Seq<Seq<char>>>::empty());
    } else {
        let tail = records.drop_first();
        let after = seq!['\n'] + csv_document(tail);
        assert(text =~= join_fields(records[0]) + after);
        assert(records[0].len() >= 1);
        lemma_read_record(records[0], after);
        assert(after.drop_first() =~= csv_document(tail));
        assert forall|i: int| 0 <= i < tail.len() implies (#[trigger] tail[i]).len() >= 1 by {
            assert(tail[i] == records[i + 1]);
        }
        lemma_read_document(tail);
        assert(seq![records[0]] + tail =~= records);
    }
}

/// The fields of a record and one more.
pub proof fn lemma_join_fields_push(fields: Seq<Seq<char>>, field: Seq<char>)
    ensures
        join_fields(fields.push(field)) == if fields.len() == 0 {
            csv_field(field)
        } else {
            join_fields(fields) + seq![','] + csv_field(field)
        },
    decreases fields.len(),
{
    let more = fields.push(field);
    if fields.len() == 0 {
    } else if fields.len() == 1 {
        assert(more.drop_first() =~= seq![field]);
        assert(join_fields(more.drop_first()) == csv_field(field));
    } else {
        lemma_join_fields_push(fields.drop_first(), field);
        assert(more.drop_first() =~= fields.drop_first().push(field));
        assert(csv_field(fields[0]) + seq![','] + (join_fields(fields.drop_first()) + seq![',']
            + csv_field(field)) =~= csv_field(fields[0]) + seq![','] + join_fields(
            fields.drop_first(),
        ) + seq![','] + csv_field(field));
    }
}

/// The records of a document and one more.
pub proof fn lemma_csv_document_push(records: Seq<Seq<Seq<char>>>, fields: Seq<Seq<char>>)
    ensures
        csv_document(records.push(fields)) == csv_document(records) + csv_record(fields),
    decreases records.len(),
{
    let more = records.push(fields);
    if records.len() == 0 {
        assert(more.drop_first() =~= Seq::<Seq<Seq<char>>>::empty());
        assert(csv_document(more.drop_first()) =~= Seq::<char>::empty());
        assert(csv_document(more) =~= csv_record(fields));
        assert(csv_document(records) + csv_record(fields) =~= csv_record(fields));
    } else {
        lemma_csv_document_push(records.drop_first(), fields);
        assert(more.drop_first() =~= records.drop_first().push(fields));
        assert(csv_record(records[0]) + (csv_document(records.drop_first()) + csv_record(fields))
            =~= csv_record(records[0]) + csv_document(records.drop_first()) + csv_record(fields));
    }
}

/// The character of a digit from 0 to 9.
pub open spec fn digit(d: int) -> char {
    (d + 48) as char
}

/// A number in decimal digits, without leading zeros.
pub open spec fn decimal(n: nat) -> Seq<char>
    decreases n,
{
    if n < 10 {
        seq![digit(n as int)]
    } else {
        decimal(n / 10).push(digit(n as int % 10))
    }
}

/// A number in decimal digits holds digits only, so that it is never quoted.
pub proof fn lemma_decimal_plain(n: nat)
    ensures
        decimal(n).len() >= 1,
        forall|i: int| 0 <= i < decimal(n).len() ==> '0' <= #[trigger] decimal(n)[i] <= '9',
        !needs_quotes(decimal(n)),
        csv_field(decimal(n)) == decimal(n),
    decreases n,
{
    if n >= 10 {
        lemma_decimal_plain(n / 10);
    }
    assert forall|i: int| 0 <= i < decimal(n).len() implies '0' <= #[trigger] decimal(n)[i]
        <= '9' by {}
    if needs_quotes(decimal(n)) {
        let i = choose|i: int| 0 <= i < decimal(n).len() && is_special(#[trigger] decimal(n)[i]);
        assert('0' <= decimal(n)[i] <= '9');
    }
}

/// The digits of a number, in decimal.
pub fn decimal_digits(n: usize) -> (r: Vec<char>)
    ensures
        r@ == decimal(n as nat),
{
    let mut low_first: Vec<char> = Vec::new();
    let mut m: usize = n;
    proof {
        assert(decimal(m as nat) + low_first@.reverse() =~= decimal(n as nat));
    }
    while m >= 10
        invariant
            decimal(m as nat) + low_first@.reverse() == decimal(n as nat),
        decreases m,
    {
        let d: u8 = (m % 10) as u8;
        let c: char = (d + 48u8) as char;
        proof {
            let ghost before = low_first@;
            assert(c == digit(m as int % 10));
            assert(before.push(c).reverse() =~= seq![c] + before.reverse());
            assert(decimal((m / 10) as nat).push(c) + before.reverse() =~= decimal(
                (m / 10) as nat,
            ) + (seq![c] + before.reverse()));
        }
        low_first.push(c);
        m = m / 10;
    }
    let last: char = ((m as u8) + 48u8) as char;
    proof {
        let ghost before = low_first@;
        assert(last == digit(m as int));
        assert(before.push(last).reverse() =~= seq![last] + before.reverse());
    }
    low_first.push(last);
    let mut r: Vec<char> = Vec::new();
    let mut i: usize = low_first.len();
    while i > 0
        invariant
            i <= low_first@.len(),
            r@ == low_first@.reverse().take(low_first@.len() - i),
        decreases i,
    {
        i -= 1;
        r.push(low_first[i]);
        proof {
            let rev = low_first@.reverse();
            let k = low_first@.len() - i;
            assert(rev.take(k) =~= rev.take(k - 1).push(rev[k - 1]));
        }
    }
    proof {
        assert(low_first@.reverse().take(low_first@.len() as int) =~= low_first@.reverse());
    }
    r
}

/// The texts that the fields hold.
pub open spec fn texts(fields: Seq<Vec<char>>) -> Seq<Seq<char>> {
    fields.map_values(|field: Vec<char>| field@)
}

/// Adds a record to the end of `out`: its fields, formatted, with commas
/// between them, and a line feed.
pub fn push_record(out: &mut Vec<char>, fields: &Vec<Vec<char>>)
    ensures
        final(out)@ == old(out)@ + csv_record(texts(fields@)),
{
    let ghost all = texts(fields@);
    let mut i: usize = 0;
    proof {
        assert(all.take(0) =~= Seq::<Seq<char>>::empty());
        assert(old(out)@ + join_fields(all.take(0)) =~= old(out)@);
    }
    while i < fields.len()
        invariant
            i <= fields.len(),
            all == texts(fields@),
            out@ == old(out)@ + join_fields(all.take(i as int)),
        decreases fields.len() - i,
    {
        let ghost before = out@;
        if i > 0 {
            out.push(',');
        }
        push_field(out, fields[i].as_slice());
        proof {
            assert(fields[i as int]@ == all[i as int]);
            assert(all.take(i + 1) =~= all.take(i as int).push(all[i as int]));
            lemma_join_fields_push(all.take(i as int), all[i as int]);
            if i > 0 {
                assert(before.push(',') + csv_field(all[i as int]) =~= before + seq![',']
                    + csv_field(all[i as int]));
                assert(old(out)@ + join_fields(all.take(i as int)) + seq![','] + csv_field(
                    all[i as int],
                ) =~= old(out)@ + (join_fields(all.take(i as int)) + seq![','] + csv_field(
                    all[i as int],
                )));
            } else {
                assert(old(out)@ + join_fields(all.take(0)) + csv_field(all[0]) =~= old(out)@
                    + csv_field(all[0]));
            }
        }
        i += 1;
    }
    out.push('\n');
    proof {
        assert(all.take(fields.len() as int) =~= all);
        assert(out@ =~= old(out)@ + (join_fields(all) + seq!['\n']));
    }
}

/// The names of the columns of the table of files.
pub open spec fn header_fields() -> Seq<Seq<char>> {
    seq![
        "org"@,
        "repo"@,
        "file"@,
        "safe_usages"@,
        "partial_usages"@,
        "unsafe_usages"@,
    ]
}

/// The fields of the row of one file: its organization, its repository, its
/// path, and its safe, partially safe and unsafe calls in decimal digits.
pub open spec fn row_fields(row: FileCounts) -> Seq<Seq<char>> {
    seq![row.org, row.repo, row.file, decimal(row.safe), decimal(row.partial), decimal(row.unsafe_)]
}

/// The records of the table of files: the names of the columns, and then
/// one record for each row, in the order of the rows.
pub open spec fn file_table(rows: Seq<FileCounts>) -> Seq<Seq<Seq<char>>> {
    seq![header_fields()] + rows.map_values(|row: FileCounts| row_fields(row))
}

/// A reader gets the table of files back from its document: the names of
/// the columns, and the fields of each row as they were.
pub proof fn lemma_read_file_table(rows: Seq<FileCounts>)
    ensures
        read_document(csv_document(file_table(rows))) == file_table(rows),
{
    lemma_read_document(file_table(rows));
}

/// The names of the columns, as fields.
fn header_row() -> (r: Vec<Vec<char>>)
    ensures
        texts(r@) == header_fields(),
{
    let mut r: Vec<Vec<char>> = Vec::new();
    r.push(to_chars("org"));
    r.push(to_chars("repo"));
    r.push(to_chars("file"));
    r.push(to_chars("safe_usages"));
    r.push(to_chars("partial_usages"));
    r.push(to_chars("unsafe_usages"));
    proof {
        assert(texts(r@) =~= header_fields());
    }
    r
}

/// The fields of the row of one file.
fn row_of(row: &FileRow) -> (r: Vec<Vec<char>>)
    ensures
        texts(r@) == row_fields(row@),
{
    let mut r: Vec<Vec<char>> = Vec::new();
    r.push(to_chars(row.org.as_str()));
    r.push(to_chars(row.repo.as_str()));
    r.push(to_chars(row.file.as_str()));
    r.push(decimal_digits(row.safe));
    r.push(decimal_digits(row.partial));
    r.push(decimal_digits(row.unsafe_));
    proof {
        assert(texts(r@) =~= row_fields(row@));
    }
    r
}

/// The texts that the records hold.
pub open spec fn record_texts(records: Seq<Vec<Vec<char>>>) -> Seq<Seq<Seq<char>>> {
    records.map_values(|fields: Vec<Vec<char>>| texts(fields@))
}

/// A table as a document: each record in turn, its fields formatted, with
/// commas between them and a line feed after them.
pub fn render_records(records: &Vec<Vec<Vec<char>>>) -> (r: String)
    ensures
        r@ == csv_document(record_texts(records@)),
{
    let ghost table = record_texts(records@);
    let mut out: Vec<char> = Vec::new();
    let mut i: usize = 0;
    proof {
        assert(table.take(0) =~= Seq::<Seq<Seq<char>>>::empty());
    }
    while i < records.len()
        invariant
            i <= records.len(),
            table == record_texts(records@),
            out@ == csv_document(table.take(i as int)),
        decreases records.len() - i,
    {
        push_record(&mut out, &records[i]);
        proof {
            assert(table[i as int] == texts(records@[i as int]@));
            assert(table.take(i + 1) =~= table.take(i as int).push(table[i as int]));
            lemma_csv_document_push(table.take(i as int), table[i as int]);
        }
        i += 1;
    }
    proof {
        assert(table.take(records.len() as int) =~= table);
    }
    to_string(out.as_slice())
}

/// The table of files as a document: a record with the names of the
/// columns, and a record for each row. Texts are quoted where they have to
/// be; the counts, being digits, never are.
pub fn render_file_csv(rows: &Vec<FileRow>) -> (r: String)
    ensures
        r@ == csv_document(file_table(row_views(rows@))),
{
    let ghost table = file_table(row_views(rows@));
    let mut records: Vec<Vec<Vec<char>>> = Vec::new();
    records.push(header_row());
    let mut i: usize = 0;
    proof {
        assert(record_texts(records@) =~= table.take(1));
    }
    while i < rows.len()
        invariant
            i <= rows.len(),
            table == file_table(row_views(rows@)),
            record_texts(records@) == table.take(i + 1),
        decreases rows.len() - i,
    {
        let ghost before = record_texts(records@);
        records.push(row_of(&rows[i]));
        proof {
            assert(table[i + 1] == row_fields(rows@[i as int]@));
            assert(record_texts(records@) =~= before.push(table[i + 1]));
            assert(table.take(i + 2) =~= table.take(i + 1).push(table[i + 1]));
        }
        i += 1;
    }
    proof {
        assert(table.take(rows.len() + 1) =~= table);
    }
    render_records(&records)
}

} // verus!
