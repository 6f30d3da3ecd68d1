//! What a scan reports: the summary, the list of projects, and the table of
//! projects as comma-separated values.

use vstd::prelude::*;
use crate::aggregate::ProjectEntry;
use crate::csv::{
    csv_document, decimal, decimal_digits, lemma_read_document, read_document, record_texts,
    render_records, texts,
};
use crate::text::{to_chars, to_string};

verus! {

/// The width to which the names of a project are filled up in the list of
/// projects.
pub const NAME_WIDTH: usize = 20;

/// `text` filled up with spaces at its end to `width` characters; unchanged
/// where it has as many or more.
pub open spec fn padded(text: Seq<char>, width: nat) -> Seq<char> {
    if text.len() >= width {
        text
    } else {
        text + Seq::new((width - text.len()) as nat, |i: int| ' ')
    }
}

/// The line of a project in the list of projects: its organization and its
/// repository, each filled up to the same width, with a slash between them,
/// and then a space and the name of its tier.
pub open spec fn project_line(entry: ProjectEntry) -> Seq<char> {
    padded(entry.org@, NAME_WIDTH as nat) + seq!['/'] + padded(entry.repo@, NAME_WIDTH as nat)
        + seq![' '] + entry.status.spec_label()
}

/// The summary of a scan: a heading, and then one line for each total of
/// calls and for each count of projects.
pub open spec fn summary_text(calls: (nat, nat, nat), projects: (nat, nat, nat)) -> Seq<char> {
    "====== Scan Summary ======\n"@ + "Safe usages (with commit SHA): "@ + decimal(calls.0)
        + seq!['\n'] + "Partially safe usages (with tag/branch): "@ + decimal(calls.1) + seq!['\n']
        + "Unsafe usages (no revision): "@ + decimal(calls.2) + seq!['\n'] + "Safe projects: "@
        + decimal(projects.0) + seq!['\n'] + "Partially safe projects: "@ + decimal(projects.1)
        + seq!['\n'] + "Unsafe projects: "@ + decimal(projects.2) + seq!['\n']
}

/// The names of the columns of the table of projects.
pub open spec fn project_header() -> Seq<Seq<char>> {
    seq!["org"@, "repo"@, "status"@]
}

/// The fields of the row of one project: its organization, its repository and
/// the name of its tier.
pub open spec fn project_fields(entry: ProjectEntry) -> Seq<Seq<char>> {
    seq![entry.org@, entry.repo@, entry.status.spec_label()]
}

/// The records of the table of projects: the names of the columns, and then
/// one record for each project, in the order of the projects.
pub open spec fn project_table(entries: Seq<ProjectEntry>) -> Seq<Seq<Seq<char>>> {
    seq![project_header()] + entries.map_values(|entry: ProjectEntry| project_fields(entry))
}

/// A reader gets the table of projects back from its document: the names of
/// the columns, and the fields of each project as they were.
pub proof fn lemma_read_project_table(entries: Seq<ProjectEntry>)
    ensures
        read_document(csv_document(project_table(entries))) == project_table(entries),
{
    lemma_read_document(project_table(entries));
}

/// Adds a text to the end of `out`.
fn push_text(out: &mut Vec<char>, text: &str)
    ensures
        final(out)@ == old(out)@ + text@,
{
    let mut chars = to_chars(text);
    out.append(&mut chars);
}

/// Adds a number in decimal digits to the end of `out`.
fn push_number(out: &mut Vec<char>, n: usize)
    ensures
        final(out)@ == old(out)@ + decimal(n as nat),
{
    let mut digits = decimal_digits(n);
    out.append(&mut digits);
}

/// Adds a text to the end of `out`, filled up with spaces to `width`
/// characters.
fn push_padded(out: &mut Vec<char>, text: &str, width: usize)
    ensures
        final(out)@ == old(out)@ + padded(text@, width as nat),
{
    let mut chars = to_chars(text);
    let len = chars.len();
    out.append(&mut chars);
    let ghost filled = out@;
    let mut n: usize = len;
    proof {
        assert(filled + Seq::new(0nat, |i: int| ' ') =~= filled);
    }
    while n < width
        invariant
            len <= n,
            n <= width || n == len,
            out@ == filled + Seq::new((n - len) as nat, |i: int| ' '),
        decreases width - n,
    {
        out.push(' ');
        n += 1;
        proof {
            assert(Seq::new((n - len) as nat, |i: int| ' ') =~= Seq::new(
                (n - 1 - len) as nat,
                |i: int| ' ',
            ).push(' '));
        }
    }
    proof {
        if len < width {
            assert(out@ =~= old(out)@ + (text@ + Seq::new((width - len) as nat, |i: int| ' ')));
        } else {
            assert(filled + Seq::new((n - len) as nat, |i: int| ' ') =~= filled);
        }
    }
}

/// The line of a project in the list of projects.
pub fn format_project_line(entry: &ProjectEntry) -> (r: String)
    ensures
        r@ == project_line(*entry),
{
    let mut out: Vec<char> = Vec::new();
    push_padded(&mut out, entry.org.as_str(), NAME_WIDTH);
    out.push('/');
    push_padded(&mut out, entry.repo.as_str(), NAME_WIDTH);
    out.push(' ');
    push_text(&mut out, entry.status.label());
    proof {
        assert(out@ =~= project_line(*entry));
    }
    to_string(out.as_slice())
}

/// The summary of a scan, given the safe, partially safe and unsafe calls
/// and the safe, partially safe and unsafe projects.
pub fn format_summary(calls: (usize, usize, usize), projects: (usize, usize, usize)) -> (r: String)
    ensures
        r@ == summary_text(
            (calls.0 as nat, calls.1 as nat, calls.2 as nat),
            (projects.0 as nat, projects.1 as nat, projects.2 as nat),
        ),
{
    let mut out: Vec<char> = Vec::new();
    push_text(&mut out, "====== Scan Summary ======\n");
    push_text(&mut out, "Safe usages (with commit SHA): ");
    push_number(&mut out, calls.0);
    out.push('\n');
    push_text(&mut out, "Partially safe usages (with tag/branch): ");
    push_number(&mut out, calls.1);
    out.push('\n');
    push_text(&mut out, "Unsafe usages (no revision): ");
    push_number(&mut out, calls.2);
    out.push('\n');
    push_text(&mut out, "Safe projects: ");
    push_number(&mut out, projects.0);
    out.push('\n');
    push_text(&mut out, "Partially safe projects: ");
    push_number(&mut out, projects.1);
    out.push('\n');
    push_text(&mut out, "Unsafe projects: ");
    push_number(&mut out, projects.2);
    out.push('\n');
    proof {
        assert(out@ =~= summary_text(
            (calls.0 as nat, calls.1 as nat, calls.2 as nat),
            (projects.0 as nat, projects.1 as nat, projects.2 as nat),
        ));
    }
    to_string(out.as_slice())
}

/// The names of the columns of the table of projects, as fields.
fn project_header_row() -> (r: Vec<Vec<char>>)
    ensures
        texts(r@) == project_header(),
{
    let mut r: Vec<Vec<char>> = Vec::new();
    r.push(to_chars("org"));
    r.push(to_chars("repo"));
    r.push(to_chars("status"));
    proof {
        assert(texts(r@) =~= project_header());
    }
    r
}

/// The fields of the row of one project.
fn project_row(entry: &ProjectEntry) -> (r: Vec<Vec<char>>)
    ensures
        texts(r@) == project_fields(*entry),
{
    let mut r: Vec<Vec<char>> = Vec::new();
    r.push(to_chars(entry.org.as_str()));
    r.push(to_chars(entry.repo.as_str()));
    r.push(to_chars(entry.status.label()));
    proof {
        assert(texts(r@) =~= project_fields(*entry));
    }
    r
}

/// The table of projects as a document: a record with the names of the
/// columns, and a record for each project.
pub fn render_project_csv(projects: &Vec<ProjectEntry>) -> (r: String)
    ensures
        r@ == csv_document(project_table(projects@)),
{
    let ghost table = project_table(projects@);
    let mut records: Vec<Vec<Vec<char>>> = Vec::new();
    records.push(project_header_row());
    let mut i: usize = 0;
    proof {
        assert(record_texts(records@) =~= table.take(1));
    }
    while i < projects.len()
        invariant
            i <= projects.len(),
            table == project_table(projects@),
            record_texts(records@) == table.take(i + 1),
        decreases projects.len() - i,
    {
        let ghost before = record_texts(records@);
        records.push(project_row(&projects[i]));
        proof {
            assert(table[i + 1] == project_fields(projects@[i as int]));
            assert(record_texts(records@) =~= before.push(table[i + 1]));
            assert(table.take(i + 2) =~= table.take(i + 1).push(table[i + 1]));
        }
        i += 1;
    }
    proof {
        assert(table.take(projects.len() + 1) =~= table);
    }
    render_records(&records)
}

} // verus!
