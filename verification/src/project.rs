//! Projects: which organization and repository a file belongs to, read off its
//! path below the root of the scan.
//!
//! Paths are texts whose components are parted by the slash `/`, on every
//! platform. No other character parts components: a backslash is a character
//! of a name like any other. A caller that holds paths in another form hands
//! them over with their components joined by `/`.

use vstd::prelude::*;
use vstd::slice::slice_subrange;
use crate::text::{find_char, find_char_from, lemma_find_char, to_chars, to_string};

verus! {

/// The name that stands for an organization or a repository that a path does
/// not tell.
pub open spec fn unknown() -> Seq<char> {
    "unknown"@
}

/// Whether `segment` names something: it is neither empty nor a single dot.
pub open spec fn is_name(segment: Seq<char>) -> bool {
    segment.len() > 0 && segment != seq!['.']
}

/// The names in `path` from index `from` on. Slashes part the path into
/// segments; empty segments and single dots name nothing and are left out.
pub open spec fn names_from(path: Seq<char>, from: int) -> Seq<Seq<char>>
    decreases path.len() - from,
{
    if from < 0 || from >= path.len() {
        Seq::empty()
    } else {
        let end = find_char(path, '/', from);
        let segment = path.subrange(from, end);
        let rest = if end < path.len() {
            proof {
                lemma_find_char(path, '/', from);
            }
            names_from(path, end + 1)
        } else {
            Seq::empty()
        };
        if is_name(segment) {
            seq![segment] + rest
        } else {
            rest
        }
    }
}

/// Whether `path` starts at the root of the file system.
pub open spec fn is_absolute(path: Seq<char>) -> bool {
    path.len() > 0 && path[0] == '/'
}

/// Whether `path` starts with a single dot as its first segment.
pub open spec fn starts_with_dot(path: Seq<char>) -> bool {
    path.len() > 0 && path[0] == '.' && (path.len() == 1 || path[1] == '/')
}

/// The components of a path, which the slash `/` and nothing else parts. An
/// absolute path starts with the component `/`, a path whose first segment
/// is a single dot with the component `.`; the names of the path follow.
/// Doubled slashes, a slash at the end and single dots further on leave no
/// trace.
pub open spec fn components(path: Seq<char>) -> Seq<Seq<char>> {
    if is_absolute(path) || starts_with_dot(path) {
        seq![path.subrange(0, 1)] + names_from(path, 1)
    } else {
        names_from(path, 0)
    }
}

/// The components of `path` below `root`, if `path` lies in `root`: if the
/// components of `root` are the first components of `path`.
pub open spec fn components_below(path: Seq<char>, root: Seq<char>) -> Option<Seq<Seq<char>>> {
    let whole = components(path);
    let base = components(root);
    if base.is_prefix_of(whole) {
        Some(whole.skip(base.len() as int))
    } else {
        None
    }
}

/// The organization and the repository of the file at `path` in a scan of
/// `root`: the first two components of `path` below `root`, where it has
/// three or more there, the last being the file itself or a directory on the
/// way to it. Any other path tells neither.
pub open spec fn project_of(path: Seq<char>, root: Seq<char>) -> (Seq<char>, Seq<char>) {
    match components_below(path, root) {
        Some(below) => if below.len() >= 3 {
            (below[0], below[1])
        } else {
            (unknown(), unknown())
        },
        None => (unknown(), unknown()),
    }
}

/// The components joined into a path again, with one slash between each two
/// and none after a leading `/`.
pub open spec fn join_components(parts: Seq<Seq<char>>) -> Seq<char>
    decreases parts.len(),
{
    if parts.len() == 0 {
        Seq::empty()
    } else if parts.len() == 1 {
        parts[0]
    } else if parts.len() == 2 && parts[0] == seq!['/'] {
        parts[0] + parts[1]
    } else {
        join_components(parts.drop_last()) + seq!['/'] + parts.last()
    }
}

/// The path of the file at `path` as seen from `root`: its components below
/// `root` joined again, or the whole of `path` unchanged where it does not lie
/// in `root`.
pub open spec fn path_below(path: Seq<char>, root: Seq<char>) -> Seq<char> {
    match components_below(path, root) {
        Some(below) => join_components(below),
        None => path,
    }
}

/// Whether `name` is one segment of a path that names something: it is not
/// empty, no single dot, and holds no slash.
pub open spec fn is_segment(name: Seq<char>) -> bool {
    is_name(name) && forall|i: int| 0 <= i < name.len() ==> #[trigger] name[i] != '/'
}

/// A search in a text from an index on is a search in what the text holds
/// from an earlier index on.
proof fn lemma_find_char_skip(text: Seq<char>, c: char, from: int, k: int)
    requires
        0 <= from,
        0 <= k,
        from + k <= text.len(),
    ensures
        find_char(text, c, from + k) == from + find_char(text.skip(from), c, k),
    decreases text.len() - from - k,
{
    if from + k < text.len() && text[from + k] != c {
        assert(text.skip(from)[k] == text[from + k]);
        lemma_find_char_skip(text, c, from, k + 1);
    }
}

/// The names of a path from an index on are the names of what the path holds
/// from an earlier index on.
proof fn lemma_names_skip(path: Seq<char>, from: int, k: int)
    requires
        0 <= from,
        0 <= k,
        from + k <= path.len(),
    ensures
        names_from(path, from + k) == names_from(path.skip(from), k),
    decreases path.len() - from - k,
{
    let tail = path.skip(from);
    if from + k < path.len() {
        lemma_find_char_skip(path, '/', from, k);
        lemma_find_char(path, '/', from + k);
        let end = find_char(path, '/', from + k);
        assert(path.subrange(from + k, end) =~= tail.subrange(k, end - from));
        if end < path.len() {
            lemma_names_skip(path, from, end + 1 - from);
        }
    }
}

/// The first slash of a path from an index on is, if it has none, the slash
/// that follows the path.
proof fn lemma_find_slash_append(head: Seq<char>, tail: Seq<char>, from: int)
    requires
        0 <= from <= head.len(),
    ensures
        find_char(head + seq!['/'] + tail, '/', from) == find_char(head, '/', from),
    decreases head.len() - from,
{
    let path = head + seq!['/'] + tail;
    if from < head.len() {
        assert(path[from] == head[from]);
        if head[from] != '/' {
            lemma_find_slash_append(head, tail, from + 1);
        }
    } else {
        assert(path[from] == '/');
    }
}

/// The names of two paths with a slash between them are the names of the
/// first and then the names of the second.
pub proof fn lemma_names_append(head: Seq<char>, tail: Seq<char>, from: int)
    requires
        0 <= from <= head.len(),
    ensures
        names_from(head + seq!['/'] + tail, from) == names_from(head, from) + names_from(tail, 0),
    decreases head.len() - from,
{
    let path = head + seq!['/'] + tail;
    lemma_find_slash_append(head, tail, from);
    lemma_find_char(head, '/', from);
    let end = find_char(head, '/', from);
    let next = (head.len() + 1) as int;
    assert(path.skip(next) =~= tail);
    if from == head.len() {
        assert(path.subrange(from, end) =~= Seq::<char>::empty());
        lemma_names_skip(path, next, 0);
        assert(names_from(head, from) + names_from(tail, 0) =~= names_from(tail, 0));
    } else {
        assert(path.subrange(from, end) =~= head.subrange(from, end));
        let segment = head.subrange(from, end);
        if end < head.len() {
            lemma_names_append(head, tail, end + 1);
            let rest = names_from(head, end + 1);
            assert(seq![segment] + (rest + names_from(tail, 0)) =~= (seq![segment] + rest)
                + names_from(tail, 0));
        } else {
            lemma_names_skip(path, next, 0);
            let none = Seq::<Seq<char>>::empty();
            assert(none + names_from(tail, 0) =~= names_from(tail, 0));
            assert(seq![segment] + names_from(tail, 0) =~= (seq![segment] + none) + names_from(
                tail,
                0,
            ));
        }
    }
}

/// A segment that names something is the one name of the path it makes.
pub proof fn lemma_names_of_segment(name: Seq<char>)
    requires
        is_segment(name),
    ensures
        names_from(name, 0) == seq![name],
{
    lemma_find_char(name, '/', 0);
    let end = find_char(name, '/', 0);
    if end < name.len() {
        assert(name[end] == '/');
    }
    assert(name.subrange(0, end) =~= name);
    assert(seq![name] + Seq::<Seq<char>>::empty() =~= seq![name]);
}

/// The components of a path that goes on below a root are the components of
/// the root and then the names of what follows.
pub proof fn lemma_components_append(root: Seq<char>, tail: Seq<char>)
    requires
        root.len() > 0,
    ensures
        components(root + seq!['/'] + tail) == components(root) + names_from(tail, 0),
{
    let path = root + seq!['/'] + tail;
    assert(path[0] == root[0]);
    if root.len() > 1 {
        assert(path[1] == root[1]);
    } else {
        assert(path[1] == '/');
    }
    if is_absolute(root) || starts_with_dot(root) {
        lemma_names_append(root, tail, 1);
        assert(path.subrange(0, 1) =~= root.subrange(0, 1));
        assert(seq![root.subrange(0, 1)] + (names_from(root, 1) + names_from(tail, 0)) =~= (
            seq![root.subrange(0, 1)] + names_from(root, 1)) + names_from(tail, 0));
    } else {
        lemma_names_append(root, tail, 0);
    }
}

/// A file that lies in a root below an organization and a repository belongs
/// to the project of the two, whatever else the names hold; a path that ends
/// with the repository tells no project.
pub proof fn lemma_project_layout(
    root: Seq<char>,
    org: Seq<char>,
    repo: Seq<char>,
    file: Seq<char>,
)
    requires
        root.len() > 0,
        is_segment(org),
        is_segment(repo),
    ensures
        project_of(root + seq!['/'] + (org + seq!['/'] + (repo + seq!['/'] + file)), root) == if names_from(
            file,
            0,
        ).len() >= 1 {
            (org, repo)
        } else {
            (unknown(), unknown())
        },
        components_below(
            root + seq!['/'] + (org + seq!['/'] + (repo + seq!['/'] + file)),
            root,
        ) == Some(seq![org, repo] + names_from(file, 0)),
{
    let below_repo = repo + seq!['/'] + file;
    let below_org = org + seq!['/'] + below_repo;
    let path = root + seq!['/'] + below_org;
    lemma_components_append(root, below_org);
    lemma_names_append(org, below_repo, 0);
    lemma_names_append(repo, file, 0);
    lemma_names_of_segment(org);
    lemma_names_of_segment(repo);
    let base = components(root);
    let names = seq![org, repo] + names_from(file, 0);
    assert(names_from(below_org, 0) =~= names);
    assert(components(path) == base + names);
    assert((base + names).subrange(0, base.len() as int) =~= base);
    assert((base + names).skip(base.len() as int) =~= names);
    assert(names[0] == org && names[1] == repo);
}

/// The texts that the slices hold.
pub open spec fn views(parts: Seq<&[char]>) -> Seq<Seq<char>> {
    Seq::new(parts.len(), |i: int| parts[i]@)
}

/// Splits a path into its components, at `/`.
pub fn split_path<'a>(path: &'a [char]) -> (parts: Vec<&'a [char]>)
    ensures
        views(parts@) == components(path@),
{
    let len = path.len();
    let mut parts: Vec<&'a [char]> = Vec::new();
    let mut from: usize = 0;
    if len > 0 && (path[0] == '/' || (path[0] == '.' && (len == 1 || path[1] == '/'))) {
        parts.push(slice_subrange(path, 0, 1));
        from = 1;
    }
    proof {
        assert(views(parts@) + names_from(path@, from as int) =~= components(path@));
    }
    while from < len
        invariant
            from <= len,
            len == path.len(),
            views(parts@) + names_from(path@, from as int) == components(path@),
        decreases len - from,
    {
        let end = find_char_from(path, '/', from);
        let segment = slice_subrange(path, from, end);
        let ghost before = views(parts@);
        let ghost rest = names_from(path@, if end < len { end + 1 } else { len as int });
        if segment.len() > 0 && !(segment.len() == 1 && segment[0] == '.') {
            parts.push(segment);
            proof {
                assert(segment@ != seq!['.']) by {
                    if segment@.len() == 1 {
                        assert(seq!['.'][0] == '.');
                    }
                }
                assert(views(parts@) =~= before.push(segment@));
                assert(before.push(segment@) + rest =~= before + (seq![segment@] + rest));
            }
        } else {
            proof {
                if segment@.len() == 1 {
                    assert(segment@ =~= seq!['.']);
                }
            }
        }
        if end < len {
            from = end + 1;
        } else {
            from = len;
        }
    }
    proof {
        assert(views(parts@) + Seq::<Seq<char>>::empty() =~= views(parts@));
    }
    parts
}

/// Tells whether two texts are the same.
pub fn same_text(a: &[char], b: &[char]) -> (r: bool)
    ensures
        r == (a@ == b@),
{
    if a.len() != b.len() {
        return false;
    }
    let mut i: usize = 0;
    while i < a.len()
        invariant
            i <= a.len(),
            a.len() == b.len(),
            forall|j: int| 0 <= j < i ==> a@[j] == b@[j],
        decreases a.len() - i,
    {
        if a[i] != b[i] {
            return false;
        }
        i += 1;
    }
    assert(a@ =~= b@);
    true
}

/// Tells whether the components `base` are the first of the components
/// `whole`.
pub fn is_prefix(base: &Vec<&[char]>, whole: &Vec<&[char]>) -> (r: bool)
    ensures
        r == views(base@).is_prefix_of(views(whole@)),
{
    if base.len() > whole.len() {
        return false;
    }
    let mut i: usize = 0;
    while i < base.len()
        invariant
            i <= base.len() <= whole.len(),
            forall|j: int| 0 <= j < i ==> views(base@)[j] == views(whole@)[j],
        decreases base.len() - i,
    {
        if !same_text(base[i], whole[i]) {
            assert(views(base@)[i as int] != views(whole@)[i as int]);
            return false;
        }
        i += 1;
    }
    assert(views(base@) =~= views(whole@).subrange(0, views(base@).len() as int));
    true
}

/// The organization and the repository of the file at `path` in a scan of
/// `root`, both `unknown` where the path does not tell them. Both paths are
/// taken with `/` between their components.
pub fn get_org_repo(path: &str, root: &str) -> (r: (String, String))
    ensures
        (r.0@, r.1@) == project_of(path@, root@),
{
    let path_chars = to_chars(path);
    let root_chars = to_chars(root);
    let whole = split_path(path_chars.as_slice());
    let base = split_path(root_chars.as_slice());
    if is_prefix(&base, &whole) && whole.len() - base.len() >= 3 {
        let org = to_string(whole[base.len()]);
        let repo = to_string(whole[base.len() + 1]);
        (org, repo)
    } else {
        let unknown = "unknown";
        (unknown.to_owned(), unknown.to_owned())
    }
}

/// Joins components into a path again.
pub fn join_path(parts: &[&[char]]) -> (path: Vec<char>)
    ensures
        path@ == join_components(views(parts@)),
{
    let mut path: Vec<char> = Vec::new();
    let mut i: usize = 0;
    while i < parts.len()
        invariant
            i <= parts.len(),
            path@ == join_components(views(parts@).take(i as int)),
        decreases parts.len() - i,
    {
        let part = parts[i];
        let ghost done = views(parts@).take(i as int);
        let ghost next = views(parts@).take(i + 1);
        proof {
            assert(next.drop_last() =~= done);
            assert(next.last() == part@);
        }
        if i > 0 && !(i == 1 && same_text(parts[0], &['/'])) {
            path.push('/');
        }
        let mut k: usize = 0;
        let ghost start = path@;
        while k < part.len()
            invariant
                k <= part.len(),
                path@ == start + part@.take(k as int),
            decreases part.len() - k,
        {
            path.push(part[k]);
            proof {
                assert(part@.take(k + 1) =~= part@.take(k as int).push(part@[k as int]));
            }
            k += 1;
        }
        proof {
            assert(part@.take(part@.len() as int) =~= part@);
            if i == 0 {
                assert(start + part@ =~= part@);
            } else if i == 1 {
                assert(done.last() == views(parts@)[0]);
                assert(['/']@ =~= seq!['/']);
            }
        }
        i += 1;
    }
    proof {
        assert(views(parts@).take(parts@.len() as int) =~= views(parts@));
    }
    path
}

/// The path of the file at `path` as seen from `root`, or `path` unchanged
/// where it does not lie in `root`. Both paths are taken with `/` between
/// their components, and so is the result. Below the root the result is in
/// plain form: doubled slashes and single dots of `path` are not in it.
pub fn relative_path(path: &str, root: &str) -> (r: String)
    ensures
        r@ == path_below(path@, root@),
{
    let path_chars = to_chars(path);
    let root_chars = to_chars(root);
    let whole = split_path(path_chars.as_slice());
    let base = split_path(root_chars.as_slice());
    if is_prefix(&base, &whole) {
        let below = slice_subrange(whole.as_slice(), base.len(), whole.len());
        proof {
            assert(views(below@) =~= views(whole@).skip(base.len() as int));
        }
        let joined = join_path(below);
        to_string(joined.as_slice())
    } else {
        path.to_owned()
    }
}

} // verus!
