//! Golden files, with which pictures and descriptions of the grid are compared.

use crate::kitty::copy_range;
use crate::text::{
    chars_of, decimal, find, find_from, lemma_find_is, lemma_find_none, occurs_at, push_decimal, same_text,
};
use vstd::prelude::*;

verus! {

/// The path of `name` in the directory `dir`.
pub open spec fn joined(dir: Seq<char>, name: Seq<char>) -> Seq<char> {
    if dir.len() == 0 || dir.last() == '/' {
        dir + name
    } else {
        dir + seq!['/'] + name
    }
}

/// The path of `name` in the directory `dir`.
fn join(dir: &str, name: &str) -> (r: String)
    ensures
        r@ == joined(dir@, name@),
{
    let mut r = dir.to_string();
    let n = dir.unicode_len();
    if n > 0 && dir.get_char(n - 1) != '/' {
        r.push('/');
    }
    r.append(name);
    assert(r@ =~= joined(dir@, name@));
    r
}

/// Where the golden files are, in the package at `manifest_dir`.
pub open spec fn golden_path(manifest_dir: Seq<char>) -> Seq<char> {
    joined(manifest_dir, "src/ui/visual_test/golden"@)
}

/// Where pictures are written to.
pub open spec fn output_path(target: Option<Seq<char>>, manifest_dir: Seq<char>) -> Seq<char> {
    joined(
        match target {
            Some(dir) => dir,
            None => joined(manifest_dir, "../target"@),
        },
        "visual"@,
    )
}

/// Where the golden files are, in the package at `manifest_dir`.
pub fn golden_dir(manifest_dir: &str) -> (r: String)
    ensures
        r@ == golden_path(manifest_dir@),
{
    join(manifest_dir, "src/ui/visual_test/golden")
}

/// Where pictures are written to: below the target directory, which is the one given, or else the
/// one next to the package.
pub fn output_dir(target: Option<&str>, manifest_dir: &str) -> (r: String)
    ensures
        r@ == output_path(
            match target {
                Some(dir) => Some(dir@),
                None => None,
            },
            manifest_dir@,
        ),
{
    match target {
        Some(dir) => join(dir, "visual"),
        None => join(join(manifest_dir, "../target").as_str(), "visual"),
    }
}

/// `line` without a carriage return at its end.
pub open spec fn without_return(line: Seq<char>) -> Seq<char> {
    if line.len() > 0 && line.last() == '\r' {
        line.drop_last()
    } else {
        line
    }
}

/// The lines of `s`: each ends in a line feed, with a carriage return in front of it or not, and
/// only the last may do without.
pub open spec fn lines(s: Seq<char>) -> Seq<Seq<char>>
    decreases s.len(),
{
    if s.len() == 0 {
        Seq::empty()
    } else {
        match find(s, seq!['\n']) {
            None => seq![s],
            Some(i) => seq![without_return(s.take(i))] + lines(s.skip(i + 1)),
        }
    }
}

/// The index of the first line, from `from` on, in which `a` and `b` differ; zero where they do not
/// differ in a line that both have.
pub open spec fn differing_line(a: Seq<Seq<char>>, b: Seq<Seq<char>>, from: int) -> int
    decreases a.len() - from,
{
    if from >= a.len() || from >= b.len() {
        0
    } else if a[from] != b[from] {
        from
    } else {
        differing_line(a, b, from + 1)
    }
}

/// What is wrong with the description `actual` of scene `name`, of which `golden` is the golden
/// file at `path`, if there is one.
pub open spec fn complaint(
    name: Seq<char>,
    golden: Option<Seq<char>>,
    path: Seq<char>,
    actual: Seq<char>,
) -> Option<Seq<char>> {
    match golden {
        None => Some(name + ": missing golden "@ + path),
        Some(text) => if text == actual {
            None
        } else {
            let line = differing_line(lines(text), lines(actual), 0);
            Some(name + ": first difference on line "@ + decimal((line + 1) as nat))
        },
    }
}

/// The lines that `v` holds.
pub open spec fn line_views(v: Seq<Vec<char>>) -> Seq<Seq<char>> {
    v.map_values(|line: Vec<char>| line@)
}

/// The lines of `chars`.
fn split_lines(chars: &Vec<char>) -> (r: Vec<Vec<char>>)
    ensures
        line_views(r@) == lines(chars@),
{
    let feed: Vec<char> = vec!['\n'];
    assert(feed@ =~= seq!['\n']);
    let mut out: Vec<Vec<char>> = Vec::new();
    let mut pos: usize = 0;
    assert(chars@.skip(0) =~= chars@);
    assert(line_views(out@) + lines(chars@) =~= lines(chars@));
    while pos < chars.len()
        invariant
            pos <= chars.len(),
            feed@ == seq!['\n'],
            line_views(out@) + lines(chars@.skip(pos as int)) == lines(chars@),
        decreases chars.len() - pos,
    {
        let ghost rest = chars@.skip(pos as int);
        let ghost before = line_views(out@);
        match find_from(chars, pos, &feed) {
            None => {
                let n = chars.len();
                out.push(copy_range(chars, pos, n));
                proof {
                    assert(chars@.subrange(pos as int, n as int) =~= rest);
                    assert(line_views(out@) =~= before.push(rest));
                    assert(chars@.skip(n as int) =~= Seq::empty());
                    assert(line_views(out@) + lines(chars@.skip(n as int)) =~= before + lines(rest));
                }
                pos = n;
            },
            Some(i) => {
                let end: usize = if i > 0 && chars[pos + i - 1] == '\r' {
                    pos + i - 1
                } else {
                    pos + i
                };
                out.push(copy_range(chars, pos, end));
                proof {
                    let line = without_return(rest.take(i as int));
                    assert(chars@.subrange(pos as int, end as int) =~= line);
                    assert(line_views(out@) =~= before.push(line));
                    assert(rest.skip(i + 1) =~= chars@.skip(pos + i + 1));
                    assert(line_views(out@) + lines(chars@.skip(pos + i + 1)) =~= before + lines(
                        rest,
                    ));
                }
                pos = pos + i + 1;
            },
        }
    }
    assert(chars@.skip(pos as int) =~= Seq::empty());
    assert(line_views(out@) + Seq::empty() =~= line_views(out@));
    out
}

/// Whether two lines are the same.
fn same_line(a: &Vec<char>, b: &Vec<char>) -> (r: bool)
    ensures
        r == (a@ == b@),
{
    if a.len() != b.len() {
        return false;
    }
    let mut i: usize = 0;
    while i < a.len()
        invariant
            i <= a.len() == b.len(),
            forall|j: int| 0 <= j < i ==> a@[j] == b@[j],
        decreases a.len() - i,
    {
        if a[i] != b[i] {
            assert(a@[i as int] != b@[i as int]);
            return false;
        }
        i += 1;
    }
    assert(a@ =~= b@);
    true
}

/// The index of the first line in which `golden` and `actual` differ.
fn first_difference(golden: &str, actual: &str) -> (r: usize)
    ensures
        r == differing_line(lines(golden@), lines(actual@), 0),
        r < usize::MAX,
{
    let a = split_lines(&chars_of(golden));
    let b = split_lines(&chars_of(actual));
    let ghost (x, y) = (lines(golden@), lines(actual@));
    let mut i: usize = 0;
    while i < a.len() && i < b.len()
        invariant
            i <= a.len(),
            i <= b.len(),
            line_views(a@) == x,
            line_views(b@) == y,
            x == lines(golden@),
            y == lines(actual@),
            differing_line(x, y, 0) == differing_line(x, y, i as int),
        decreases a.len() - i,
    {
        assert(x[i as int] == a@[i as int]@);
        assert(y[i as int] == b@[i as int]@);
        if !same_line(&a[i], &b[i]) {
            return i;
        }
        i += 1;
    }
    assert(x.len() == a@.len() && y.len() == b@.len());
    0
}

/// What is wrong with the description `actual` of scene `name`, of which `golden` is the golden
/// file at `path`, if there is one.
pub fn snapshot_complaint(name: &str, golden: Option<&str>, path: &str, actual: &str) -> (r: Option<
    String,
>)
    ensures
        match r {
            Some(text) => Some(text@),
            None => None,
        } == complaint(
            name@,
            match golden {
                Some(text) => Some(text@),
                None => None,
            },
            path@,
            actual@,
        ),
{
    let mut r = name.to_string();
    match golden {
        None => {
            r.append(": missing golden ");
            r.append(path);
        },
        Some(text) => {
            if same_text(text, actual) {
                return None;
            }
            let line: usize = first_difference(text, actual);
            r.append(": first difference on line ");
            push_decimal(&mut r, line as u64 + 1);
        },
    }
    Some(r)
}

/// A joined path starts with the directory and ends with the name. There is just one slash more
/// between them where the directory has a name and does not end in a slash, and else nothing.
pub proof fn paths_are_joined_by_one_slash(dir: Seq<char>, name: Seq<char>)
    ensures
        ({
            let path = joined(dir, name);
            let slash = dir.len() > 0 && dir[dir.len() - 1] != '/';
            &&& path.len() == dir.len() + name.len() + (if slash {
                1int
            } else {
                0int
            })
            &&& path.take(dir.len() as int) == dir
            &&& path.skip(path.len() - name.len()) == name
            &&& slash ==> path[dir.len() as int] == '/'
        }),
{
    let path = joined(dir, name);
    assert(path.take(dir.len() as int) =~= dir);
    assert(path.skip(path.len() - name.len()) =~= name);
}

/// Golden files are in the package, and pictures are written below the target directory: the one that is
/// given, whatever the package is, or else the one next to the package.
pub proof fn directories_are_below_their_roots(dir: Seq<char>, manifest_dir: Seq<char>)
    ensures
        golden_path(manifest_dir).take(manifest_dir.len() as int) == manifest_dir,
        golden_path(manifest_dir).len() >= manifest_dir.len() + 25,
        output_path(Some(dir), manifest_dir).take(dir.len() as int) == dir,
        ({
            let path = output_path(Some(dir), manifest_dir);
            path.skip(path.len() - 6) == seq!['v', 'i', 's', 'u', 'a', 'l']
        }),
        output_path(None, manifest_dir).take(manifest_dir.len() as int) == manifest_dir,
        output_path(None, manifest_dir) == output_path(
            Some(joined(manifest_dir, seq!['.', '.', '/', 't', 'a', 'r', 'g', 'e', 't'])),
            dir,
        ),
{
    reveal_strlit("src/ui/visual_test/golden");
    reveal_strlit("../target");
    reveal_strlit("visual");
    assert("visual"@ =~= seq!['v', 'i', 's', 'u', 'a', 'l']);
    assert("../target"@ =~= seq!['.', '.', '/', 't', 'a', 'r', 'g', 'e', 't']);
    let below = joined(manifest_dir, "../target"@);
    paths_are_joined_by_one_slash(manifest_dir, "src/ui/visual_test/golden"@);
    paths_are_joined_by_one_slash(dir, "visual"@);
    paths_are_joined_by_one_slash(manifest_dir, "../target"@);
    paths_are_joined_by_one_slash(below, "visual"@);
    let path = output_path(None, manifest_dir);
    assert(path.take(manifest_dir.len() as int) =~= path.take(below.len() as int).take(
        manifest_dir.len() as int,
    ));
}

/// The lines of a text: none where it is empty, the text itself where it has no line feed, and else what
/// stands in front of the first line feed, without one carriage return at its end, and the lines behind.
pub proof fn lines_end_at_line_feeds(line: Seq<char>, rest: Seq<char>)
    requires
        forall|i: int| 0 <= i < line.len() ==> #[trigger] line[i] != '\n',
    ensures
        lines(Seq::empty()).len() == 0,
        line.len() > 0 ==> lines(line) == seq![line],
        ({
            let all = lines(line + seq!['\n'] + rest);
            let first = if line.len() > 0 && line[line.len() - 1] == '\r' {
                line.take(line.len() - 1)
            } else {
                line
            };
            &&& all.len() == lines(rest).len() + 1
            &&& all[0] == first
            &&& all.skip(1) == lines(rest)
        }),
{
    let feed = seq!['\n'];
    let s = line + feed + rest;
    let n = line.len() as int;
    assert(s.subrange(n, n + 1) =~= feed);
    assert forall|j: int| 0 <= j < n implies !#[trigger] occurs_at(s, feed, j) by {
        if occurs_at(s, feed, j) {
            assert(s.subrange(j, j + 1)[0] == s[j]);
            assert(s[j] == line[j]);
        }
    }
    lemma_find_is(s, feed, n);
    assert(s.take(n) =~= line);
    assert(s.skip(n + 1) =~= rest);
    if n > 0 && line[n - 1] == '\r' {
        assert(line.drop_last() =~= line.take(n - 1));
    }
    assert(lines(s) =~= seq![without_return(line)] + lines(rest));
    assert(lines(s).skip(1) =~= lines(rest));
    assert forall|j: int| 0 <= j implies !#[trigger] occurs_at(line, feed, j) by {
        if occurs_at(line, feed, j) {
            assert(line.subrange(j, j + 1)[0] == line[j]);
        }
    }
    lemma_find_none(line, feed);
}

proof fn lemma_differing_line(a: Seq<Seq<char>>, b: Seq<Seq<char>>, from: int, i: int)
    requires
        0 <= from <= i < a.len(),
        i < b.len(),
        a[i] != b[i],
        forall|j: int| from <= j < i ==> #[trigger] a[j] == b[j],
    ensures
        differing_line(a, b, from) == i,
    decreases i - from,
{
    if from < i {
        assert(a[from] == b[from]);
        lemma_differing_line(a, b, from + 1, i);
    }
}

proof fn lemma_no_differing_line(a: Seq<Seq<char>>, b: Seq<Seq<char>>, from: int)
    requires
        0 <= from,
        forall|j: int| 0 <= j < a.len() && j < b.len() ==> #[trigger] a[j] == b[j],
    ensures
        differing_line(a, b, from) == 0,
    decreases a.len() - from,
{
    if from < a.len() && from < b.len() {
        assert(a[from] == b[from]);
        lemma_no_differing_line(a, b, from + 1);
    }
}

/// There is a complaint exactly where the golden file is missing or differs from the description. A
/// missing one is named by its path.
pub proof fn differences_are_complained_about(
    name: Seq<char>,
    golden: Option<Seq<char>>,
    path: Seq<char>,
    actual: Seq<char>,
)
    ensures
        complaint(name, golden, path, actual) is None <==> golden == Some(actual),
        golden is None ==> complaint(name, golden, path, actual) == Some(
            name + seq![
                ':',
                ' ',
                'm',
                'i',
                's',
                's',
                'i',
                'n',
                'g',
                ' ',
                'g',
                'o',
                'l',
                'd',
                'e',
                'n',
                ' ',
            ] + path,
        ),
{
    reveal_strlit(": missing golden ");
    assert(": missing golden "@ =~= seq![
        ':',
        ' ',
        'm',
        'i',
        's',
        's',
        'i',
        'n',
        'g',
        ' ',
        'g',
        'o',
        'l',
        'd',
        'e',
        'n',
        ' ',
    ]);
}

/// A complaint about a difference ends with the number of the first line that differs, counted from
/// one; where the texts differ in no line that both have, it is the first.
pub proof fn the_first_difference_is_named(
    name: Seq<char>,
    golden: Seq<char>,
    path: Seq<char>,
    actual: Seq<char>,
    i: int,
)
    requires
        golden != actual,
        ({
            let (a, b) = (lines(golden), lines(actual));
            let both = if a.len() < b.len() {
                a.len()
            } else {
                b.len()
            };
            ||| 0 <= i < both && a[i] != b[i] && forall|j: int| 0 <= j < i ==> #[trigger] a[j] == b[j]
            ||| i == 0 && forall|j: int| 0 <= j < both ==> #[trigger] a[j] == b[j]
        }),
    ensures
        complaint(name, Some(golden), path, actual) == Some(
            name + seq![
                ':',
                ' ',
                'f',
                'i',
                'r',
                's',
                't',
                ' ',
                'd',
                'i',
                'f',
                'f',
                'e',
                'r',
                'e',
                'n',
                'c',
                'e',
                ' ',
                'o',
                'n',
                ' ',
                'l',
                'i',
                'n',
                'e',
                ' ',
            ] + decimal((i + 1) as nat),
        ),
{
    let (a, b) = (lines(golden), lines(actual));
    if 0 <= i < a.len() && i < b.len() && a[i] != b[i] {
        lemma_differing_line(a, b, 0, i);
    } else {
        lemma_no_differing_line(a, b, 0);
    }
    reveal_strlit(": first difference on line ");
    assert(": first difference on line "@ =~= seq![
        ':',
        ' ',
        'f',
        'i',
        'r',
        's',
        't',
        ' ',
        'd',
        'i',
        'f',
        'f',
        'e',
        'r',
        'e',
        'n',
        'c',
        'e',
        ' ',
        'o',
        'n',
        ' ',
        'l',
        'i',
        'n',
        'e',
        ' ',
    ]);
}

} // verus!
