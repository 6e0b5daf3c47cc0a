//! Paths whose components are separated by `/`, as git lists them on every machine and as Unix has
//! them. What rests on the machine's own paths is told by functions that the caller hands in.

use vstd::prelude::*;

use crate::text;
use crate::text::{chars_of, find_char, same_text};

verus! {

/// Where the components of `path` that begin at `from` or later stand. Repeated slashes and
/// components `.` count for nothing, but for a `.` at the very beginning.
pub open spec fn spans_from(path: Seq<char>, from: int) -> Seq<(int, int)>
    decreases path.len() + 1 - from,
{
    if from < 0 || from >= path.len() {
        seq![]
    } else {
        let end = from + text::index_of(path.skip(from), '/');
        let piece = path.subrange(from, end);
        proof {
            text::lemma_index_of(path.skip(from), '/');
        }
        let rest = spans_from(path, end + 1);
        if piece.len() == 0 || (piece == "."@ && from != 0) {
            rest
        } else {
            seq![(from, end)] + rest
        }
    }
}

/// Where the components of `path` stand. The slash that an absolute path begins with is a
/// component.
pub open spec fn spans(path: Seq<char>) -> Seq<(int, int)> {
    if path.len() > 0 && path[0] == '/' {
        seq![(0int, 1int)] + spans_from(path, 0)
    } else {
        spans_from(path, 0)
    }
}

/// The part of `path` that a span covers.
pub open spec fn piece(path: Seq<char>, span: (int, int)) -> Seq<char> {
    path.subrange(span.0, span.1)
}

/// The components of `path`.
pub open spec fn components(path: Seq<char>) -> Seq<Seq<char>> {
    spans(path).map_values(|span: (int, int)| piece(path, span))
}

/// The last component of `path`, where it is the name of a file or a directory.
pub open spec fn file_name_spec(path: Seq<char>) -> Option<Seq<char>> {
    let all = components(path);
    if all.len() == 0 || all.last() == "/"@ || all.last() == "."@ || all.last() == ".."@ {
        None
    } else {
        Some(all.last())
    }
}

/// What is left of `path` without its last component is the same path as `dir`.
pub open spec fn parent_is_spec(path: Seq<char>, dir: Seq<char>) -> bool {
    let all = components(path);
    all.len() > 0 && all.last() != "/"@ && all.drop_last() == components(dir)
}

/// What is left of `path` without the components of `base`, where it begins with them.
pub open spec fn strip_prefix_spec(path: Seq<char>, base: Seq<char>) -> Option<Seq<char>> {
    let n = components(base).len() as int;
    if !components(base).is_prefix_of(components(path)) {
        None
    } else if n == spans(path).len() {
        Some(seq![])
    } else {
        Some(path.subrange(spans(path)[n].0, spans(path).last().1))
    }
}

/// The spans as mathematical integers.
pub open spec fn spans_view(v: Seq<(usize, usize)>) -> Seq<(int, int)> {
    v.map_values(|span: (usize, usize)| (span.0 as int, span.1 as int))
}

proof fn lemma_spans_from(path: Seq<char>, from: int)
    requires
        0 <= from,
    ensures
        forall|k: int|
            0 <= k < spans_from(path, from).len() ==> {
                let span = #[trigger] spans_from(path, from)[k];
                from <= span.0 < span.1 <= path.len()
            },
        forall|j: int, k: int|
            0 <= j < k < spans_from(path, from).len() ==> (#[trigger] spans_from(path, from)[j]).1
                < (#[trigger] spans_from(path, from)[k]).0,
    decreases path.len() + 1 - from,
{
    if from < path.len() {
        let end = from + text::index_of(path.skip(from), '/');
        text::lemma_index_of(path.skip(from), '/');
        lemma_spans_from(path, end + 1);
        let rest = spans_from(path, end + 1);
        if spans_from(path, from) != rest {
            assert(forall|k: int|
                1 <= k < spans_from(path, from).len() ==> #[trigger] spans_from(path, from)[k]
                    == rest[k - 1]);
        }
    }
}

/// Spans lie within their path, one after the other.
pub(crate) proof fn lemma_spans(path: Seq<char>)
    ensures
        forall|k: int|
            0 <= k < spans(path).len() ==> {
                let span = #[trigger] spans(path)[k];
                0 <= span.0 < span.1 <= path.len()
            },
        forall|j: int, k: int|
            0 <= j < k < spans(path).len() ==> (#[trigger] spans(path)[j]).1 <= (#[trigger] spans(
                path,
            )[k]).0,
{
    lemma_spans_from(path, 0);
    if path.len() > 0 && path[0] == '/' {
        let body = spans_from(path, 0);
        assert(text::index_of(path.skip(0), '/') == 0);
        assert(path.subrange(0, 0).len() == 0);
        assert(body == spans_from(path, 1));
        lemma_spans_from(path, 1);
        assert(forall|k: int|
            1 <= k < spans(path).len() ==> #[trigger] spans(path)[k] == body[k - 1]);
    }
}

/// Where the components of `path` stand.
fn component_spans(path: &str) -> (all: Vec<(usize, usize)>)
    ensures
        spans_view(all@) == spans(path@),
{
    let v = chars_of(path);
    let mut all: Vec<(usize, usize)> = Vec::new();
    if v.len() > 0 && v[0] == '/' {
        all.push((0, 1));
    }
    assert(spans_view(all@) + spans_from(path@, 0) =~= spans(path@));
    let mut from: usize = 0;
    while from < v.len()
        invariant
            v@ == path@,
            from <= v@.len(),
            spans_view(all@) + spans_from(path@, from as int) == spans(path@),
        decreases v@.len() - from,
    {
        let end = find_char(&v, from, '/');
        let ghost part = path@.subrange(from as int, end as int);
        let ghost before = spans_view(all@);
        let ghost rest = spans_from(path@, end + 1);
        proof {
            reveal_strlit(".");
            if part.len() == 1 && part[0] == '.' {
                assert(part =~= "."@);
            }
        }
        if end > from && !(from != 0 && end - from == 1 && v[from] == '.') {
            all.push((from, end));
            assert(spans_view(all@) == before.push((from as int, end as int)));
            assert(before.push((from as int, end as int)) + rest == before + (seq![
                (from as int, end as int),
            ] + rest));
        }
        if end < v.len() {
            from = end + 1;
        } else {
            assert(rest =~= seq![]);
            assert(spans_from(path@, end as int) =~= seq![]);
            from = end;
        }
    }
    assert(spans_view(all@) + spans_from(path@, from as int) == spans_view(all@));
    all
}

/// The last component of `path`, where it is the name of a file or a directory.
pub fn file_name(path: &str) -> (name: Option<&str>)
    ensures
        match file_name_spec(path@) {
            Some(n) => name matches Some(found) && found@ == n,
            None => name is None,
        },
{
    let all = component_spans(path);
    proof {
        lemma_spans(path@);
    }
    if all.len() == 0 {
        return None;
    }
    let last = all[all.len() - 1];
    proof {
        assert(spans_view(all@)[all@.len() - 1] == (last.0 as int, last.1 as int));
    }
    let name = path.substring_char(last.0, last.1);
    assert(name@ == components(path@).last());
    if same_text(name, "/") || same_text(name, ".") || same_text(name, "..") {
        None
    } else {
        Some(name)
    }
}

/// The first components of `path` are those of `base`.
fn starts_with_components(
    path: &str,
    all: &Vec<(usize, usize)>,
    base: &str,
    first: &Vec<(usize, usize)>,
) -> (yes: bool)
    requires
        spans_view(all@) == spans(path@),
        spans_view(first@) == spans(base@),
    ensures
        yes == components(base@).is_prefix_of(components(path@)),
{
    if first.len() > all.len() {
        return false;
    }
    proof {
        lemma_spans(path@);
        lemma_spans(base@);
    }
    let ghost b = components(base@);
    let ghost p = components(path@);
    let mut i: usize = 0;
    while i < first.len()
        invariant
            i <= first@.len() <= all@.len(),
            spans_view(all@) == spans(path@),
            spans_view(first@) == spans(base@),
            b == components(base@),
            p == components(path@),
            forall|k: int|
                0 <= k < spans(path@).len() ==> {
                    let span = #[trigger] spans(path@)[k];
                    0 <= span.0 < span.1 <= path@.len()
                },
            forall|k: int|
                0 <= k < spans(base@).len() ==> {
                    let span = #[trigger] spans(base@)[k];
                    0 <= span.0 < span.1 <= base@.len()
                },
            forall|j: int| 0 <= j < i ==> b[j] == p[j],
        decreases first@.len() - i,
    {
        let x = all[i];
        let y = first[i];
        proof {
            assert(spans_view(all@)[i as int] == (x.0 as int, x.1 as int));
            assert(spans_view(first@)[i as int] == (y.0 as int, y.1 as int));
        }
        let of_path = path.substring_char(x.0, x.1);
        let of_base = base.substring_char(y.0, y.1);
        assert(of_path@ == p[i as int]);
        assert(of_base@ == b[i as int]);
        if !same_text(of_path, of_base) {
            return false;
        }
        i = i + 1;
    }
    assert(b =~= p.subrange(0, b.len() as int));
    true
}

/// What is left of `path` without its last component is the same path as `dir`.
pub fn parent_is(path: &str, dir: &str) -> (yes: bool)
    ensures
        yes == parent_is_spec(path@, dir@),
{
    let all = component_spans(path);
    let first = component_spans(dir);
    let ghost p = components(path@);
    let ghost d = components(dir@);
    if all.len() == 0 || first.len() != all.len() - 1 {
        assert(p.len() > 0 ==> p.drop_last().len() != d.len());
        return false;
    }
    if !starts_with_components(path, &all, dir, &first) {
        assert(p.drop_last() == d ==> d =~= p.subrange(0, d.len() as int));
        return false;
    }
    proof {
        lemma_spans(path@);
        assert(p.drop_last() =~= p.subrange(0, d.len() as int));
    }
    let last = all[all.len() - 1];
    assert(spans_view(all@)[all@.len() - 1] == (last.0 as int, last.1 as int));
    let name = path.substring_char(last.0, last.1);
    assert(name@ == p.last());
    !same_text(name, "/")
}

/// What is left of `path` without the components of `base`, where it begins with them.
pub fn strip_prefix(path: &str, base: &str) -> (rest: Option<String>)
    ensures
        match strip_prefix_spec(path@, base@) {
            Some(r) => rest matches Some(found) && found@ == r,
            None => rest is None,
        },
{
    let all = component_spans(path);
    let first = component_spans(base);
    if !starts_with_components(path, &all, base, &first) {
        return None;
    }
    proof {
        lemma_spans(path@);
    }
    if first.len() == all.len() {
        let rest = String::new();
        assert(rest@ =~= seq![]);
        return Some(rest);
    }
    let x = all[first.len()];
    let y = all[all.len() - 1];
    proof {
        assert(spans_view(all@)[first@.len() as int] == (x.0 as int, x.1 as int));
        assert(spans_view(all@)[all@.len() - 1] == (y.0 as int, y.1 as int));
    }
    Some(path.substring_char(x.0, y.1).to_owned())
}

/// `strip` can return `out` when it is to take `base` off `path`.
pub open spec fn strip_gives<S: Fn(&str, &str) -> Option<String>>(
    strip: S,
    path: Seq<char>,
    base: Seq<char>,
    out: Option<Seq<char>>,
) -> bool {
    exists|p: &str, b: &str, r: Option<String>|
        p@ == path && b@ == base && #[trigger] call_ensures(strip, (p, b), r)
            && text::option_view(r) == out
}

/// What `path` can be as seen from `base`: what is left of it where it lies below `base`, else
/// `path` itself.
pub open spec fn relative_outcome<S: Fn(&str, &str) -> Option<String>>(
    strip: S,
    base: Seq<char>,
    path: Seq<char>,
    shown: Seq<char>,
) -> bool {
    exists|out: Option<Seq<char>>| #[trigger]
        strip_gives(strip, path, base, out) && shown == match out {
            Some(rest) => rest,
            None => path,
        }
}

/// `path` as seen from `base`, where it lies below it; else `path` itself. `strip` takes a base
/// off a path as the paths of the machine ask for: `strip_prefix` where they are those of Unix.
pub fn relative<S: Fn(&str, &str) -> Option<String>>(base: &str, path: &str, strip: &S) -> (shown:
    String)
    requires
        forall|p: &str, b: &str| call_requires(*strip, (p, b)),
    ensures
        relative_outcome(*strip, base@, path@, shown@),
{
    let out = strip(path, base);
    assert(strip_gives(*strip, path@, base@, text::option_view(out)));
    match out {
        Some(rest) => rest,
        None => path.to_owned(),
    }
}

/// `join` can return `joined` when it is to put `rest` below `base`.
pub open spec fn join_gives<J: Fn(&str, &str) -> String>(
    join: J,
    base: Seq<char>,
    rest: Seq<char>,
    joined: Seq<char>,
) -> bool {
    exists|b: &str, r: &str, out: String|
        b@ == base && r@ == rest && #[trigger] call_ensures(join, (b, r), out) && out@ == joined
}

/// `rest` below `base`; `rest` itself where it is absolute.
pub open spec fn join_path_spec(base: Seq<char>, rest: Seq<char>) -> Seq<char> {
    if (rest.len() > 0 && rest[0] == '/') || base.len() == 0 {
        rest
    } else if base.last() == '/' {
        base + rest
    } else {
        base + "/"@ + rest
    }
}

/// `rest` below `base`; `rest` itself where it is absolute.
pub fn join_path(base: &str, rest: &str) -> (joined: String)
    ensures
        joined@ == join_path_spec(base@, rest@),
{
    let b = chars_of(base);
    let r = chars_of(rest);
    if (r.len() > 0 && r[0] == '/') || b.len() == 0 {
        return rest.to_owned();
    }
    let mut joined = base.to_owned();
    if b[b.len() - 1] != '/' {
        joined.append("/");
    }
    joined.append(rest);
    joined
}

} // verus!
