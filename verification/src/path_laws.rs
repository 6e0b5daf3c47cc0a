//! What taking paths apart and putting them together is for.

use vstd::prelude::*;

use crate::laws;
use crate::path;
use crate::text;
use crate::text_laws;

verus! {

/// The pieces that name something: all but empty ones and single dots.
pub open spec fn naming(pieces: Seq<Seq<char>>) -> Seq<Seq<char>> {
    pieces.filter(|piece: Seq<char>| piece.len() > 0 && piece != seq!['.'])
}

pub(crate) proof fn lemma_naming_add(a: Seq<Seq<char>>, b: Seq<Seq<char>>)
    ensures
        naming(a + b) == naming(a) + naming(b),
{
    let pred = |piece: Seq<char>| piece.len() > 0 && piece != seq!['.'];
    Seq::filter_distributes_over_add(a, b, pred);
}

pub(crate) proof fn lemma_naming_one(piece: Seq<char>)
    ensures
        naming(seq![piece]) == if piece.len() > 0 && piece != seq!['.'] {
            seq![piece]
        } else {
            seq![]
        },
{
    reveal(Seq::filter);
    let one = seq![piece];
    assert(one.drop_last() =~= seq![]);
    let pred = |piece: Seq<char>| piece.len() > 0 && piece != seq!['.'];
    assert(one.drop_last().filter(pred) =~= seq![]);
    assert(naming(one) =~= if piece.len() > 0 && piece != seq!['.'] {
        seq![piece]
    } else {
        seq![]
    });
}

spec fn pieces_from(path: Seq<char>, from: int) -> Seq<Seq<char>> {
    path::spans_from(path, from).map_values(|span: (int, int)| path::piece(path, span))
}

#[verifier::spinoff_prover]
#[verifier::rlimit(60)]
proof fn lemma_pieces_from(path: Seq<char>, from: int)
    requires
        0 <= from <= path.len(),
    ensures
        pieces_from(path, from) == (if from == 0 && text::fields(path, '/')[0] == seq!['.'] {
            seq![seq!['.']]
        } else {
            seq![]
        }) + naming(text::fields(path.skip(from), '/')),
    decreases path.len() - from,
{
    reveal_strlit(".");
    assert("."@ =~= seq!['.']);
    let s = path.skip(from);
    let k = text::index_of(s, '/');
    text::lemma_index_of(s, '/');
    if from == 0 {
        assert(s =~= path);
    }
    if from >= path.len() {
        assert(s =~= seq![]);
        assert(text::fields(s, '/') =~= seq![s]);
        lemma_naming_one(s);
        assert(pieces_from(path, from) =~= seq![]);
        assert(naming(text::fields(s, '/')) =~= seq![]);
    } else {
        let end = from + k;
        let first = path.subrange(from, end);
        let rest = pieces_from(path, end + 1);
        assert(first =~= s.take(k));
        lemma_naming_one(first);
        if end < path.len() {
            lemma_pieces_from(path, end + 1);
            assert(s.skip(k + 1) =~= path.skip(end + 1));
            let tail = text::fields(path.skip(end + 1), '/');
            assert(text::fields(s, '/') =~= seq![first] + tail);
            lemma_naming_add(seq![first], tail);
            assert(rest =~= naming(tail));
        } else {
            assert(path::spans_from(path, end + 1) =~= seq![]);
            assert(rest =~= seq![]);
            assert(s.take(k) =~= s);
            assert(text::fields(s, '/') =~= seq![first]);
        }
        if first.len() == 0 || (first == "."@ && from != 0) {
            assert(pieces_from(path, from) =~= rest);
        } else {
            assert(path::piece(path, (from, end)) == first);
            assert(pieces_from(path, from) =~= seq![first] + rest);
        }
        assert(pieces_from(path, from) =~= (if from == 0 && text::fields(path, '/')[0] == seq![
            '.',
        ] {
            seq![seq!['.']]
        } else {
            seq![]
        }) + naming(text::fields(s, '/')));
    }
}

/// The components of a path are the pieces between its slashes that name something; a slash or a
/// single dot that it begins with is one, too.
pub proof fn law_components(path: Seq<char>)
    ensures
        path::components(path) == (if path.len() > 0 && path[0] == '/' {
            seq![seq!['/']]
        } else if text::fields(path, '/')[0] == seq!['.'] {
            seq![seq!['.']]
        } else {
            seq![]
        }) + naming(text::fields(path, '/')),
{
    assert(path.skip(0) =~= path);
    lemma_pieces_from(path, 0);
    let body = pieces_from(path, 0);
    if path.len() > 0 && path[0] == '/' {
        assert(text::index_of(path, '/') == 0);
        assert(text::fields(path, '/')[0] =~= seq![]);
        assert(path::piece(path, (0, 1)) =~= seq!['/']);
        assert(path::components(path) =~= seq![seq!['/']] + body);
        assert(body =~= naming(text::fields(path, '/')));
    } else {
        assert(path::components(path) =~= body);
    }
    assert(path::components(path) =~= (if path.len() > 0 && path[0] == '/' {
        seq![seq!['/']]
    } else if text::fields(path, '/')[0] == seq!['.'] {
        seq![seq!['.']]
    } else {
        seq![]
    }) + naming(text::fields(path, '/')));
}

proof fn lemma_single_component(name: Seq<char>)
    requires
        !name.contains('/'),
    ensures
        path::components(name) == if name.len() > 0 {
            seq![name]
        } else {
            seq![]
        },
{
    law_components(name);
    laws::lemma_fields_len(name, '/');
    lemma_naming_one(name);
    if name.len() > 0 {
        assert(name[0] != '/');
        assert(path::components(name) =~= seq![name]);
    } else {
        assert(path::components(name) =~= seq![]);
    }
}

proof fn lemma_rooted_component(name: Seq<char>)
    requires
        !name.contains('/'),
    ensures
        path::components(seq!['/'] + name) == seq![seq!['/']] + naming(seq![name]),
{
    let none: Seq<char> = seq![];
    let rooted = seq!['/'] + name;
    law_components(rooted);
    assert(rooted =~= none + seq!['/'] + name);
    laws::lemma_fields_split(none, '/', name);
    laws::lemma_fields_len(none, '/');
    laws::lemma_fields_len(name, '/');
    lemma_naming_add(seq![none], seq![name]);
    lemma_naming_one(none);
    assert(seq![] + naming(seq![name]) =~= naming(seq![name]));
}

#[verifier::spinoff_prover]
#[verifier::rlimit(60)]
proof fn lemma_component_below(dir: Seq<char>, name: Seq<char>)
    requires
        dir.len() > 0,
        !name.contains('/'),
    ensures
        path::components(dir + seq!['/'] + name) == path::components(dir) + naming(seq![name]),
{
    let whole = dir + seq!['/'] + name;
    let inner = text::fields(dir, '/');
    law_components(whole);
    law_components(dir);
    laws::lemma_fields_split(dir, '/', name);
    laws::lemma_fields_len(dir, '/');
    laws::lemma_fields_len(name, '/');
    lemma_naming_add(inner, seq![name]);
    assert(whole[0] == dir[0]);
    assert(text::fields(whole, '/') == inner + seq![name]);
    assert((inner + seq![name])[0] == inner[0]);
    assert(path::components(whole) =~= path::components(dir) + naming(seq![name]));
}

/// A name below a path is one more component; a slash, or a slash and a single dot, is none.
#[verifier::spinoff_prover]
#[verifier::rlimit(60)]
pub proof fn law_one_more_component(dir: Seq<char>, name: Seq<char>)
    requires
        !name.contains('/'),
    ensures
        dir.len() > 0 ==> path::components(dir + seq!['/'] + name) == path::components(dir) + (
        if name.len() > 0 && name != seq!['.'] {
            seq![name]
        } else {
            seq![]
        }),
        name.len() > 0 ==> path::components(name) == seq![name],
        path::components(seq!['/'] + name) == seq![seq!['/']] + (if name.len() > 0 && name != seq![
            '.',
        ] {
            seq![name]
        } else {
            seq![]
        }),
        path::components(seq![]) == Seq::<Seq<char>>::empty(),
{
    lemma_single_component(name);
    lemma_single_component(seq![]);
    lemma_rooted_component(name);
    lemma_naming_one(name);
    if dir.len() > 0 {
        lemma_component_below(dir, name);
    }
}

/// The file name is what stands after the last slash; two dots are none, and a slash at the end, or
/// a slash and a single dot, changes nothing.
#[verifier::spinoff_prover]
#[verifier::rlimit(60)]
pub proof fn law_file_name(dir: Seq<char>, name: Seq<char>)
    requires
        !name.contains('/'),
        name.len() > 0,
        name != seq!['.'],
    ensures
        ({
            let found = if name == seq!['.', '.'] {
                None
            } else {
                Some(name)
            };
            &&& path::file_name_spec(name) == found
            &&& path::file_name_spec(seq!['/'] + name) == found
            &&& dir.len() > 0 ==> path::file_name_spec(dir + seq!['/'] + name) == found
            &&& dir.len() > 0 ==> path::file_name_spec(dir + seq!['/']) == path::file_name_spec(dir)
            &&& dir.len() > 0 ==> path::file_name_spec(dir + seq!['/', '.'])
                == path::file_name_spec(dir)
            &&& path::file_name_spec(seq![]) is None
            &&& path::file_name_spec(seq!['.']) is None
            &&& path::file_name_spec(seq!['/']) is None
        }),
{
    reveal_strlit("/");
    reveal_strlit(".");
    reveal_strlit("..");
    assert("/"@ =~= seq!['/']);
    assert("."@ =~= seq!['.']);
    assert(".."@ =~= seq!['.', '.']);
    assert(name != "/"@) by {
        if name == "/"@ {
            assert(name[0] == '/');
        }
    }
    let none: Seq<char> = seq![];
    let dot = seq!['.'];
    assert(!dot.contains('/'));
    law_one_more_component(dir, name);
    law_one_more_component(dir, none);
    law_one_more_component(dir, dot);
    assert(dir + seq!['/'] + none =~= dir + seq!['/']);
    assert(dir + seq!['/'] + dot =~= dir + seq!['/', '.']);
    assert(seq!['/'] + none =~= seq!['/']);
    let c = path::components(dir);
    assert(c + seq![] =~= c);
    assert(seq![seq!['/']] + Seq::<Seq<char>>::empty() =~= seq![seq!['/']]);
}

/// A name stands directly in a directory where what comes before it has the directory's components.
pub proof fn law_parent(dir: Seq<char>, name: Seq<char>, other: Seq<char>)
    requires
        !name.contains('/'),
        name.len() > 0,
        name != seq!['.'],
    ensures
        dir.len() > 0 ==> (path::parent_is_spec(dir + seq!['/'] + name, other)
            <==> path::components(dir) == path::components(other)),
        path::parent_is_spec(name, other) <==> path::components(other).len() == 0,
        dir.len() > 0 ==> (path::parent_is_spec(dir + seq!['/'], other) <==> path::parent_is_spec(
            dir,
            other,
        )),
{
    reveal_strlit("/");
    assert(name != "/"@) by {
        if name == "/"@ {
            assert(name[0] == '/');
        }
    }
    let none: Seq<char> = seq![];
    law_one_more_component(dir, name);
    law_one_more_component(dir, none);
    assert(dir + seq!['/'] + none =~= dir + seq!['/']);
    let c = path::components(dir);
    assert(c + seq![] =~= c);
    assert((c + seq![name]).drop_last() =~= c);
    assert(seq![name].drop_last() =~= seq![]);
    if path::components(other).len() == 0 {
        assert(path::components(other) =~= seq![]);
    }
}

/// A path ends in a file name where its last component is one, and stands directly in a directory
/// where the components before the last one are the directory's.
pub proof fn law_last_component(path: Seq<char>, dir: Seq<char>)
    ensures
        ({
            let all = path::components(path);
            &&& path::file_name_spec(path) == if all.len() > 0 && all.last() != seq!['/']
                && all.last() != seq!['.'] && all.last() != seq!['.', '.'] {
                Some(all.last())
            } else {
                None
            }
            &&& path::parent_is_spec(path, dir) <==> all.len() > 0 && all.last() != seq!['/']
                && all.take(all.len() - 1) == path::components(dir)
        }),
{
    reveal_strlit("/");
    reveal_strlit(".");
    reveal_strlit("..");
    assert("/"@ =~= seq!['/']);
    assert("."@ =~= seq!['.']);
    assert(".."@ =~= seq!['.', '.']);
    let all = path::components(path);
    if all.len() > 0 {
        assert(all.drop_last() =~= all.take(all.len() - 1));
    }
}

/// Names with a slash between every two are the components of the path that they make up.
pub proof fn law_plain_path(names: Seq<Seq<char>>)
    requires
        names.len() > 0,
        forall|i: int|
            0 <= i < names.len() ==> {
                let name = #[trigger] names[i];
                name.len() > 0 && !name.contains('/') && name != seq!['.']
            },
    ensures
        path::components(text::join(names, seq!['/'])) == names,
        text::join(names, seq!['/']).len() > 0,
    decreases names.len(),
{
    let last = names.last();
    let head = names.drop_last();
    assert(last == names[names.len() - 1]);
    if names.len() == 1 {
        law_one_more_component(seq![], last);
        assert(names =~= seq![last]);
    } else {
        assert forall|i: int| 0 <= i < head.len() implies {
            let name = #[trigger] head[i];
            name.len() > 0 && !name.contains('/') && name != seq!['.']
        } by {
            assert(head[i] == names[i]);
        }
        law_plain_path(head);
        law_one_more_component(text::join(head, seq!['/']), last);
        assert(head + seq![last] =~= names);
    }
}

proof fn lemma_last_span(path: Seq<char>, from: int, last: Seq<char>)
    requires
        0 <= from <= path.len() - last.len(),
        !last.contains('/'),
        last.len() > 0,
        last != seq!['.'],
        path.skip(path.len() - last.len()) == last,
        from == path.len() - last.len() || path[path.len() - last.len() - 1] == '/',
    ensures
        path::spans_from(path, from).len() > 0,
        path::spans_from(path, from).last().1 == path.len(),
    decreases path.len() - from,
{
    reveal_strlit(".");
    assert("."@ =~= seq!['.']);
    let s = path.skip(from);
    let k = text::index_of(s, '/');
    text::lemma_index_of(s, '/');
    let end = from + k;
    let at = path.len() - last.len();
    if from == at {
        assert(s == last);
        laws::lemma_index_of_absent(last, '/');
        assert(path.subrange(from, end) =~= last);
        assert(path::spans_from(path, end + 1) =~= seq![]);
        assert(path::spans_from(path, from) =~= seq![(from, end)]);
    } else {
        assert(s[at - 1 - from] == '/');
        assert(end <= at - 1);
        lemma_last_span(path, end + 1, last);
    }
}

/// What is left of a path without a base that it continues is the continuation as it stands.
pub proof fn law_strip_prefix(base: Seq<char>, middle: Seq<char>, first: Seq<char>, last: Seq<char>)
    requires
        base.len() > 0,
        !first.contains('/') && first.len() > 0 && first != seq!['.'],
        !last.contains('/') && last.len() > 0 && last != seq!['.'],
    ensures
        path::strip_prefix_spec(base + seq!['/'] + first, base) == Some(first),
        path::strip_prefix_spec(
            base + seq!['/'] + (first + seq!['/'] + middle + seq!['/'] + last),
            base,
        ) == Some(first + seq!['/'] + middle + seq!['/'] + last),
        path::strip_prefix_spec(base, base) == Some(Seq::<char>::empty()),
{
    assert(first.subrange(0, first.len() as int) =~= first);
    assert(first.skip(0) =~= first);
    lemma_strip(base, first, first, first);
    let rest = first + seq!['/'] + middle + seq!['/'] + last;
    assert(rest.subrange(0, first.len() as int) =~= first);
    assert(rest.skip(rest.len() - last.len()) =~= last);
    lemma_strip(base, rest, first, last);
    let c = path::components(base);
    assert(c.subrange(0, c.len() as int) =~= c);
}

#[verifier::spinoff_prover]
#[verifier::rlimit(60)]
proof fn lemma_strip(base: Seq<char>, rest: Seq<char>, first: Seq<char>, last: Seq<char>)
    requires
        base.len() > 0,
        !first.contains('/') && first.len() > 0 && first != seq!['.'],
        !last.contains('/') && last.len() > 0 && last != seq!['.'],
        first.len() <= rest.len() && last.len() <= rest.len(),
        rest.subrange(0, first.len() as int) == first,
        first.len() == rest.len() || rest[first.len() as int] == '/',
        rest.skip(rest.len() - last.len()) == last,
        last.len() == rest.len() || rest[rest.len() - last.len() - 1] == '/',
    ensures
        path::strip_prefix_spec(base + seq!['/'] + rest, base) == Some(rest),
{
    reveal_strlit("/");
    reveal_strlit(".");
    assert("."@ =~= seq!['.']);
    let whole = base + seq!['/'] + rest;
    assert(whole =~= base + "/"@ + rest);
    let n = base.len() as int;
    laws::lemma_spans_continue(base, rest, 0);
    let tail = path::spans_from(whole, n + 1);

    // The first span of the continuation begins where the continuation does.
    let s = whole.skip(n + 1);
    assert(s =~= rest);
    assert(text::index_of(rest, '/') == first.len()) by {
        assert forall|j: int| 0 <= j < first.len() implies rest[j] != '/' by {
            assert(rest.subrange(0, first.len() as int)[j] == rest[j]);
            assert(first[j] != '/');
        }
        text::lemma_index_of_unique(rest, '/', first.len() as int);
    }
    assert(whole.subrange(n + 1, n + 1 + first.len()) =~= first);
    assert(tail.len() > 0 && tail[0].0 == n + 1);

    // The last one ends where it does.
    assert(whole.skip(whole.len() - last.len()) =~= last);
    assert(last.len() < rest.len() ==> whole[whole.len() - last.len() - 1] == rest[rest.len()
        - last.len() - 1]);
    lemma_last_span(whole, n + 1, last);

    assert(whole[0] == base[0]);
    assert(path::spans(whole) =~= path::spans(base) + tail);
    path::lemma_spans(base);
    let c = path::components(base);
    assert forall|k: int| 0 <= k < c.len() implies c[k] == path::components(whole)[k] by {
        let span = path::spans(base)[k];
        assert(path::spans(whole)[k] == span);
        assert(path::piece(base, span) =~= path::piece(whole, span));
    }
    assert(c =~= path::components(whole).subrange(0, c.len() as int));
    assert(whole.subrange(n + 1, whole.len() as int) =~= rest);
}

/// An empty base leaves a path as it stands.
pub proof fn law_strip_nothing(middle: Seq<char>, first: Seq<char>, last: Seq<char>)
    requires
        !first.contains('/') && first.len() > 0 && first != seq!['.'],
        !last.contains('/') && last.len() > 0 && last != seq!['.'],
    ensures
        path::strip_prefix_spec(first, seq![]) == Some(first),
        path::strip_prefix_spec(first + seq!['/'] + middle + seq!['/'] + last, seq![]) == Some(
            first + seq!['/'] + middle + seq!['/'] + last,
        ),
{
    assert(first.subrange(0, first.len() as int) =~= first);
    assert(first.skip(0) =~= first);
    lemma_strip_nothing(first, first, first);
    let path = first + seq!['/'] + middle + seq!['/'] + last;
    assert(path.subrange(0, first.len() as int) =~= first);
    assert(path.skip(path.len() - last.len()) =~= last);
    lemma_strip_nothing(path, first, last);
}

proof fn lemma_strip_nothing(path: Seq<char>, first: Seq<char>, last: Seq<char>)
    requires
        !first.contains('/') && first.len() > 0 && first != seq!['.'],
        !last.contains('/') && last.len() > 0 && last != seq!['.'],
        first.len() <= path.len() && last.len() <= path.len(),
        path.subrange(0, first.len() as int) == first,
        first.len() == path.len() || path[first.len() as int] == '/',
        path.skip(path.len() - last.len()) == last,
        last.len() == path.len() || path[path.len() - last.len() - 1] == '/',
    ensures
        path::strip_prefix_spec(path, seq![]) == Some(path),
{
    reveal_strlit(".");
    assert("."@ =~= seq!['.']);
    let none: Seq<char> = seq![];
    law_one_more_component(none, none);
    assert(path.skip(0) =~= path);
    assert(path[0] == first[0]) by {
        assert(path.subrange(0, first.len() as int)[0] == path[0]);
    }
    assert(first[0] != '/');
    assert forall|j: int| 0 <= j < first.len() implies path[j] != '/' by {
        assert(path.subrange(0, first.len() as int)[j] == path[j]);
        assert(first[j] != '/');
    }
    text::lemma_index_of_unique(path, '/', first.len() as int);
    let all = path::spans(path);
    assert(all == path::spans_from(path, 0));
    assert(all.len() > 0 && all[0].0 == 0);
    lemma_last_span(path, 0, last);
    let c = path::components(none);
    assert(c =~= path::components(path).subrange(0, 0));
    assert(path.subrange(0, path.len() as int) =~= path);
}

/// A base is taken off exactly those paths that begin with its components.
pub proof fn law_strip_prefix_applies(path: Seq<char>, base: Seq<char>)
    ensures
        path::strip_prefix_spec(path, base) is Some <==> path::components(base).len()
            <= path::components(path).len() && forall|i: int|
            0 <= i < path::components(base).len() ==> #[trigger] path::components(base)[i]
                == path::components(path)[i],
{
    let b = path::components(base);
    let p = path::components(path);
    if b.is_prefix_of(p) {
        assert forall|i: int| 0 <= i < b.len() implies #[trigger] b[i] == p[i] by {
            assert(p.subrange(0, b.len() as int)[i] == p[i]);
        }
    } else if b.len() <= p.len() && forall|i: int| 0 <= i < b.len() ==> #[trigger] b[i] == p[i] {
        assert(b =~= p.subrange(0, b.len() as int));
    }
}

/// A path is put below another with one slash between them; nothing is put before an absolute one.
pub proof fn law_join_path(base: Seq<char>, rest: Seq<char>)
    ensures
        path::join_path_spec(base, seq!['/'] + rest) == seq!['/'] + rest,
        path::join_path_spec(seq![], rest) == rest,
        (rest.len() == 0 || rest[0] != '/') ==> path::join_path_spec(base + seq!['/'], rest) == base
            + seq!['/'] + rest,
        (rest.len() == 0 || rest[0] != '/') && base.len() > 0 && base.last() != '/'
            ==> path::join_path_spec(base, rest) == base + seq!['/'] + rest,
{
    reveal_strlit("/");
    assert("/"@ =~= seq!['/']);
    assert((seq!['/'] + rest)[0] == '/');
    assert((base + seq!['/']).last() == '/');
}

/// A path is shown as what the machine leaves of it without the base, or as it stands where the
/// machine takes nothing off.
pub proof fn law_relative<S: Fn(&str, &str) -> Option<String>>(
    strip: S,
    base: Seq<char>,
    path: Seq<char>,
    shown: Seq<char>,
)
    requires
        path::relative_outcome(strip, base, path, shown),
    ensures
        exists|p: &str, b: &str, out: Option<String>|
            p@ == path && b@ == base && #[trigger] call_ensures(strip, (p, b), out) && (out is Some
                ==> shown == out->0@) && (out is None ==> shown == path),
{
    let found = choose|found: Option<Seq<char>>| #[trigger]
        path::strip_gives(strip, path, base, found) && shown == match found {
            Some(rest) => rest,
            None => path,
        };
    let (p, b, out) = choose|p: &str, b: &str, out: Option<String>|
        p@ == path && b@ == base && #[trigger] call_ensures(strip, (p, b), out)
            && text::option_view(out) == found;
    assert(call_ensures(strip, (p, b), out));
}

} // verus!
