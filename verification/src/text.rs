//! Operations on text, each stated over the sequence of characters that a string holds.

use vstd::prelude::*;

verus! {

/// The characters that Unicode gives the `White_Space` property.
pub open spec fn is_white_space(c: char) -> bool {
    ||| '\u{9}' <= c <= '\u{d}'
    ||| c == '\u{20}'
    ||| c == '\u{85}'
    ||| c == '\u{a0}'
    ||| c == '\u{1680}'
    ||| '\u{2000}' <= c <= '\u{200a}'
    ||| '\u{2028}' <= c <= '\u{2029}'
    ||| c == '\u{202f}'
    ||| c == '\u{205f}'
    ||| c == '\u{3000}'
}

/// `char::is_whitespace` of the standard library: claimed to hold of exactly the characters that
/// have the `White_Space` property in the Unicode Character Database.
pub assume_specification[ char::is_whitespace ](c: char) -> (b: bool)
    ensures
        b == is_white_space(c),
;

/// Where `c` first occurs in `s`, or the length of `s` where it does not.
pub open spec fn index_of(s: Seq<char>, c: char) -> int
    decreases s.len(),
{
    if s.len() == 0 || s[0] == c {
        0
    } else {
        1 + index_of(s.skip(1), c)
    }
}

/// The pieces of `s` between the occurrences of `c`; there is always one more piece than there
/// are occurrences.
pub open spec fn fields(s: Seq<char>, c: char) -> Seq<Seq<char>>
    decreases s.len(),
{
    let i = index_of(s, c);
    if i >= s.len() {
        seq![s]
    } else {
        proof {
            lemma_index_of(s, c);
        }
        seq![s.take(i)] + fields(s.skip(i + 1), c)
    }
}

/// A line without the carriage return that ends it, if one does.
pub open spec fn strip_cr(line: Seq<char>) -> Seq<char> {
    if line.len() > 0 && line.last() == '\r' {
        line.drop_last()
    } else {
        line
    }
}

/// The lines of `s`, without their line feeds. Text after the last line feed is a line of its own
/// unless it is empty.
pub open spec fn raw_lines(s: Seq<char>) -> Seq<Seq<char>>
    decreases s.len(),
{
    let i = index_of(s, '\n');
    if s.len() == 0 {
        seq![]
    } else if i >= s.len() {
        seq![s]
    } else {
        proof {
            lemma_index_of(s, '\n');
        }
        seq![s.take(i)] + raw_lines(s.skip(i + 1))
    }
}

/// The lines of `s`, without their line endings: a line feed, or a carriage return and a line
/// feed. Text after the last line feed is a line of its own unless it is empty, and it keeps a
/// carriage return.
pub open spec fn lines(s: Seq<char>) -> Seq<Seq<char>>
    decreases s.len(),
{
    let i = index_of(s, '\n');
    if s.len() == 0 {
        seq![]
    } else if i >= s.len() {
        seq![s]
    } else {
        proof {
            lemma_index_of(s, '\n');
        }
        seq![strip_cr(s.take(i))] + lines(s.skip(i + 1))
    }
}

/// The parts one after the other, with `sep` between every two of them.
pub open spec fn join(parts: Seq<Seq<char>>, sep: Seq<char>) -> Seq<char>
    decreases parts.len(),
{
    if parts.len() == 0 {
        seq![]
    } else if parts.len() == 1 {
        parts[0]
    } else {
        join(parts.drop_last(), sep) + sep + parts.last()
    }
}

/// `s` without the white space that it starts with.
pub open spec fn trim_start(s: Seq<char>) -> Seq<char>
    decreases s.len(),
{
    if s.len() > 0 && is_white_space(s[0]) {
        trim_start(s.skip(1))
    } else {
        s
    }
}

/// `s` without the white space that it ends with.
pub open spec fn trim_end(s: Seq<char>) -> Seq<char>
    decreases s.len(),
{
    if s.len() > 0 && is_white_space(s.last()) {
        trim_end(s.drop_last())
    } else {
        s
    }
}

/// `s` without the white space at either end.
pub open spec fn trimmed(s: Seq<char>) -> Seq<char> {
    trim_end(trim_start(s))
}

/// All of `s` is white space.
pub open spec fn is_blank(s: Seq<char>) -> bool {
    forall|i: int| 0 <= i < s.len() ==> is_white_space(#[trigger] s[i])
}

/// Where white space first occurs in `s`, or the length of `s` where it does not.
pub open spec fn word_end(s: Seq<char>) -> int
    decreases s.len(),
{
    if s.len() == 0 || is_white_space(s[0]) {
        0
    } else {
        1 + word_end(s.skip(1))
    }
}

/// The longest stretches of `s` that hold no white space.
pub open spec fn words(s: Seq<char>) -> Seq<Seq<char>>
    decreases s.len(),
{
    let t = trim_start(s);
    if t.len() == 0 {
        seq![]
    } else {
        proof {
            lemma_trim_start(s);
            lemma_word_end(t);
        }
        seq![t.take(word_end(t))] + words(t.skip(word_end(t)))
    }
}

/// `pat` occurs in `s` at `i`.
pub open spec fn occurs_at(s: Seq<char>, pat: Seq<char>, i: int) -> bool {
    0 <= i && i + pat.len() <= s.len() && s.subrange(i, i + pat.len()) == pat
}

/// `pat` occurs in `s` at `i`, and nowhere before.
pub open spec fn first_at(s: Seq<char>, pat: Seq<char>, i: int) -> bool {
    occurs_at(s, pat, i) && forall|j: int| 0 <= j < i ==> !#[trigger] occurs_at(s, pat, j)
}

/// `pat` occurs somewhere in `s`.
pub open spec fn contains_text(s: Seq<char>, pat: Seq<char>) -> bool {
    exists|i: int| occurs_at(s, pat, i)
}

/// The character of a decimal digit.
pub open spec fn digit(d: nat) -> char {
    if d == 0 {
        '0'
    } else if d == 1 {
        '1'
    } else if d == 2 {
        '2'
    } else if d == 3 {
        '3'
    } else if d == 4 {
        '4'
    } else if d == 5 {
        '5'
    } else if d == 6 {
        '6'
    } else if d == 7 {
        '7'
    } else if d == 8 {
        '8'
    } else {
        '9'
    }
}

/// A number in decimal notation, without leading zeros.
pub open spec fn decimal(n: nat) -> Seq<char>
    decreases n,
{
    if n < 10 {
        seq![digit(n)]
    } else {
        decimal(n / 10).push(digit(n % 10))
    }
}

/// The characters of each string, in order.
pub open spec fn texts(v: Seq<&str>) -> Seq<Seq<char>> {
    v.map_values(|t: &str| t@)
}

/// The characters of each string, in order.
pub open spec fn owned_texts(v: Seq<String>) -> Seq<Seq<char>> {
    v.map_values(|t: String| t@)
}

/// The characters of a text, if there is one.
pub open spec fn option_view(found: Option<String>) -> Option<Seq<char>> {
    match found {
        Some(s) => Some(s@),
        None => None,
    }
}

/// `c` stands where `index_of` says, and nowhere before.
pub proof fn lemma_index_of(s: Seq<char>, c: char)
    ensures
        0 <= index_of(s, c) <= s.len(),
        index_of(s, c) < s.len() ==> s[index_of(s, c)] == c,
        forall|j: int| 0 <= j < index_of(s, c) ==> s[j] != c,
    decreases s.len(),
{
    if s.len() != 0 && s[0] != c {
        lemma_index_of(s.skip(1), c);
        assert forall|j: int| 0 <= j < index_of(s, c) implies s[j] != c by {
            if j > 0 {
                assert(s[j] == s.skip(1)[j - 1]);
            }
        }
    }
}

/// What `index_of` is can be read off its two defining properties.
pub(crate) proof fn lemma_index_of_unique(s: Seq<char>, c: char, i: int)
    requires
        0 <= i <= s.len(),
        i < s.len() ==> s[i] == c,
        forall|j: int| 0 <= j < i ==> s[j] != c,
    ensures
        index_of(s, c) == i,
{
    lemma_index_of(s, c);
}

/// What is cut off the beginning is white space, and what is left does not begin with any.
pub proof fn lemma_trim_start(s: Seq<char>)
    ensures
        trim_start(s).len() <= s.len(),
        trim_start(s) == s.skip(s.len() - trim_start(s).len()),
        is_blank(s.take(s.len() - trim_start(s).len())),
        trim_start(s).len() > 0 ==> !is_white_space(trim_start(s)[0]),
    decreases s.len(),
{
    if s.len() > 0 && is_white_space(s[0]) {
        lemma_trim_start(s.skip(1));
        let k = s.len() - trim_start(s).len();
        assert(s.skip(1).skip(k - 1) == s.skip(k));
        assert forall|i: int| 0 <= i < k implies is_white_space(#[trigger] s.take(k)[i]) by {
            if i > 0 {
                assert(s.take(k)[i] == s.skip(1).take(k - 1)[i - 1]);
            }
        }
    }
}

/// What is cut off the end is white space, and what is left does not end in any.
pub(crate) proof fn lemma_trim_end(s: Seq<char>)
    ensures
        trim_end(s).len() <= s.len(),
        trim_end(s) == s.take(trim_end(s).len() as int),
        is_blank(s.skip(trim_end(s).len() as int)),
        trim_end(s).len() > 0 ==> !is_white_space(trim_end(s).last()),
    decreases s.len(),
{
    if s.len() > 0 && is_white_space(s.last()) {
        lemma_trim_end(s.drop_last());
        let k = trim_end(s).len() as int;
        assert(s.drop_last().take(k) == s.take(k));
        assert forall|i: int| 0 <= i < s.len() - k implies is_white_space(
            #[trigger] s.skip(k)[i],
        ) by {
            if i < s.len() - k - 1 {
                assert(s.skip(k)[i] == s.drop_last().skip(k)[i]);
            }
        }
    }
}

/// White space stands where `word_end` says, and nowhere before.
pub proof fn lemma_word_end(s: Seq<char>)
    ensures
        0 <= word_end(s) <= s.len(),
        word_end(s) < s.len() ==> is_white_space(s[word_end(s)]),
        forall|j: int| 0 <= j < word_end(s) ==> !is_white_space(#[trigger] s[j]),
        s.len() > 0 && !is_white_space(s[0]) ==> word_end(s) > 0,
    decreases s.len(),
{
    if s.len() != 0 && !is_white_space(s[0]) {
        lemma_word_end(s.skip(1));
        assert forall|j: int| 0 <= j < word_end(s) implies !is_white_space(#[trigger] s[j]) by {
            if j > 0 {
                assert(s[j] == s.skip(1)[j - 1]);
            }
        }
    }
}

/// Nothing is left of a text after trimming if and only if all of it is white space.
pub(crate) proof fn lemma_trimmed_blank(s: Seq<char>)
    ensures
        trimmed(s).len() == 0 <==> is_blank(s),
{
    lemma_trim_start(s);
    let t = trim_start(s);
    let k = s.len() - t.len();
    lemma_trim_end(t);
    if trimmed(s).len() == 0 {
        assert forall|i: int| 0 <= i < s.len() implies is_white_space(#[trigger] s[i]) by {
            if i < k {
                assert(s[i] == s.take(k)[i]);
            } else {
                assert(s[i] == t.skip(0)[i - k]);
            }
        }
    }
    if is_blank(s) && t.len() > 0 {
        assert(t[0] == s[k]);
    }
}

/// A text has at most one first occurrence of another.
pub(crate) proof fn lemma_first_at_unique(s: Seq<char>, pat: Seq<char>, i: int, j: int)
    requires
        first_at(s, pat, i),
        first_at(s, pat, j),
    ensures
        i == j,
{
}

/// All characters of a string.
pub fn chars_of(s: &str) -> (v: Vec<char>)
    ensures
        v@ == s@,
{
    let mut v: Vec<char> = Vec::new();
    for c in it: s.chars()
        invariant
            v@ == it.seq().take(it.index()),
            it.seq() == s@,
    {
        v.push(c);
    }
    v
}

/// Where `c` first occurs in `v` from `from` on, or the length of `v` where it does not.
pub(crate) fn find_char(v: &Vec<char>, from: usize, c: char) -> (i: usize)
    requires
        from <= v@.len(),
    ensures
        from <= i <= v@.len(),
        i - from == index_of(v@.skip(from as int), c),
{
    let mut i: usize = from;
    while i < v.len() && v[i] != c
        invariant
            from <= i <= v@.len(),
            forall|j: int| from <= j < i ==> v@[j] != c,
        decreases v@.len() - i,
    {
        i = i + 1;
    }
    proof {
        let t = v@.skip(from as int);
        assert forall|j: int| 0 <= j < i - from implies t[j] != c by {
            assert(t[j] == v@[from + j]);
        }
        lemma_index_of_unique(t, c, i - from);
    }
    i
}

/// The two strings hold the same characters.
pub fn same_text(a: &str, b: &str) -> (same: bool)
    ensures
        same == (a@ == b@),
{
    let x = chars_of(a);
    let y = chars_of(b);
    if x.len() != y.len() {
        return false;
    }
    let mut i: usize = 0;
    while i < x.len()
        invariant
            x@ == a@,
            y@ == b@,
            x@.len() == y@.len(),
            i <= x@.len(),
            forall|j: int| 0 <= j < i ==> x@[j] == y@[j],
        decreases x@.len() - i,
    {
        if x[i] != y[i] {
            return false;
        }
        i = i + 1;
    }
    assert(a@ =~= b@);
    true
}

/// The pieces of `s` between the occurrences of `c`.
pub fn split_fields(s: &str, c: char) -> (parts: Vec<&str>)
    ensures
        texts(parts@) == fields(s@, c),
{
    let v = chars_of(s);
    let mut parts: Vec<&str> = Vec::new();
    let mut start: usize = 0;
    let mut i: usize = find_char(&v, 0, c);
    assert(s@.skip(0) == s@);
    while i < v.len()
        invariant
            v@ == s@,
            start <= i <= v@.len(),
            i - start == index_of(s@.skip(start as int), c),
            texts(parts@) + fields(s@.skip(start as int), c) == fields(s@, c),
        decreases v@.len() - i,
    {
        let piece = s.substring_char(start, i);
        let ghost rest = s@.skip(start as int);
        let ghost before = texts(parts@);
        proof {
            assert(piece@ == rest.take(i - start));
            assert(rest.skip(i - start + 1) == s@.skip(i + 1));
            assert(fields(rest, c) == seq![piece@] + fields(s@.skip(i + 1), c));
        }
        parts.push(piece);
        assert(texts(parts@) == before.push(piece@));
        start = i + 1;
        i = find_char(&v, start, c);
        assert(before.push(piece@) + fields(s@.skip(start as int), c) == before + (seq![piece@]
            + fields(s@.skip(start as int), c)));
    }
    let piece = s.substring_char(start, v.len());
    let ghost before = texts(parts@);
    assert(piece@ == s@.skip(start as int));
    parts.push(piece);
    assert(texts(parts@) == before.push(piece@));
    assert(before.push(piece@) == before + seq![piece@]);
    parts
}

/// The lines of `s`, without their line endings.
pub fn split_lines(s: &str) -> (parts: Vec<&str>)
    ensures
        texts(parts@) == lines(s@),
{
    let v = chars_of(s);
    let mut parts: Vec<&str> = Vec::new();
    let mut start: usize = 0;
    assert(s@.skip(0) == s@);
    while start < v.len()
        invariant
            v@ == s@,
            start <= v@.len(),
            texts(parts@) + lines(s@.skip(start as int)) == lines(s@),
        decreases v@.len() - start,
    {
        let ghost rest = s@.skip(start as int);
        let ghost before = texts(parts@);
        let i = find_char(&v, start, '\n');
        if i < v.len() {
            let end: usize = if i > start && v[i - 1] == '\r' {
                i - 1
            } else {
                i
            };
            let piece = s.substring_char(start, end);
            proof {
                assert(rest.take(i - start).len() > 0 ==> rest.take(i - start).last() == v@[i - 1]);
                assert(piece@ == strip_cr(rest.take(i - start)));
                assert(rest.skip(i - start + 1) == s@.skip(i + 1));
                assert(lines(rest) == seq![piece@] + lines(s@.skip(i + 1)));
            }
            parts.push(piece);
            assert(texts(parts@) == before.push(piece@));
            start = i + 1;
            assert(before.push(piece@) + lines(s@.skip(start as int)) == before + (seq![piece@]
                + lines(s@.skip(start as int))));
        } else {
            let piece = s.substring_char(start, v.len());
            assert(piece@ == rest);
            parts.push(piece);
            assert(texts(parts@) == before.push(piece@));
            start = v.len();
            assert(before.push(piece@) + lines(s@.skip(start as int)) == before + seq![piece@]);
        }
    }
    assert(texts(parts@) + lines(s@.skip(start as int)) == texts(parts@));
    parts
}

/// The lines of `s`, without their line feeds.
pub fn split_raw_lines(s: &str) -> (parts: Vec<&str>)
    ensures
        texts(parts@) == raw_lines(s@),
{
    let v = chars_of(s);
    let mut parts: Vec<&str> = Vec::new();
    let mut start: usize = 0;
    assert(s@.skip(0) == s@);
    while start < v.len()
        invariant
            v@ == s@,
            start <= v@.len(),
            texts(parts@) + raw_lines(s@.skip(start as int)) == raw_lines(s@),
        decreases v@.len() - start,
    {
        let ghost rest = s@.skip(start as int);
        let ghost before = texts(parts@);
        let i = find_char(&v, start, '\n');
        let piece = s.substring_char(start, i);
        assert(piece@ == rest.take(i - start));
        parts.push(piece);
        assert(texts(parts@) == before.push(piece@));
        if i < v.len() {
            assert(rest.skip(i - start + 1) == s@.skip(i + 1));
            start = i + 1;
            assert(before.push(piece@) + raw_lines(s@.skip(start as int)) == before + (seq![piece@]
                + raw_lines(s@.skip(start as int))));
        } else {
            assert(piece@ == rest);
            start = i;
            assert(before.push(piece@) + raw_lines(s@.skip(start as int)) == before + seq![piece@]);
        }
    }
    assert(texts(parts@) + raw_lines(s@.skip(start as int)) == texts(parts@));
    parts
}

/// `s` without the white space at either end.
pub fn trim(s: &str) -> (t: &str)
    ensures
        t@ == trimmed(s@),
{
    let v = chars_of(s);
    let mut a: usize = 0;
    assert(s@.skip(0) == s@);
    while a < v.len() && v[a].is_whitespace()
        invariant
            v@ == s@,
            a <= v@.len(),
            trim_start(s@.skip(a as int)) == trim_start(s@),
        decreases v@.len() - a,
    {
        assert(s@.skip(a as int).skip(1) == s@.skip(a + 1));
        a = a + 1;
    }
    let ghost t = s@.skip(a as int);
    let mut b: usize = v.len();
    assert(t.take(b - a) == t);
    while b > a && v[b - 1].is_whitespace()
        invariant
            v@ == s@,
            a <= b <= v@.len(),
            t == s@.skip(a as int),
            trim_end(t.take(b - a)) == trim_end(t),
        decreases b,
    {
        assert(t.take(b - a).last() == v@[b - 1]);
        assert(t.take(b - a).drop_last() == t.take(b - 1 - a));
        b = b - 1;
    }
    assert(b > a ==> t.take(b - a).last() == v@[b - 1]);
    assert(s@.subrange(a as int, b as int) == t.take(b - a));
    s.substring_char(a, b)
}

/// The longest stretches of `s` that hold no white space.
pub fn split_words(s: &str) -> (parts: Vec<&str>)
    ensures
        texts(parts@) == words(s@),
{
    let v = chars_of(s);
    let mut parts: Vec<&str> = Vec::new();
    let mut i: usize = 0;
    assert(s@.skip(0) == s@);
    while i < v.len()
        invariant
            v@ == s@,
            i <= v@.len(),
            texts(parts@) + words(s@.skip(i as int)) == words(s@),
        decreases v@.len() - i,
    {
        let ghost rest = s@.skip(i as int);
        if v[i].is_whitespace() {
            assert(rest.skip(1) == s@.skip(i + 1));
            assert(trim_start(rest) == trim_start(s@.skip(i + 1)));
            i = i + 1;
        } else {
            let ghost before = texts(parts@);
            let start = i;
            while i < v.len() && !v[i].is_whitespace()
                invariant
                    v@ == s@,
                    start <= i <= v@.len(),
                    rest == s@.skip(start as int),
                    (i - start) + word_end(s@.skip(i as int)) == word_end(rest),
                decreases v@.len() - i,
            {
                assert(s@.skip(i as int).skip(1) == s@.skip(i + 1));
                i = i + 1;
            }
            let piece = s.substring_char(start, i);
            proof {
                assert(i - start == word_end(rest));
                assert(piece@ == rest.take(i - start));
                assert(rest.skip(i - start) == s@.skip(i as int));
                assert(words(rest) == seq![piece@] + words(s@.skip(i as int)));
            }
            parts.push(piece);
            assert(texts(parts@) == before.push(piece@));
            assert(before.push(piece@) + words(s@.skip(i as int)) == before + (seq![piece@] + words(
                s@.skip(i as int),
            )));
        }
    }
    assert(texts(parts@) + words(s@.skip(i as int)) == texts(parts@));
    parts
}

/// One of the strings holds the same characters as `wanted`.
pub fn any_same(parts: &Vec<&str>, wanted: &str) -> (found: bool)
    ensures
        found == texts(parts@).contains(wanted@),
{
    let mut i: usize = 0;
    while i < parts.len()
        invariant
            i <= parts@.len(),
            forall|j: int| 0 <= j < i ==> texts(parts@)[j] != wanted@,
        decreases parts@.len() - i,
    {
        if same_text(parts[i], wanted) {
            assert(texts(parts@)[i as int] == wanted@);
            return true;
        }
        i = i + 1;
    }
    false
}

/// `pat` occurs in `v` at `at`.
fn matches_at(v: &Vec<char>, pat: &Vec<char>, at: usize) -> (yes: bool)
    requires
        at <= v@.len(),
    ensures
        yes == occurs_at(v@, pat@, at as int),
{
    if v.len() - at < pat.len() {
        return false;
    }
    let n = v.len();
    let ghost part = v@.subrange(at as int, at + pat@.len());
    let mut i: usize = 0;
    while i < pat.len()
        invariant
            n == v@.len(),
            at + pat@.len() <= n,
            part == v@.subrange(at as int, at + pat@.len()),
            i <= pat@.len(),
            forall|j: int| 0 <= j < i ==> part[j] == pat@[j],
        decreases pat@.len() - i,
    {
        assert(part[i as int] == v@[at + i]);
        if v[at + i] != pat[i] {
            return false;
        }
        i = i + 1;
    }
    assert(part =~= pat@);
    true
}

/// Where `pat` first occurs in `s`, as a number of characters.
pub fn find_text(s: &str, pat: &str) -> (at: Option<usize>)
    ensures
        match at {
            Some(i) => first_at(s@, pat@, i as int),
            None => !contains_text(s@, pat@),
        },
{
    let v = chars_of(s);
    let p = chars_of(pat);
    let mut i: usize = 0;
    loop
        invariant
            v@ == s@,
            p@ == pat@,
            i <= v@.len(),
            forall|j: int| 0 <= j < i ==> !#[trigger] occurs_at(s@, pat@, j),
        decreases v@.len() - i,
    {
        if matches_at(&v, &p, i) {
            return Some(i);
        }
        if i == v.len() {
            return None;
        }
        i = i + 1;
    }
}

/// `s` starts with `prefix`.
pub fn starts_with(s: &str, prefix: &str) -> (yes: bool)
    ensures
        yes == prefix@.is_prefix_of(s@),
{
    let v = chars_of(s);
    let p = chars_of(prefix);
    matches_at(&v, &p, 0)
}

/// What follows `prefix` in `s`, where `s` starts with it.
pub fn strip_prefix<'a>(s: &'a str, prefix: &str) -> (rest: Option<&'a str>)
    ensures
        match rest {
            Some(r) => prefix@.is_prefix_of(s@) && r@ == s@.skip(prefix@.len() as int),
            None => !prefix@.is_prefix_of(s@),
        },
{
    if starts_with(s, prefix) {
        let n = prefix.unicode_len();
        let m = s.unicode_len();
        assert(s@.subrange(n as int, m as int) == s@.skip(n as int));
        Some(s.substring_char(n, m))
    } else {
        None
    }
}

/// `s` holds the character `c`.
pub fn has_char(s: &str, c: char) -> (yes: bool)
    ensures
        yes == s@.contains(c),
{
    let v = chars_of(s);
    let i = find_char(&v, 0, c);
    proof {
        assert(s@.skip(0) == s@);
        lemma_index_of(s@, c);
        if s@.contains(c) {
            let j = choose|j: int| 0 <= j < s@.len() && s@[j] == c;
            assert(s@[j] == c);
        }
    }
    i < v.len()
}

/// The strings one after the other, with `sep` between every two of them.
pub fn join_texts(parts: &Vec<&str>, sep: &str) -> (s: String)
    ensures
        s@ == join(texts(parts@), sep@),
{
    let mut s = String::new();
    let mut i: usize = 0;
    while i < parts.len()
        invariant
            i <= parts@.len(),
            s@ == join(texts(parts@).take(i as int), sep@),
        decreases parts@.len() - i,
    {
        let ghost shown = texts(parts@).take(i + 1);
        assert(shown.drop_last() == texts(parts@).take(i as int));
        assert(shown.last() == parts@[i as int]@);
        if i > 0 {
            s.append(sep);
        }
        s.append(parts[i]);
        if i == 0 {
            assert(s@ == shown.last());
        }
        i = i + 1;
    }
    assert(texts(parts@).take(i as int) == texts(parts@));
    s
}

/// A decimal digit as a string.
fn digit_text(d: usize) -> (s: &'static str)
    requires
        d < 10,
    ensures
        s@ == seq![digit(d as nat)],
{
    proof {
        reveal_strlit("0");
        reveal_strlit("1");
        reveal_strlit("2");
        reveal_strlit("3");
        reveal_strlit("4");
        reveal_strlit("5");
        reveal_strlit("6");
        reveal_strlit("7");
        reveal_strlit("8");
        reveal_strlit("9");
    }
    match d {
        0 => "0",
        1 => "1",
        2 => "2",
        3 => "3",
        4 => "4",
        5 => "5",
        6 => "6",
        7 => "7",
        8 => "8",
        _ => "9",
    }
}

/// A number in decimal notation.
pub fn decimal_text(n: usize) -> (s: String)
    ensures
        s@ == decimal(n as nat),
    decreases n,
{
    if n < 10 {
        digit_text(n).to_owned()
    } else {
        let mut s = decimal_text(n / 10);
        s.append(digit_text(n % 10));
        s
    }
}

} // verus!
