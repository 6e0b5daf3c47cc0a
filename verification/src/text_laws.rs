//! What the operations on text are for, character by character.

use vstd::prelude::*;

use crate::laws;
use crate::text;

verus! {

/// A text falls into the pieces between the occurrences of a character: none of the pieces holds
/// the character, and with it between every two of them they are the text again.
pub proof fn law_fields(s: Seq<char>, c: char)
    ensures
        text::fields(s, c).len() > 0,
        forall|i: int, j: int|
            0 <= i < text::fields(s, c).len() && 0 <= j < text::fields(s, c)[i].len()
                ==> #[trigger] text::fields(s, c)[i][j] != c,
        text::join(text::fields(s, c), seq![c]) == s,
    decreases s.len(),
{
    let k = text::index_of(s, c);
    text::lemma_index_of(s, c);
    if k < s.len() {
        let rest = text::fields(s.skip(k + 1), c);
        law_fields(s.skip(k + 1), c);
        law_join(seq![s.take(k)], rest, seq![c]);
        assert(s =~= s.take(k) + seq![c] + s.skip(k + 1));
        assert forall|i: int, j: int|
            0 <= i < text::fields(s, c).len() && 0 <= j < text::fields(s, c)[i].len() implies
            #[trigger] text::fields(s, c)[i][j] != c by {
            if i > 0 {
                assert(text::fields(s, c)[i] == rest[i - 1]);
            }
        }
    } else {
        assert(text::fields(s, c) =~= seq![s]);
    }
}

/// Parts are joined one after the other, with the separator between every two and nowhere else.
pub proof fn law_join(a: Seq<Seq<char>>, b: Seq<Seq<char>>, sep: Seq<char>)
    ensures
        text::join(Seq::<Seq<char>>::empty(), sep) == Seq::<char>::empty(),
        a.len() == 1 ==> text::join(a, sep) == a[0],
        a.len() > 0 && b.len() > 0 ==> text::join(a + b, sep) == text::join(a, sep) + sep
            + text::join(b, sep),
    decreases b.len(),
{
    assert(text::join(Seq::<Seq<char>>::empty(), sep) =~= Seq::<char>::empty());
    if a.len() > 0 && b.len() > 0 {
        assert((a + b).drop_last() =~= a + b.drop_last());
        if b.len() == 1 {
            assert(a + b.drop_last() =~= a);
        } else {
            law_join(a, b.drop_last(), sep);
            assert(text::join(a + b, sep) =~= text::join(a, sep) + sep + text::join(b, sep));
        }
    }
}

/// A line is closed by a line feed, or by a carriage return and a line feed; what follows the last
/// line feed is a line as it stands, unless it is empty.
pub proof fn law_lines(a: Seq<char>, b: Seq<char>)
    requires
        !a.contains('\n'),
    ensures
        text::lines(Seq::<char>::empty()) == Seq::<Seq<char>>::empty(),
        a.len() > 0 ==> text::lines(a) == seq![a],
        a.len() == 0 || a.last() != '\r' ==> text::lines(a + seq!['\n'] + b) == seq![a]
            + text::lines(b),
        text::lines(a + seq!['\r', '\n'] + b) == seq![a] + text::lines(b),
        text::raw_lines(Seq::<char>::empty()) == Seq::<Seq<char>>::empty(),
        a.len() > 0 ==> text::raw_lines(a) == seq![a],
        text::raw_lines(a + seq!['\n'] + b) == seq![a] + text::raw_lines(b),
{
    assert(text::lines(Seq::<char>::empty()) =~= Seq::<Seq<char>>::empty());
    assert(text::raw_lines(Seq::<char>::empty()) =~= Seq::<Seq<char>>::empty());
    laws::lemma_index_of_absent(a, '\n');
    let s = a + seq!['\n'] + b;
    laws::lemma_index_of_first(a, '\n', b);
    assert(s.take(a.len() as int) =~= a);
    assert(s.skip(a.len() as int + 1) =~= b);
    let c = a.push('\r');
    assert(!c.contains('\n')) by {
        if c.contains('\n') {
            let j = choose|j: int| 0 <= j < c.len() && c[j] == '\n';
            assert(a[j] == '\n');
        }
    }
    let t = c + seq!['\n'] + b;
    assert(t =~= a + seq!['\r', '\n'] + b);
    laws::lemma_index_of_first(c, '\n', b);
    assert(t.take(c.len() as int) =~= c);
    assert(t.skip(c.len() as int + 1) =~= b);
    assert(c.drop_last() =~= a);
}

/// Texts without line feeds that are closed by one each are the lines of what they make up.
#[verifier::spinoff_prover]
#[verifier::rlimit(60)]
pub proof fn law_closed_lines(parts: Seq<Seq<char>>)
    requires
        parts.len() > 0,
        forall|i: int| 0 <= i < parts.len() ==> !(#[trigger] parts[i]).contains('\n'),
    ensures
        text::raw_lines(text::join(parts, seq!['\n']) + seq!['\n']) == parts,
        (forall|i: int|
            0 <= i < parts.len() && (#[trigger] parts[i]).len() > 0 ==> parts[i].last() != '\r')
            ==> text::lines(text::join(parts, seq!['\n']) + seq!['\n']) == parts,
    decreases parts.len(),
{
    let nl = seq!['\n'];
    let first = parts[0];
    let rest = parts.skip(1);
    law_lines(first, seq![]);
    assert(first + nl + seq![] =~= first + nl);
    assert(parts =~= seq![first] + rest);
    let tame = forall|i: int|
        0 <= i < parts.len() && (#[trigger] parts[i]).len() > 0 ==> parts[i].last() != '\r';
    if rest.len() == 0 {
        assert(parts =~= seq![first]);
        assert(seq![first] + text::lines(seq![]) =~= parts);
        assert(seq![first] + text::raw_lines(seq![]) =~= parts);
    } else {
        assert forall|i: int| 0 <= i < rest.len() implies !(#[trigger] rest[i]).contains('\n') by {
            assert(rest[i] == parts[i + 1]);
        }
        if tame {
            assert forall|i: int| 0 <= i < rest.len() && (#[trigger] rest[i]).len() > 0 implies
                rest[i].last() != '\r' by {
                assert(rest[i] == parts[i + 1]);
            }
        }
        law_closed_lines(rest);
        law_join(seq![first], rest, nl);
        let tail = text::join(rest, nl) + nl;
        assert(text::join(parts, nl) + nl =~= first + nl + tail);
        law_lines(first, tail);
    }
}

proof fn lemma_trim_start_exact(a: Seq<char>, t: Seq<char>)
    requires
        forall|i: int| 0 <= i < a.len() ==> text::is_white_space(#[trigger] a[i]),
        t.len() == 0 || !text::is_white_space(t[0]),
    ensures
        text::trim_start(a + t) == t,
    decreases a.len(),
{
    let s = a + t;
    if a.len() == 0 {
        assert(s =~= t);
    } else {
        assert(s[0] == a[0]);
        assert(s.skip(1) =~= a.skip(1) + t);
        assert forall|i: int| 0 <= i < a.skip(1).len() implies text::is_white_space(
            #[trigger] a.skip(1)[i],
        ) by {
            assert(a.skip(1)[i] == a[i + 1]);
        }
        lemma_trim_start_exact(a.skip(1), t);
    }
}

proof fn lemma_trim_end_exact(t: Seq<char>, b: Seq<char>)
    requires
        forall|i: int| 0 <= i < b.len() ==> text::is_white_space(#[trigger] b[i]),
        t.len() == 0 || !text::is_white_space(t.last()),
    ensures
        text::trim_end(t + b) == t,
    decreases b.len(),
{
    let s = t + b;
    if b.len() == 0 {
        assert(s =~= t);
    } else {
        assert(s.last() == b[b.len() - 1]);
        assert(s.drop_last() =~= t + b.drop_last());
        assert forall|i: int| 0 <= i < b.drop_last().len() implies text::is_white_space(
            #[trigger] b.drop_last()[i],
        ) by {
            assert(b.drop_last()[i] == b[i]);
        }
        lemma_trim_end_exact(t, b.drop_last());
    }
}

/// Trimming takes the white space off both ends and nothing else.
pub proof fn law_trimmed(a: Seq<char>, core: Seq<char>, b: Seq<char>)
    requires
        forall|i: int| 0 <= i < a.len() ==> text::is_white_space(#[trigger] a[i]),
        forall|i: int| 0 <= i < b.len() ==> text::is_white_space(#[trigger] b[i]),
        core.len() > 0 ==> !text::is_white_space(core[0]) && !text::is_white_space(core.last()),
    ensures
        text::trimmed(a + core + b) == core,
{
    if core.len() == 0 {
        let s = a + core + b;
        assert forall|i: int| 0 <= i < s.len() implies text::is_white_space(#[trigger] s[i]) by {
            if i < a.len() {
                assert(s[i] == a[i]);
            } else {
                assert(s[i] == b[i - a.len()]);
            }
        }
        text::lemma_trimmed_blank(s);
        assert(text::trimmed(s) =~= core);
    } else {
        assert(a + core + b =~= a + (core + b));
        lemma_trim_start_exact(a, core + b);
        lemma_trim_end_exact(core, b);
    }
}

/// A text is blank where trimming leaves nothing of it, and only there: where every one of its
/// characters is white space.
pub proof fn law_blank(s: Seq<char>)
    ensures
        text::is_blank(s) <==> forall|i: int| 0 <= i < s.len() ==> text::is_white_space(s[i]),
        text::trimmed(s).len() == 0 <==> forall|i: int|
            0 <= i < s.len() ==> text::is_white_space(s[i]),
{
    text::lemma_trimmed_blank(s);
}

/// The words of a text stand between its white space.
pub proof fn law_words(a: Seq<char>, word: Seq<char>, b: Seq<char>)
    requires
        forall|i: int| 0 <= i < a.len() ==> text::is_white_space(#[trigger] a[i]),
        forall|i: int| 0 <= i < word.len() ==> !text::is_white_space(#[trigger] word[i]),
        b.len() == 0 || text::is_white_space(b[0]),
    ensures
        text::words(a) == Seq::<Seq<char>>::empty(),
        word.len() > 0 ==> text::words(a + word + b) == seq![word] + text::words(b),
{
    lemma_trim_start_exact(a, seq![]);
    assert(a + seq![] =~= a);
    assert(text::words(a) =~= Seq::<Seq<char>>::empty());
    if word.len() > 0 {
        let t = word + b;
        assert(a + word + b =~= a + t);
        lemma_trim_start_exact(a, t);
        text::lemma_word_end(t);
        let n = text::word_end(t);
        assert(n == word.len()) by {
            if n < word.len() {
                assert(t[n] == word[n]);
            }
            if n > word.len() {
                assert(t[word.len() as int] == b[0]);
            }
        }
        assert(t.take(n) =~= word);
        assert(t.skip(n) =~= b);
    }
}

/// A text holds another one where it is made up of something, the other, and something.
#[verifier::spinoff_prover]
#[verifier::rlimit(60)]
pub proof fn law_contains_text(s: Seq<char>, pat: Seq<char>)
    ensures
        text::contains_text(s, pat) <==> exists|a: Seq<char>, b: Seq<char>|
            s == #[trigger] (a + pat + b),
{
    if text::contains_text(s, pat) {
        let i = choose|i: int| text::occurs_at(s, pat, i);
        assert(s =~= s.take(i) + pat + s.skip(i + pat.len()));
    }
    if exists|a: Seq<char>, b: Seq<char>| s == #[trigger] (a + pat + b) {
        let (a, b) = choose|a: Seq<char>, b: Seq<char>| s == #[trigger] (a + pat + b);
        assert(s.subrange(a.len() as int, a.len() as int + pat.len()) =~= pat);
        assert(text::occurs_at(s, pat, a.len() as int));
    }
}

/// A text is first found where it stands with the least before it.
pub proof fn law_first_at(s: Seq<char>, pat: Seq<char>, i: int, a: Seq<char>, b: Seq<char>)
    requires
        text::first_at(s, pat, i),
    ensures
        0 <= i,
        i + pat.len() <= s.len(),
        s == s.take(i) + pat + s.skip(i + pat.len()),
        s == a + pat + b ==> i <= a.len(),
{
    assert(s =~= s.take(i) + pat + s.skip(i + pat.len()));
    if s == a + pat + b {
        assert(s.subrange(a.len() as int, a.len() as int + pat.len()) =~= pat);
        assert(text::occurs_at(s, pat, a.len() as int));
    }
}

/// A number is written with its last digit after the number of its tens.
pub proof fn law_decimal(tens: nat, digit: nat)
    requires
        digit < 10,
    ensures
        text::decimal(digit).len() == 1,
        text::decimal(digit)[0] as int == '0' as int + digit,
        tens > 0 ==> text::decimal(10 * tens + digit) == text::decimal(tens) + text::decimal(
            digit,
        ),
{
    if tens > 0 {
        let n = 10 * tens + digit;
        assert(n / 10 == tens && n % 10 == digit);
        assert(text::decimal(n) =~= text::decimal(tens) + text::decimal(digit));
    }
}

/// The characters of several strings are those of each, in order.
pub proof fn law_texts(v: Seq<&str>, w: Seq<String>)
    ensures
        text::texts(v).len() == v.len(),
        forall|i: int| 0 <= i < v.len() ==> #[trigger] text::texts(v)[i] == v[i]@,
        text::owned_texts(w).len() == w.len(),
        forall|i: int| 0 <= i < w.len() ==> #[trigger] text::owned_texts(w)[i] == w[i]@,
{
}

/// The characters of what may be a string are there where the string is.
pub proof fn law_option_view(found: Option<String>)
    ensures
        found is Some <==> text::option_view(found) is Some,
        found is Some ==> text::option_view(found) == Some(found->0@),
{
}

} // verus!
