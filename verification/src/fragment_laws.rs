//! What the checks of a fragment are for: each verdict, by the characters that it is about.

use vstd::prelude::*;

use crate::error;
use crate::error::{FragmentError, Problem};
use crate::fragment;
use crate::fragment::{BreakingFrontmatter, NameVerdict, Parsed, Verdict};
use crate::laws;
use crate::text;
use crate::text_laws;

verus! {

// ---------------------------------------------------------------------------------------------
// Errors
// ---------------------------------------------------------------------------------------------
/// What a problem, or an error, is does not change with how its text is held.
pub proof fn law_problem_view(problem: Problem<String>, filename: String)
    ensures
        problem is FilenameShape <==> problem@ is FilenameShape,
        problem is FragmentType <==> problem@ is FragmentType,
        problem is Extension <==> problem@ is Extension,
        problem is AuthorsLine <==> problem@ is AuthorsLine,
        problem is NoAuthors <==> problem@ is NoAuthors,
        problem is AtSign <==> problem@ is AtSign,
        problem is Comma <==> problem@ is Comma,
        problem is TodoHandle <==> problem@ is TodoHandle,
        problem is NoFrontmatter <==> problem@ is NoFrontmatter,
        problem is UnclosedFrontmatter <==> problem@ is UnclosedFrontmatter,
        problem is Yaml <==> problem@ is Yaml,
        problem is EmptyTitle <==> problem@ is EmptyTitle,
        problem is TodoTitle <==> problem@ is TodoTitle,
        problem is Anchor <==> problem@ is Anchor,
        problem is MissingSummary <==> problem@ is MissingSummary,
        problem is MissingMigration <==> problem@ is MissingMigration,
        problem is SectionOrder <==> problem@ is SectionOrder,
        problem is EmptySummary <==> problem@ is EmptySummary,
        problem is EmptyMigration <==> problem@ is EmptyMigration,
        problem is Yaml ==> problem@->cause == problem->cause@,
        problem is Anchor ==> problem@->anchor == problem->anchor@,
        (FragmentError { filename, problem })@.filename == filename@,
        (FragmentError { filename, problem })@.problem == problem@,
{
}

/// A check that finds a problem returns an error about that problem in that file, and one that
/// finds none returns none.
pub proof fn law_reports(
    result: Result<(), FragmentError<String>>,
    filename: Seq<char>,
    verdict: Verdict,
)
    requires
        fragment::reports(result, filename, verdict),
    ensures
        result is Ok <==> verdict is Ok,
        verdict matches Err(problem) ==> result->Err_0.filename@ == filename
            && result->Err_0.problem@ == problem,
{
}

/// A message names the file and tells what is wrong with it.
#[verifier::spinoff_prover]
#[verifier::rlimit(60)]
pub proof fn law_fragment_messages(filename: Seq<char>, detail: Seq<char>)
    ensures
        ({
            let about = |problem: Problem<Seq<char>>|
                error::message_spec(FragmentError { filename, problem });
            let name = |rest: Seq<char>| "invalid fragment filename '"@ + filename + "': "@ + rest;
            let contents = |rest: Seq<char>|
                "invalid fragment contents for '"@ + filename + "': "@ + rest;
            let breaking = |rest: Seq<char>|
                "invalid breaking fragment '"@ + filename + "': "@ + rest;
            &&& about(Problem::FilenameShape) == name(
                "expected '<unique_name>.<fragment_type>.md'"@,
            )
            &&& about(Problem::FragmentType) == name(
                "fragment type must be one of ("@ + "breaking|security|feature|enhancement|fix"@
                    + ")."@,
            )
            &&& about(Problem::Extension) == name("extension must be markdown (.md)."@)
            &&& about(Problem::AuthorsLine) == contents(
                "last line must be 'authors: <name> [<name> ...]' (no trailing blank lines)."@,
            )
            &&& about(Problem::NoAuthors) == contents("authors line has no names."@)
            &&& about(Problem::AtSign) == contents(
                "author names should not be prefixed with '@'."@,
            )
            &&& about(Problem::Comma) == contents(
                "authors should be space delimited, not comma delimited."@,
            )
            &&& about(Problem::TodoHandle) == contents(
                "the scaffolder placeholder 'TODO_your_gh_handle' must be replaced with a real GitHub handle."@,
            )
            &&& about(Problem::NoFrontmatter) == breaking(
                "must begin with a YAML frontmatter block (see changelog.d/README.md)."@,
            )
            &&& about(Problem::UnclosedFrontmatter) == breaking(
                "missing closing '---' for the frontmatter block."@,
            )
            &&& about(Problem::Yaml { cause: detail }) == breaking("frontmatter YAML"@)
            &&& about(Problem::EmptyTitle) == breaking("`title` must not be empty."@)
            &&& about(Problem::TodoTitle) == breaking(
                "`title` still contains the scaffolder placeholder 'TODO'."@,
            )
            &&& about(Problem::Anchor { anchor: detail }) == breaking(
                "`anchor` must be a lowercase kebab-case slug (a-z, 0-9, hyphens); got '"@ + detail
                    + "'."@,
            )
            &&& about(Problem::MissingSummary) == breaking("missing `## Summary` section."@)
            &&& about(Problem::MissingMigration) == breaking("missing `## Migration` section."@)
            &&& about(Problem::SectionOrder) == breaking(
                "`## Summary` must come before `## Migration`."@,
            )
            &&& about(Problem::EmptySummary) == breaking("`## Summary` section is empty."@)
            &&& about(Problem::EmptyMigration) == breaking(
                "`## Migration` section is empty (use 'N/A' for informational breakers)."@,
            )
        }),
{
    reveal_strlit("breaking");
    reveal_strlit("security");
    reveal_strlit("feature");
    reveal_strlit("enhancement");
    reveal_strlit("fix");
    reveal_strlit("|");
    reveal_strlit("breaking|security|feature|enhancement|fix");
    let all = error::fragment_types_spec();
    let a = seq!["breaking"@];
    let b = seq!["security"@];
    let c = seq!["feature"@];
    let d = seq!["enhancement"@];
    let e = seq!["fix"@];
    text_laws::law_join(a, b, "|"@);
    text_laws::law_join(b, b, "|"@);
    text_laws::law_join(a + b, c, "|"@);
    text_laws::law_join(c, c, "|"@);
    text_laws::law_join(a + b + c, d, "|"@);
    text_laws::law_join(d, d, "|"@);
    text_laws::law_join(a + b + c + d, e, "|"@);
    text_laws::law_join(e, e, "|"@);
    assert(all =~= a + b + c + d + e);
    assert(text::join(all, "|"@) =~= "breaking|security|feature|enhancement|fix"@);
}

// ---------------------------------------------------------------------------------------------
// File names
// ---------------------------------------------------------------------------------------------
/// There are five fragment types.
pub proof fn law_fragment_types()
    ensures
        error::fragment_types_spec() == seq![
            "breaking"@,
            "security"@,
            "feature"@,
            "enhancement"@,
            "fix"@,
        ],
{
}

/// The second of the three parts of a file name is its fragment type, one of five, and the third is
/// `md`.
pub proof fn law_file_name_parts(name: Seq<char>, fragment_type: Seq<char>, extension: Seq<char>)
    requires
        !name.contains('.'),
        !fragment_type.contains('.'),
        !extension.contains('.'),
    ensures
        fragment::filename_verdict(
            name + seq!['.'] + fragment_type + seq!['.'] + extension,
        ) == if fragment_type != "breaking"@ && fragment_type != "security"@ && fragment_type
            != "feature"@ && fragment_type != "enhancement"@ && fragment_type != "fix"@ {
            NameVerdict::Err(Problem::FragmentType)
        } else if extension != "md"@ {
            NameVerdict::Err(Problem::Extension)
        } else {
            NameVerdict::Ok(fragment_type)
        },
{
    let tail = fragment_type + seq!['.'] + extension;
    let whole = name + seq!['.'] + fragment_type + seq!['.'] + extension;
    assert(whole =~= name + seq!['.'] + tail);
    laws::lemma_fields_split(name, '.', tail);
    laws::lemma_fields_split(fragment_type, '.', extension);
    laws::lemma_fields_len(name, '.');
    laws::lemma_fields_len(fragment_type, '.');
    laws::lemma_fields_len(extension, '.');
    assert(text::fields(whole, '.') =~= seq![name, fragment_type, extension]);
    let types = error::fragment_types_spec();
    assert(types[0] == "breaking"@ && types[1] == "security"@ && types[2] == "feature"@ && types[3]
        == "enhancement"@ && types[4] == "fix"@);
    if types.contains(fragment_type) {
        let i = choose|i: int| 0 <= i < types.len() && types[i] == fragment_type;
        assert(types[i] == fragment_type);
    }
}

/// A file name has the wrong shape exactly where it is not made of three parts with a dot between
/// every two.
#[verifier::spinoff_prover]
#[verifier::rlimit(60)]
pub proof fn law_file_name_shape(filename: Seq<char>)
    ensures
        fragment::filename_verdict(filename) != NameVerdict::Err(Problem::FilenameShape) <==> exists|
            a: Seq<char>,
            b: Seq<char>,
            c: Seq<char>,
        |
            !a.contains('.') && !b.contains('.') && !c.contains('.') && filename
                == #[trigger] (a + seq!['.'] + b + seq!['.'] + c),
{
    if fragment::filename_verdict(filename) != NameVerdict::Err(Problem::FilenameShape) {
        let parts = text::fields(filename, '.');
        text_laws::law_fields(filename, '.');
        let (a, b, c) = (parts[0], parts[1], parts[2]);
        text_laws::law_join(seq![a], seq![b], seq!['.']);
        text_laws::law_join(seq![b], seq![b], seq!['.']);
        text_laws::law_join(seq![a] + seq![b], seq![c], seq!['.']);
        text_laws::law_join(seq![c], seq![c], seq!['.']);
        assert(parts =~= seq![a] + seq![b] + seq![c]);
        assert(filename =~= a + seq!['.'] + b + seq!['.'] + c);
        assert forall|i: int| 0 <= i < 3 implies !(#[trigger] parts[i]).contains('.') by {
            if parts[i].contains('.') {
                let j = choose|j: int| 0 <= j < parts[i].len() && parts[i][j] == '.';
                assert(text::fields(filename, '.')[i][j] != '.');
            }
        }
    }
    if exists|a: Seq<char>, b: Seq<char>, c: Seq<char>|
        !a.contains('.') && !b.contains('.') && !c.contains('.') && filename == #[trigger] (a
            + seq!['.'] + b + seq!['.'] + c) {
        let (a, b, c) = choose|a: Seq<char>, b: Seq<char>, c: Seq<char>|
            !a.contains('.') && !b.contains('.') && !c.contains('.') && filename == #[trigger] (a
                + seq!['.'] + b + seq!['.'] + c);
        law_file_name_parts(a, b, c);
    }
}

// ---------------------------------------------------------------------------------------------
// Authors
// ---------------------------------------------------------------------------------------------
/// Lines are those of a text that is empty or closed by a line feed, and then those of what follows.
pub(crate) proof fn lemma_lines_after(before: Seq<char>, rest: Seq<char>)
    requires
        before.len() == 0 || before.last() == '\n',
    ensures
        text::lines(before + rest) == text::lines(before) + text::lines(rest),
{
    if before.len() == 0 {
        assert(before + rest =~= rest);
        assert(text::lines(before) =~= seq![]);
        assert(text::lines(before) + text::lines(rest) =~= text::lines(rest));
    } else {
        let head = before.drop_last();
        assert(before =~= head + laws::line_feed());
        laws::lemma_lines_split(head, rest);
    }
}

proof fn lemma_last_line_of(before: Seq<char>, line: Seq<char>)
    requires
        before.len() == 0 || before.last() == '\n',
        !line.contains('\n'),
    ensures
        line.len() > 0 ==> fragment::last_line(before + line) == line,
        fragment::last_line(before + line + seq!['\n']) == text::strip_cr(line),
{
    laws::lemma_one_line(line);
    text_laws::law_lines(line, seq![]);
    lemma_lines_after(before, line);
    lemma_lines_after(before, line + laws::line_feed());
    assert(before + line + seq!['\n'] =~= before + (line + laws::line_feed()));
}

/// A fragment whose last line does not begin with `authors: ` has no authors line.
#[verifier::spinoff_prover]
#[verifier::rlimit(60)]
pub proof fn law_missing_authors_line(before: Seq<char>, line: Seq<char>)
    requires
        before.len() == 0 || before.last() == '\n',
        !line.contains('\n'),
        forall|names: Seq<char>| line != #[trigger] ("authors: "@ + names),
    ensures
        fragment::authors_verdict(Seq::<char>::empty()) == Verdict::Err(Problem::AuthorsLine),
        line.len() > 0 ==> fragment::authors_verdict(before + line) == Verdict::Err(
            Problem::AuthorsLine,
        ),
        fragment::authors_verdict(before + line + seq!['\n']) == Verdict::Err(
            Problem::AuthorsLine,
        ),
{
    reveal_strlit("authors: ");
    let lead = "authors: "@;
    assert(text::lines(Seq::<char>::empty()) =~= seq![]);
    lemma_last_line_of(before, line);
    if fragment::is_authors_line(line) {
        assert(line =~= lead + line.skip(9));
    }
    let shown = text::strip_cr(line);
    if fragment::is_authors_line(shown) {
        assert(line =~= lead + line.skip(9)) by {
            assert forall|i: int| 0 <= i < 9 implies line[i] == lead[i] by {
                assert(shown.subrange(0, 9)[i] == lead[i]);
            }
        }
    }
}

/// What stands before and after a word of a text.
#[verifier::spinoff_prover]
#[verifier::rlimit(60)]
proof fn lemma_around_word(s: Seq<char>, i: int) -> (around: (Seq<char>, Seq<char>))
    requires
        0 <= i < text::words(s).len(),
    ensures
        s == around.0 + text::words(s)[i] + around.1,
        around.0.len() == 0 || text::is_white_space(around.0.last()),
        around.1.len() == 0 || text::is_white_space(around.1[0]),
        text::words(s)[i].len() > 0,
        !text::is_white_space(text::words(s)[i][0]),
    decreases s.len(),
{
    text::lemma_trim_start(s);
    let t = text::trim_start(s);
    let k = s.len() - t.len();
    text::lemma_word_end(t);
    let n = text::word_end(t);
    let rest = t.skip(n);
    let word = text::words(s)[i];
    if i == 0 {
        let a = s.take(k);
        assert(a.len() > 0 ==> text::is_white_space(a[k - 1]));
        assert(s =~= a + word + rest);
        (a, rest)
    } else {
        assert(word == text::words(rest)[i - 1]);
        let (a, b) = lemma_around_word(rest, i - 1);
        if a.len() == 0 {
            assert(rest[0] == word[0]);
        }
        let before = s.take(k + n);
        let c = before + a;
        assert(s =~= before + rest);
        assert(before + (a + word + b) =~= c + word + b);
        assert(c.last() == a.last());
        (c, b)
    }
}

#[verifier::spinoff_prover]
#[verifier::rlimit(60)]
proof fn lemma_word_between(s: Seq<char>, a: Seq<char>, word: Seq<char>, b: Seq<char>)
    requires
        s == a + word + b,
        word.len() > 0,
        forall|i: int| 0 <= i < word.len() ==> !text::is_white_space(#[trigger] word[i]),
        a.len() == 0 || text::is_white_space(a.last()),
        b.len() == 0 || text::is_white_space(b[0]),
    ensures
        text::words(s).contains(word),
    decreases s.len(),
{
    text::lemma_trim_start(s);
    let t = text::trim_start(s);
    let k = s.len() - t.len();
    let p = a.len() as int;
    assert(s[p] == word[0]);
    if p < k {
        assert(s.take(k)[p] == s[p]);
    }
    assert(t[p - k] == s[p]);
    text::lemma_word_end(t);
    let n = text::word_end(t);
    let rest = t.skip(n);
    if p == k {
        let blank = s.take(k);
        assert(a =~= blank);
        text_laws::law_words(blank, word, b);
        assert(text::words(s)[0] == word);
    } else {
        assert(s[p - 1] == a.last());
        assert(t[p - 1 - k] == s[p - 1]);
        assert(n <= p - 1 - k);
        let c = a.skip(k + n);
        assert(rest =~= c + word + b);
        assert(c.last() == a.last());
        lemma_word_between(rest, c, word, b);
        let j = choose|j: int| 0 <= j < text::words(rest).len() && text::words(rest)[j] == word;
        assert(text::words(s)[j + 1] == word);
    }
}

/// A word of a text stands in it with white space, or nothing, on either side.
#[verifier::spinoff_prover]
#[verifier::rlimit(60)]
pub proof fn law_word_stands_in_text(s: Seq<char>, word: Seq<char>)
    requires
        word.len() > 0,
        forall|i: int| 0 <= i < word.len() ==> !text::is_white_space(#[trigger] word[i]),
    ensures
        text::words(s).contains(word) <==> exists|a: Seq<char>, b: Seq<char>|
            s == #[trigger] (a + word + b) && (a.len() == 0 || text::is_white_space(a.last())) && (
            b.len() == 0 || text::is_white_space(b[0])),
{
    let all = text::words(s);
    if all.contains(word) {
        let i = choose|i: int| 0 <= i < all.len() && all[i] == word;
        let (a, b) = lemma_around_word(s, i);
        assert(s == a + word + b);
    }
    if exists|a: Seq<char>, b: Seq<char>|
        s == #[trigger] (a + word + b) && (a.len() == 0 || text::is_white_space(a.last())) && (
        b.len() == 0 || text::is_white_space(b[0])) {
        let (a, b) = choose|a: Seq<char>, b: Seq<char>|
            s == #[trigger] (a + word + b) && (a.len() == 0 || text::is_white_space(a.last())) && (
            b.len() == 0 || text::is_white_space(b[0]));
        lemma_word_between(s, a, word, b);
    }
}

proof fn lemma_trimmed_parts(s: Seq<char>) -> (parts: (Seq<char>, Seq<char>))
    ensures
        s == parts.0 + text::trimmed(s) + parts.1,
        text::is_blank(parts.0),
        text::is_blank(parts.1),
{
    text::lemma_trim_start(s);
    let t = text::trim_start(s);
    text::lemma_trim_end(t);
    let a = s.take(s.len() - t.len());
    let b = t.skip(text::trimmed(s).len() as int);
    assert(s =~= a + text::trimmed(s) + b);
    (a, b)
}

proof fn lemma_trimmed_contains(s: Seq<char>, c: char)
    requires
        !text::is_white_space(c),
    ensures
        text::trimmed(s).contains(c) <==> s.contains(c),
{
    let (a, b) = lemma_trimmed_parts(s);
    let t = text::trimmed(s);
    if t.contains(c) {
        let i = choose|i: int| 0 <= i < t.len() && t[i] == c;
        assert(s[a.len() + i] == c);
    }
    if s.contains(c) {
        let i = choose|i: int| 0 <= i < s.len() && s[i] == c;
        if i < a.len() {
            assert(a[i] == c);
        } else if i >= a.len() + t.len() {
            assert(b[i - a.len() - t.len()] == c);
        } else {
            assert(t[i - a.len()] == c);
        }
    }
}

proof fn lemma_word_stays(x: Seq<char>, t: Seq<char>, y: Seq<char>, i: int)
    requires
        text::is_blank(x),
        text::is_blank(y),
        0 <= i < text::words(t).len(),
        forall|j: int|
            0 <= j < text::words(t)[i].len() ==> !text::is_white_space(
                #[trigger] text::words(t)[i][j],
            ),
    ensures
        text::words(x + t + y).contains(text::words(t)[i]),
{
    let word = text::words(t)[i];
    let (a, b) = lemma_around_word(t, i);
    let c = x + a;
    let d = b + y;
    assert(x + t + y =~= c + word + d);
    assert(c.len() > 0 ==> text::is_white_space(c.last())) by {
        if a.len() > 0 {
            assert(c.last() == a.last());
        } else if x.len() > 0 {
            assert(c.last() == x[x.len() - 1]);
        }
    }
    assert(d.len() > 0 ==> text::is_white_space(d[0])) by {
        if b.len() > 0 {
            assert(d[0] == b[0]);
        } else if y.len() > 0 {
            assert(d[0] == y[0]);
        }
    }
    lemma_word_between(x + t + y, c, word, d);
}

proof fn lemma_word_was_there(x: Seq<char>, t: Seq<char>, y: Seq<char>, i: int)
    requires
        text::is_blank(x),
        text::is_blank(y),
        0 <= i < text::words(x + t + y).len(),
        forall|j: int|
            0 <= j < text::words(x + t + y)[i].len() ==> !text::is_white_space(
                #[trigger] text::words(x + t + y)[i][j],
            ),
    ensures
        text::words(t).contains(text::words(x + t + y)[i]),
{
    let s = x + t + y;
    let word = text::words(s)[i];
    let (a, b) = lemma_around_word(s, i);
    let p = a.len() as int;
    assert(s[p] == word[0]);
    if p < x.len() {
        assert(x[p] == s[p]);
    }
    let q = p + word.len();
    assert(s[q - 1] == word[word.len() - 1]);
    if q > x.len() + t.len() {
        assert(y[q - 1 - x.len() - t.len()] == s[q - 1]);
    }
    let c = a.skip(x.len() as int);
    let d = b.take(b.len() - y.len());
    assert(t =~= s.subrange(x.len() as int, (x.len() + t.len()) as int));
    assert(s.subrange(x.len() as int, (x.len() + t.len()) as int) =~= c + word + d);
    assert(c.len() > 0 ==> c.last() == a.last());
    assert(d.len() > 0 ==> d[0] == b[0]);
    lemma_word_between(t, c, word, d);
}

proof fn lemma_trimmed_word(s: Seq<char>, word: Seq<char>)
    requires
        forall|i: int| 0 <= i < word.len() ==> !text::is_white_space(#[trigger] word[i]),
    ensures
        text::words(text::trimmed(s)).contains(word) <==> text::words(s).contains(word),
{
    let (x, y) = lemma_trimmed_parts(s);
    let t = text::trimmed(s);
    if text::words(t).contains(word) {
        let i = choose|i: int| 0 <= i < text::words(t).len() && text::words(t)[i] == word;
        lemma_word_stays(x, t, y, i);
    }
    if text::words(s).contains(word) {
        let i = choose|i: int| 0 <= i < text::words(s).len() && text::words(s)[i] == word;
        lemma_word_was_there(x, t, y, i);
    }
}

#[verifier::spinoff_prover]
#[verifier::rlimit(60)]
proof fn lemma_names(names: Seq<char>)
    ensures
        fragment::names_verdict(text::trimmed(names)) == if text::is_blank(names) {
            Verdict::Err(Problem::NoAuthors)
        } else if names.contains('@') {
            Verdict::Err(Problem::AtSign)
        } else if names.contains(',') {
            Verdict::Err(Problem::Comma)
        } else if text::words(names).contains("TODO_your_gh_handle"@) {
            Verdict::Err(Problem::TodoHandle)
        } else {
            Verdict::Ok(())
        },
        text::words(names).contains("TODO_your_gh_handle"@) <==> exists|a: Seq<char>, b: Seq<char>|
            names == #[trigger] (a + "TODO_your_gh_handle"@ + b) && (a.len() == 0
                || text::is_white_space(a.last())) && (b.len() == 0 || text::is_white_space(b[0])),
{
    text::lemma_trimmed_blank(names);
    lemma_trimmed_contains(names, '@');
    lemma_trimmed_contains(names, ',');
    let word = "TODO_your_gh_handle"@;
    assert(word.len() > 0 && forall|i: int|
        0 <= i < word.len() ==> !text::is_white_space(#[trigger] word[i])) by {
        reveal_strlit("TODO_your_gh_handle");
    }
    lemma_trimmed_word(names, word);
    law_word_stands_in_text(names, word);
}

proof fn lemma_authors_line_found(before: Seq<char>, names: Seq<char>)
    requires
        before.len() == 0 || before.last() == '\n',
        !names.contains('\n'),
    ensures
        fragment::authors_verdict(before + "authors: "@ + names) == fragment::names_verdict(
            text::trimmed(names),
        ),
        fragment::authors_verdict(before + "authors: "@ + names + seq!['\n'])
            == fragment::names_verdict(text::trimmed(names)),
{
    reveal_strlit("authors: ");
    let lead = "authors: "@;
    let line = lead + names;
    laws::lemma_authors_line_is_one_line(names);
    lemma_last_line_of(before, line);
    assert(before + lead + names =~= before + line);
    assert(before + lead + names + seq!['\n'] =~= before + line + seq!['\n']);
    assert(line.subrange(0, 9) =~= lead);
    assert(line.skip(9) =~= names);
    let shown = text::strip_cr(line);
    assert(shown =~= lead + text::strip_cr(names)) by {
        if names.len() > 0 {
            assert(line.last() == names.last());
        }
    }
    assert(shown.subrange(0, 9) =~= lead);
    assert(shown.skip(9) =~= text::strip_cr(names));
    laws::lemma_trimmed_strip_cr(names);
}

/// The authors line is accepted where it names somebody, holds no `@` and no comma, and nowhere
/// names the scaffolder's placeholder, whatever else it holds; each problem is found exactly where
/// its cause is there and none of those before it is.
#[verifier::spinoff_prover]
#[verifier::rlimit(60)]
pub proof fn law_author_names(before: Seq<char>, names: Seq<char>)
    requires
        before.len() == 0 || before.last() == '\n',
        !names.contains('\n'),
    ensures
        ({
            let verdict = if forall|i: int|
                0 <= i < names.len() ==> text::is_white_space(#[trigger] names[i]) {
                Verdict::Err(Problem::NoAuthors)
            } else if names.contains('@') {
                Verdict::Err(Problem::AtSign)
            } else if names.contains(',') {
                Verdict::Err(Problem::Comma)
            } else if exists|a: Seq<char>, b: Seq<char>|
                names == #[trigger] (a + "TODO_your_gh_handle"@ + b) && (a.len() == 0
                    || text::is_white_space(a.last())) && (b.len() == 0 || text::is_white_space(
                    b[0],
                )) {
                Verdict::Err(Problem::TodoHandle)
            } else {
                Verdict::Ok(())
            };
            &&& fragment::authors_verdict(before + "authors: "@ + names) == verdict
            &&& fragment::authors_verdict(before + "authors: "@ + names + seq!['\n']) == verdict
        }),
{
    lemma_names(names);
    lemma_authors_line_found(before, names);
}

// ---------------------------------------------------------------------------------------------
// Frontmatter
// ---------------------------------------------------------------------------------------------
/// A breaking fragment is its frontmatter between two delimiters, the second of them the first
/// that comes after the first, and its body; it is refused exactly where a delimiter is missing.
#[verifier::spinoff_prover]
#[verifier::rlimit(60)]
pub proof fn law_frontmatter_parts(content: Seq<char>)
    ensures
        match fragment::frontmatter_split(content) {
            Ok((yaml, body)) => content == "---\n"@ + yaml + "\n---\n"@ + body && forall|
                a: Seq<char>,
                b: Seq<char>,
            |
                content == #[trigger] ("---\n"@ + a + "\n---\n"@ + b) ==> yaml.len() <= a.len(),
            Err(Problem::NoFrontmatter) => forall|rest: Seq<char>|
                content != #[trigger] ("---\n"@ + rest),
            Err(Problem::UnclosedFrontmatter) => (exists|rest: Seq<char>|
                content == #[trigger] ("---\n"@ + rest)) && forall|a: Seq<char>, b: Seq<char>|
                content != #[trigger] ("---\n"@ + a + "\n---\n"@ + b),
            Err(_) => false,
        },
{
    let open = "---\n"@;
    let d = "\n---\n"@;
    let rest = content.skip(open.len() as int);
    if !open.is_prefix_of(content) {
        assert forall|other: Seq<char>| content != #[trigger] (open + other) by {
            lemma_begins(content, open, other);
        }
    } else {
        assert(content =~= open + rest);
        assert forall|a: Seq<char>, b: Seq<char>| content == #[trigger] (open + a + d + b) implies
            text::occurs_at(rest, d, a.len() as int) by {
            lemma_delimiter_occurs(content, a, b);
        }
        if text::contains_text(rest, d) {
            lemma_first_exists(rest, d);
            let i = choose|i: int| text::first_at(rest, d, i);
            lemma_delimited(content, i);
        }
    }
}

proof fn lemma_begins(s: Seq<char>, open: Seq<char>, rest: Seq<char>)
    ensures
        s == open + rest ==> open.is_prefix_of(s),
{
    if s == open + rest {
        assert(s.subrange(0, open.len() as int) =~= open);
    }
}

proof fn lemma_delimiter_occurs(content: Seq<char>, a: Seq<char>, b: Seq<char>)
    requires
        content == "---\n"@ + a + "\n---\n"@ + b,
    ensures
        text::occurs_at(content.skip("---\n"@.len() as int), "\n---\n"@, a.len() as int),
{
    let d = "\n---\n"@;
    let rest = content.skip("---\n"@.len() as int);
    assert(rest =~= a + d + b);
    assert(rest.subrange(a.len() as int, a.len() as int + d.len()) =~= d);
}

proof fn lemma_delimited(content: Seq<char>, i: int)
    requires
        "---\n"@.is_prefix_of(content),
        text::occurs_at(content.skip("---\n"@.len() as int), "\n---\n"@, i),
    ensures
        ({
            let rest = content.skip("---\n"@.len() as int);
            content == "---\n"@ + rest.take(i) + "\n---\n"@ + rest.skip(i + "\n---\n"@.len())
        }),
{
    let d = "\n---\n"@;
    let rest = content.skip("---\n"@.len() as int);
    assert(rest =~= rest.take(i) + d + rest.skip(i + d.len()));
    assert(content =~= "---\n"@ + rest);
    assert(content =~= "---\n"@ + rest.take(i) + d + rest.skip(i + d.len()));
}

/// What stands somewhere in a text stands somewhere first.
proof fn lemma_first_exists(s: Seq<char>, pat: Seq<char>)
    requires
        text::contains_text(s, pat),
    ensures
        exists|i: int| text::first_at(s, pat, i),
{
    let i = choose|i: int| text::occurs_at(s, pat, i);
    lemma_first_before(s, pat, i);
}

proof fn lemma_first_before(s: Seq<char>, pat: Seq<char>, i: int)
    requires
        text::occurs_at(s, pat, i),
    ensures
        exists|k: int| text::first_at(s, pat, k),
    decreases i,
{
    if exists|j: int| 0 <= j < i && text::occurs_at(s, pat, j) {
        let j = choose|j: int| 0 <= j < i && text::occurs_at(s, pat, j);
        lemma_first_before(s, pat, j);
    } else {
        assert(text::first_at(s, pat, i));
    }
}

/// Frontmatter is in order where its title is not blank and nowhere holds `TODO`, and its anchor,
/// if it has one, is made of the letters `a` to `z`, digits and hyphens, with no hyphen at either
/// end. Each problem is found exactly where its cause is there and none of those before it is.
#[verifier::spinoff_prover]
#[verifier::rlimit(60)]
pub proof fn law_frontmatter(title: Seq<char>, anchor: Seq<char>)
    ensures
        ({
            let of_title = if forall|i: int|
                0 <= i < title.len() ==> text::is_white_space(#[trigger] title[i]) {
                Verdict::Err(Problem::EmptyTitle)
            } else if exists|a: Seq<char>, b: Seq<char>| title == #[trigger] (a + "TODO"@ + b) {
                Verdict::Err(Problem::TodoTitle)
            } else {
                Verdict::Ok(())
            };
            &&& fragment::frontmatter_verdict(BreakingFrontmatter { title, anchor: None })
                == of_title
            &&& fragment::frontmatter_verdict(BreakingFrontmatter { title, anchor: Some(anchor) })
                == if of_title is Err {
                of_title
            } else if anchor.len() > 0 && anchor[0] != '-' && anchor[anchor.len() - 1] != '-'
                && forall|i: int|
                0 <= i < anchor.len() ==> 'a' <= #[trigger] anchor[i] <= 'z' || '0' <= anchor[i]
                    <= '9' || anchor[i] == '-' {
                Verdict::Ok(())
            } else {
                Verdict::Err(Problem::Anchor { anchor })
            }
        }),
{
    text_laws::law_contains_text(title, "TODO"@);
}

/// One character that is no lowercase letter, no digit and no hyphen is enough for an anchor to be
/// refused, wherever it stands.
pub proof fn law_stray_anchor_character(
    title: Seq<char>,
    before: Seq<char>,
    stray: char,
    after: Seq<char>,
)
    requires
        !('a' <= stray <= 'z'),
        !('0' <= stray <= '9'),
        stray != '-',
    ensures
        fragment::frontmatter_verdict(
            BreakingFrontmatter { title, anchor: Some(before + seq![stray] + after) },
        ) is Err,
{
    let anchor = before + seq![stray] + after;
    assert(anchor[before.len() as int] == stray);
    law_frontmatter(title, anchor);
}

/// What frontmatter says does not change with how its text is held.
pub proof fn law_frontmatter_view(frontmatter: BreakingFrontmatter<String>)
    ensures
        frontmatter@.title == frontmatter.title@,
        frontmatter@.anchor == text::option_view(frontmatter.anchor),
{
}

} // verus!
