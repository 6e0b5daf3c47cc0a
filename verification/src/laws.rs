//! What holds of the scaffolder and the check as a whole.

use vstd::prelude::*;

use crate::check;
use crate::error;
use crate::error::Problem;
use crate::fragment;
use crate::fragment::{
    NameVerdict, Parsed, ParsedView, Verdict, MIGRATION_HEADER, SUMMARY_HEADER, TODO_HANDLE,
};
use crate::path;
use crate::scaffold;
use crate::text;

verus! {

// ---------------------------------------------------------------------------------------------
// Lines
// ---------------------------------------------------------------------------------------------
/// A line feed on its own.
pub open spec fn line_feed() -> Seq<char> {
    seq!['\n']
}

/// None of the lines holds a line feed.
pub open spec fn no_line_feeds(lines: Seq<Seq<char>>) -> bool {
    forall|i: int| 0 <= i < lines.len() ==> !(#[trigger] lines[i]).contains('\n')
}

pub(crate) proof fn lemma_index_of_absent(s: Seq<char>, c: char)
    requires
        !s.contains(c),
    ensures
        text::index_of(s, c) == s.len(),
{
    text::lemma_index_of(s, c);
}

pub(crate) proof fn lemma_index_of_first(a: Seq<char>, c: char, b: Seq<char>)
    requires
        !a.contains(c),
    ensures
        text::index_of(a + seq![c] + b, c) == a.len(),
{
    let s = a + seq![c] + b;
    assert forall|j: int| 0 <= j < a.len() implies s[j] != c by {
        assert(s[j] == a[j]);
    }
    text::lemma_index_of_unique(s, c, a.len() as int);
}

/// A text falls into lines before and after any line feed.
pub(crate) proof fn lemma_lines_split(a: Seq<char>, b: Seq<char>)
    ensures
        text::lines(a + line_feed() + b) == text::lines(a + line_feed()) + text::lines(b),
        text::raw_lines(a + line_feed() + b) == text::raw_lines(a + line_feed()) + text::raw_lines(
            b,
        ),
    decreases a.len(),
{
    let whole = a + line_feed() + b;
    let head = a + line_feed();
    let k = text::index_of(a, '\n');
    text::lemma_index_of(a, '\n');
    assert forall|j: int| 0 <= j < k implies whole[j] != '\n' && head[j] != '\n' by {
        assert(whole[j] == a[j] && head[j] == a[j]);
    }
    text::lemma_index_of_unique(whole, '\n', k);
    text::lemma_index_of_unique(head, '\n', k);
    assert(whole.take(k) == head.take(k));
    if k == a.len() {
        assert(whole.skip(k + 1) == b);
        assert(head.skip(k + 1) =~= seq![]);
        assert(text::lines(head.skip(k + 1)) =~= seq![]);
        assert(text::raw_lines(head.skip(k + 1)) =~= seq![]);
    } else {
        let rest = a.skip(k + 1);
        assert(whole.skip(k + 1) == rest + line_feed() + b);
        assert(head.skip(k + 1) == rest + line_feed());
        lemma_lines_split(rest, b);
    }
}

/// A text without line feeds, closed by one, is one line.
pub(crate) proof fn lemma_one_line(a: Seq<char>)
    requires
        !a.contains('\n'),
    ensures
        text::lines(a + line_feed()) == seq![text::strip_cr(a)],
        text::raw_lines(a + line_feed()) == seq![a],
{
    let s = a + line_feed();
    assert(s == a + seq!['\n'] + seq![]);
    lemma_index_of_first(a, '\n', seq![]);
    assert(s.take(a.len() as int) == a);
    assert(s.skip(a.len() as int + 1) =~= seq![]);
    assert(text::lines(s.skip(a.len() as int + 1)) =~= seq![]);
    assert(text::raw_lines(s.skip(a.len() as int + 1)) =~= seq![]);
}

/// Lines hold no line feeds.
pub(crate) proof fn lemma_lines_have_no_line_feeds(s: Seq<char>)
    ensures
        no_line_feeds(text::lines(s)),
        no_line_feeds(text::raw_lines(s)),
    decreases s.len(),
{
    let k = text::index_of(s, '\n');
    text::lemma_index_of(s, '\n');
    if s.len() > 0 && k < s.len() {
        lemma_lines_have_no_line_feeds(s.skip(k + 1));
        let first = s.take(k);
        assert(!first.contains('\n'));
        assert(!text::strip_cr(first).contains('\n')) by {
            if text::strip_cr(first).contains('\n') {
                let j = choose|j: int|
                    0 <= j < text::strip_cr(first).len() && text::strip_cr(first)[j] == '\n';
                assert(first[j] == '\n');
            }
        }
    }
}

/// Lines that are joined, and closed by a line feed, come apart again.
pub(crate) proof fn lemma_join_lines(lines: Seq<Seq<char>>)
    requires
        lines.len() > 0,
        no_line_feeds(lines),
    ensures
        text::raw_lines(text::join(lines, line_feed()) + line_feed()) == lines,
    decreases lines.len(),
{
    if lines.len() == 1 {
        lemma_one_line(lines[0]);
        assert(lines =~= seq![lines[0]]);
    } else {
        let head = lines.drop_last();
        let last = lines.last();
        assert(no_line_feeds(head)) by {
            assert forall|i: int| 0 <= i < head.len() implies !(#[trigger] head[i]).contains(
                '\n',
            ) by {
                assert(head[i] == lines[i]);
            }
        }
        lemma_join_lines(head);
        let a = text::join(head, line_feed());
        assert(text::join(lines, line_feed()) + line_feed() == a + line_feed() + (last
            + line_feed()));
        lemma_lines_split(a, last + line_feed());
        lemma_one_line(last);
        assert(head + seq![last] =~= lines);
    }
}

// ---------------------------------------------------------------------------------------------
// File names
// ---------------------------------------------------------------------------------------------
pub(crate) proof fn lemma_fields_split(a: Seq<char>, c: char, b: Seq<char>)
    ensures
        text::fields(a + seq![c] + b, c) == text::fields(a, c) + text::fields(b, c),
    decreases a.len(),
{
    let whole = a + seq![c] + b;
    let k = text::index_of(a, c);
    text::lemma_index_of(a, c);
    assert forall|j: int| 0 <= j < k implies whole[j] != c by {
        assert(whole[j] == a[j]);
    }
    text::lemma_index_of_unique(whole, c, k);
    assert(whole.take(k) == a.take(k));
    if k == a.len() {
        assert(whole.skip(k + 1) == b);
        assert(a.take(k) == a);
    } else {
        let rest = a.skip(k + 1);
        assert(whole.skip(k + 1) == rest + seq![c] + b);
        lemma_fields_split(rest, c, b);
    }
}

pub(crate) proof fn lemma_fields_len(s: Seq<char>, c: char)
    ensures
        text::fields(s, c).len() >= 1,
        !s.contains(c) ==> text::fields(s, c) == seq![s],
        s.contains(c) ==> text::fields(s, c).len() >= 2,
    decreases s.len(),
{
    let k = text::index_of(s, c);
    text::lemma_index_of(s, c);
    if k < s.len() {
        assert(s[k] == c);
        lemma_fields_len(s.skip(k + 1), c);
    } else if s.contains(c) {
        let j = choose|j: int| 0 <= j < s.len() && s[j] == c;
        assert(s[j] == c);
    }
}

pub(crate) proof fn lemma_types_have_no_dot(fragment_type: Seq<char>)
    requires
        error::fragment_types_spec().contains(fragment_type),
    ensures
        !fragment_type.contains('.'),
        !fragment_type.contains('/'),
{
    reveal_strlit("breaking");
    reveal_strlit("security");
    reveal_strlit("feature");
    reveal_strlit("enhancement");
    reveal_strlit("fix");
}

/// The scaffolder names a file so that the check reads the fragment type back from the name, for
/// every slug without a dot. With a dot in the slug the check refuses the name.
pub proof fn law_scaffolded_name(slug: Seq<char>, fragment_type: Seq<char>)
    requires
        error::fragment_types_spec().contains(fragment_type),
    ensures
        !slug.contains('.') ==> fragment::filename_verdict(
            scaffold::fragment_file_name(slug, fragment_type),
        ) == NameVerdict::Ok(fragment_type),
        slug.contains('.') ==> fragment::filename_verdict(
            scaffold::fragment_file_name(slug, fragment_type),
        ) == NameVerdict::Err(Problem::FilenameShape),
{
    reveal_strlit(".");
    reveal_strlit(".md");
    reveal_strlit("md");
    let name = scaffold::fragment_file_name(slug, fragment_type);
    let tail = fragment_type + seq!['.'] + "md"@;
    assert(name == slug + seq!['.'] + tail);
    lemma_fields_split(slug, '.', tail);
    lemma_fields_split(fragment_type, '.', "md"@);
    lemma_types_have_no_dot(fragment_type);
    lemma_fields_len(slug, '.');
    lemma_fields_len(fragment_type, '.');
    lemma_fields_len("md"@, '.');
    if !slug.contains('.') {
        assert(text::fields(name, '.') =~= seq![slug, fragment_type, "md"@]);
    }
}

// ---------------------------------------------------------------------------------------------
// Authors
// ---------------------------------------------------------------------------------------------
pub(crate) proof fn lemma_last_line(a: Seq<char>, line: Seq<char>)
    requires
        !line.contains('\n'),
    ensures
        fragment::last_line(a + line_feed() + line + line_feed()) == text::strip_cr(line),
{
    let whole = a + line_feed() + line + line_feed();
    assert(whole == a + line_feed() + (line + line_feed()));
    lemma_lines_split(a, line + line_feed());
    lemma_one_line(line);
}

pub(crate) proof fn lemma_trim_start_more(s: Seq<char>, w: char)
    requires
        !text::is_blank(s),
    ensures
        text::trim_start(s.push(w)) == text::trim_start(s).push(w),
    decreases s.len(),
{
    if s.len() > 0 && text::is_white_space(s[0]) {
        assert(s.push(w).skip(1) == s.skip(1).push(w));
        assert(!text::is_blank(s.skip(1))) by {
            let j = choose|j: int| 0 <= j < s.len() && !text::is_white_space(#[trigger] s[j]);
            assert(s.skip(1)[j - 1] == s[j]);
        }
        lemma_trim_start_more(s.skip(1), w);
    } else {
        assert(s.len() > 0);
    }
}

/// A carriage return at the end is lost in trimming.
pub(crate) proof fn lemma_trimmed_strip_cr(s: Seq<char>)
    ensures
        text::trimmed(text::strip_cr(s)) == text::trimmed(s),
{
    if s.len() > 0 && s.last() == '\r' {
        let t = s.drop_last();
        assert(s == t.push('\r'));
        text::lemma_trimmed_blank(s);
        text::lemma_trimmed_blank(t);
        if text::is_blank(t) {
            assert(text::is_blank(s)) by {
                assert forall|i: int| 0 <= i < s.len() implies text::is_white_space(
                    #[trigger] s[i],
                ) by {
                    if i < t.len() {
                        assert(s[i] == t[i]);
                    }
                }
            }
            assert(text::trimmed(s) =~= text::trimmed(t));
        } else {
            assert(!text::is_blank(t));
            lemma_trim_start_more(t, '\r');
            let u = text::trim_start(t);
            assert(u.push('\r').last() == '\r');
            assert(u.push('\r').drop_last() == u);
        }
    }
}

pub(crate) proof fn lemma_single_word(s: Seq<char>)
    requires
        s.len() > 0,
        forall|i: int| 0 <= i < s.len() ==> !text::is_white_space(#[trigger] s[i]),
    ensures
        text::trimmed(s) == s,
        text::words(s) == seq![s],
{
    assert(!text::is_white_space(s.last()));
    text::lemma_word_end(s);
    let n = text::word_end(s);
    assert(n == s.len());
    assert(s.take(n) == s);
    assert(s.skip(n) =~= seq![]);
    assert(text::words(s.skip(n)) =~= seq![]);
}

pub(crate) proof fn lemma_authors_line_is_one_line(names: Seq<char>)
    requires
        !names.contains('\n'),
    ensures
        !("authors: "@ + names).contains('\n'),
{
    reveal_strlit("authors: ");
    let lead = "authors: "@;
    let line = lead + names;
    if line.contains('\n') {
        let j = choose|j: int| 0 <= j < line.len() && line[j] == '\n';
        if j >= lead.len() {
            assert(names[j - lead.len()] == '\n');
        }
    }
}

/// What is found of an authors line is what is found of the names on it, however much white space
/// surrounds them.
pub proof fn law_authors_line(before: Seq<char>, names: Seq<char>)
    requires
        !names.contains('\n'),
    ensures
        fragment::authors_verdict(before + "\nauthors: "@ + names + "\n"@)
            == fragment::names_verdict(text::trimmed(names)),
{
    reveal_strlit("\nauthors: ");
    reveal_strlit("authors: ");
    reveal_strlit("\n");
    let lead = "authors: "@;
    let line = lead + names;
    assert(before + "\nauthors: "@ + names + "\n"@ =~= before + line_feed() + line + line_feed());
    lemma_authors_line_is_one_line(names);
    lemma_last_line(before, line);
    let shown = text::strip_cr(line);
    assert(shown =~= lead + text::strip_cr(names)) by {
        if names.len() > 0 {
            assert(line.last() == names.last());
        }
    }
    assert(shown.subrange(0, lead.len() as int) =~= lead);
    assert(shown.skip(lead.len() as int) =~= text::strip_cr(names));
    lemma_trimmed_strip_cr(names);
}

pub(crate) proof fn lemma_words(s: Seq<char>)
    ensures
        text::words(s).len() > 0 <==> !text::is_blank(s),
        forall|i: int, c: char|
            0 <= i < text::words(s).len() && #[trigger] text::words(s)[i].contains(c)
                ==> s.contains(c),
    decreases s.len(),
{
    text::lemma_trim_start(s);
    let t = text::trim_start(s);
    let k = s.len() - t.len();
    if t.len() == 0 {
        assert(s.take(k) =~= s);
    } else {
        assert(s[k] == t[0]);
        text::lemma_word_end(t);
        let n = text::word_end(t);
        let rest = t.skip(n);
        lemma_words(rest);
        assert forall|i: int, c: char|
            0 <= i < text::words(s).len() && #[trigger] text::words(s)[i].contains(
                c,
            ) implies s.contains(c) by {
            if i == 0 {
                let j = choose|j: int| 0 <= j < t.take(n).len() && t.take(n)[j] == c;
                assert(s[k + j] == c);
            } else {
                assert(text::words(s)[i] == text::words(rest)[i - 1]);
                let j = choose|j: int| 0 <= j < rest.len() && rest[j] == c;
                assert(s[k + n + j] == c);
            }
        }
    }
}

/// An authors line that is accepted names at least one author; no name holds an `@` or a comma,
/// and none is the scaffolder's placeholder.
pub proof fn law_accepted_authors(names: Seq<char>)
    requires
        fragment::names_verdict(text::trimmed(names)) == Verdict::Ok(()),
    ensures
        text::words(text::trimmed(names)).len() > 0,
        forall|i: int|
            0 <= i < text::words(text::trimmed(names)).len() ==> {
                let name = #[trigger] text::words(text::trimmed(names))[i];
                !name.contains('@') && !name.contains(',') && name != TODO_HANDLE@
            },
{
    let shown = text::trimmed(names);
    lemma_words(shown);
    text::lemma_trim_end(text::trim_start(names));
    assert(!text::is_white_space(shown.last()));
}

/// No blank line may follow the authors line: a text that ends in a blank line is refused.
pub proof fn law_no_trailing_blank_line(content: Seq<char>, blank: Seq<char>)
    requires
        text::is_blank(blank),
        !blank.contains('\n'),
    ensures
        fragment::authors_verdict(content + "\n"@ + blank + "\n"@) == Verdict::Err(
            Problem::AuthorsLine,
        ),
{
    reveal_strlit("\n");
    reveal_strlit("authors: ");
    assert("\n"@ =~= line_feed());
    lemma_last_line(content, blank);
    let shown = text::strip_cr(blank);
    if fragment::is_authors_line(shown) {
        assert(shown.subrange(0, 9)[0] == 'a');
        assert(blank[0] == 'a');
    }
}

/// What a breaking fragment holds before the line that tells its authors.
spec fn layout_start(yaml: Seq<char>, summary: Seq<char>, migration: Seq<char>) -> Seq<char> {
    "---\n"@ + yaml + "\n---\n"@ + "\n## Summary\n\n"@ + summary + "\n\n## Migration\n\n"@
        + migration + "\n"@
}

/// What is found of the authors line of a scaffolded fragment is what is found of the author.
pub proof fn law_scaffolded_author(fragment_type: Seq<char>, author: Seq<char>)
    requires
        !author.contains('\n'),
    ensures
        fragment::authors_verdict(scaffold::template(fragment_type, author))
            == fragment::names_verdict(text::trimmed(author)),
{
    reveal_strlit("\n\nauthors: ");
    reveal_strlit("\nauthors: ");
    reveal_strlit("\n");
    let before = if fragment_type == "breaking"@ {
        layout_start(
            scaffold::BREAKING_FRONTMATTER@,
            scaffold::BREAKING_SUMMARY@,
            scaffold::BREAKING_MIGRATION@,
        )
    } else {
        scaffold::PLAIN_DESCRIPTION@ + "\n"@
    };
    assert(scaffold::template(fragment_type, author) =~= before + "\nauthors: "@ + author + "\n"@);
    law_authors_line(before, author);
}

/// A fragment that was scaffolded without a known author is refused until the placeholder is
/// replaced.
pub proof fn law_placeholder_author_refused(fragment_type: Seq<char>)
    ensures
        fragment::authors_verdict(scaffold::template(fragment_type, TODO_HANDLE@)) == Verdict::Err(
            Problem::TodoHandle,
        ),
{
    reveal_strlit("TODO_your_gh_handle");
    let h = TODO_HANDLE@;
    law_scaffolded_author(fragment_type, h);
    lemma_single_word(h);
    assert(text::words(h)[0] == h);
}

/// The handle is what stands before the `@` of a GitHub no-reply address, without the number that
/// may come first.
pub proof fn law_noreply_handle(id: Seq<char>, handle: Seq<char>)
    requires
        handle.len() > 0,
        !handle.contains('@'),
        !id.contains('@'),
        !id.contains('+'),
    ensures
        scaffold::noreply_handle(id + "+"@ + handle + "@users.noreply.github.com"@) == Some(handle),
        !handle.contains('+') ==> scaffold::noreply_handle(handle + "@users.noreply.github.com"@)
            == Some(handle),
{
    reveal_strlit("+");
    reveal_strlit("@users.noreply.github.com");
    reveal_strlit("users.noreply.github.com");
    let domain = "users.noreply.github.com"@;
    assert("@users.noreply.github.com"@ =~= seq!['@'] + domain);
    let local = id + seq!['+'] + handle;
    let email = local + seq!['@'] + domain;
    assert(id + "+"@ + handle + "@users.noreply.github.com"@ =~= email);
    assert(!local.contains('@')) by {
        if local.contains('@') {
            let j = choose|j: int| 0 <= j < local.len() && local[j] == '@';
            if j < id.len() {
                assert(id[j] == '@');
            } else if j > id.len() {
                assert(handle[j - id.len() - 1] == '@');
            }
        }
    }
    lemma_index_of_first(local, '@', domain);
    assert(email.take(local.len() as int) == local);
    assert(email.skip(local.len() as int + 1) == domain);
    lemma_index_of_first(id, '+', handle);
    assert(local.skip(id.len() as int + 1) == handle);
    if !handle.contains('+') {
        let short = handle + seq!['@'] + domain;
        assert(handle + "@users.noreply.github.com"@ =~= short);
        lemma_index_of_first(handle, '@', domain);
        assert(short.take(handle.len() as int) == handle);
        assert(short.skip(handle.len() as int + 1) == domain);
        lemma_index_of_absent(handle, '+');
    }
}

pub(crate) proof fn lemma_frontmatter_template()
    ensures
        !text::contains_text(scaffold::BREAKING_FRONTMATTER@ + "\n"@, "\n---\n"@),
{
    reveal_strlit(r#"title: "TODO one-line title""#);
    reveal_strlit("\n");
    reveal_strlit("\n---\n");
    let s = scaffold::BREAKING_FRONTMATTER@ + "\n"@;
    if text::contains_text(s, "\n---\n"@) {
        let i = choose|i: int| text::occurs_at(s, "\n---\n"@, i);
        assert(s.subrange(i, i + 5)[0] == s[i]);
    }
}

// ---------------------------------------------------------------------------------------------
// Frontmatter
// ---------------------------------------------------------------------------------------------
/// A text between the two delimiters is read as the frontmatter, and what comes after them as the
/// body, as long as no line of the text but its first is a delimiter itself.
pub proof fn law_frontmatter_split(yaml: Seq<char>, body: Seq<char>)
    requires
        !text::contains_text(yaml + "\n"@, "\n---\n"@),
    ensures
        fragment::frontmatter_split("---\n"@ + yaml + "\n---\n"@ + body) == Ok::<
            _,
            Problem<Seq<char>>,
        >((yaml, body)),
{
    reveal_strlit("\n");
    reveal_strlit("---\n");
    reveal_strlit("\n---\n");
    let d = "\n---\n"@;
    let open = "---\n"@;
    let content = open + yaml + d + body;
    let rest = yaml + d + body;
    let n = yaml.len() as int;
    assert(content.subrange(0, open.len() as int) =~= open);
    assert(content.skip(open.len() as int) =~= rest);
    assert(rest.subrange(n, n + d.len()) =~= d);
    assert forall|j: int| 0 <= j < n implies !#[trigger] text::occurs_at(rest, d, j) by {
        if text::occurs_at(rest, d, j) {
            let part = rest.subrange(j, j + 5);
            let closed = yaml + "\n"@;
            if j + 5 <= n + 1 {
                assert(closed.subrange(j, j + 5) =~= part);
                assert(text::occurs_at(closed, d, j));
            } else {
                assert(part[n - j] == rest[n]);
            }
        }
    }
    assert(text::first_at(rest, d, n));
    assert(text::occurs_at(rest, d, n));
    let k = choose|k: int| text::first_at(rest, d, k);
    text::lemma_first_at_unique(rest, d, n, k);
    assert(rest.take(n) =~= yaml);
    assert(rest.skip(n + d.len()) =~= body);
}

// ---------------------------------------------------------------------------------------------
// Sections
// ---------------------------------------------------------------------------------------------
/// The lines that begin with three backticks.
pub open spec fn ticked(lines: Seq<Seq<char>>) -> Seq<Seq<char>> {
    lines.filter(
        |line: Seq<char>| line.len() >= 3 && line[0] == '`' && line[1] == '`' && line[2] == '`',
    )
}

/// A line opens or closes a fenced code block exactly where its first three characters are
/// backticks, whatever follows them.
pub proof fn law_fence(line: Seq<char>, info: Seq<char>)
    ensures
        fragment::is_fence(line) <==> line.len() >= 3 && line[0] == '`' && line[1] == '`' && line[2]
            == '`',
        fragment::is_fence(seq!['`', '`', '`'] + info),
{
    reveal_strlit("```");
    let fence = "```"@;
    if fragment::is_fence(line) {
        let first = line.subrange(0, 3);
        assert(first[0] == line[0] && first[1] == line[1] && first[2] == line[2]);
    }
    if line.len() >= 3 && line[0] == '`' && line[1] == '`' && line[2] == '`' {
        assert(line.subrange(0, 3) =~= fence);
    }
    assert((seq!['`', '`', '`'] + info).subrange(0, 3) =~= fence);
}

/// As many fences are counted as there are lines that begin with three backticks.
pub proof fn law_fence_count(lines: Seq<Seq<char>>)
    ensures
        fragment::fence_count(lines) == ticked(lines).len(),
    decreases lines.len(),
{
    reveal(Seq::filter);
    if lines.len() > 0 {
        law_fence_count(lines.drop_last());
        law_fence(lines.last(), seq![]);
    }
}

pub(crate) proof fn lemma_fence_count_split(a: Seq<Seq<char>>, b: Seq<Seq<char>>)
    ensures
        fragment::fence_count(a + b) == fragment::fence_count(a) + fragment::fence_count(b),
    decreases b.len(),
{
    if b.len() == 0 {
        assert(a + b =~= a);
    } else {
        assert((a + b).drop_last() =~= a + b.drop_last());
        assert((a + b).last() == b.last());
        lemma_fence_count_split(a, b.drop_last());
    }
}

pub(crate) proof fn lemma_no_fences(lines: Seq<Seq<char>>)
    requires
        forall|i: int| 0 <= i < lines.len() ==> !fragment::is_fence(#[trigger] lines[i]),
    ensures
        fragment::fence_count(lines) == 0,
    decreases lines.len(),
{
    if lines.len() > 0 {
        assert(!fragment::is_fence(lines[lines.len() - 1]));
        assert forall|i: int| 0 <= i < lines.drop_last().len() implies !fragment::is_fence(
            #[trigger] lines.drop_last()[i],
        ) by {
            assert(lines.drop_last()[i] == lines[i]);
        }
        lemma_no_fences(lines.drop_last());
    }
}

pub(crate) proof fn lemma_single_fence(line: Seq<char>)
    requires
        fragment::is_fence(line),
    ensures
        fragment::fence_count(seq![line]) == 1,
{
    let one = seq![line];
    assert(one.drop_last() =~= seq![]);
    assert(fragment::fence_count(one.drop_last()) == 0);
}

/// The first line that is the header outside of every fenced code block is the one that
/// `header_line_from` finds.
pub(crate) proof fn lemma_first_header(lines: Seq<Seq<char>>, header: Seq<char>, from: int, i: int)
    requires
        0 <= from <= i,
        fragment::is_header_line(lines, header, i),
        forall|j: int| from <= j < i ==> !fragment::is_header_line(lines, header, j),
    ensures
        fragment::header_line_from(lines, header, from) == Some(i),
    decreases i - from,
{
    if from < i {
        lemma_first_header(lines, header, from + 1, i);
    }
}

pub(crate) proof fn lemma_no_header(lines: Seq<Seq<char>>, header: Seq<char>, from: int)
    requires
        0 <= from,
        forall|j: int| from <= j < lines.len() ==> !fragment::is_header_line(lines, header, j),
    ensures
        fragment::header_line_from(lines, header, from) is None,
    decreases lines.len() - from,
{
    if from < lines.len() {
        lemma_no_header(lines, header, from + 1);
    }
}

/// A header is found at the beginning of the first line that is the header outside of every fenced
/// code block, and it is not found only where there is no such line.
pub proof fn law_header_is_found_outside_of_fences(body: Seq<char>, header: Seq<char>)
    ensures
        ({
            let all = text::raw_lines(body);
            match fragment::header_position(body, header) {
                Some(p) => exists|i: int| #[trigger]
                    fragment::is_header_line(all, header, i) && p == fragment::line_start(all, i)
                        && forall|j: int| j < i ==> !fragment::is_header_line(all, header, j),
                None => forall|i: int| !fragment::is_header_line(all, header, i),
            }
        }),
{
    fragment::lemma_header_line_from(text::raw_lines(body), header, 0);
}

/// A text that is empty or closed by a line feed.
pub open spec fn is_closed(s: Seq<char>) -> bool {
    s.len() == 0 || s.last() == '\n'
}

pub(crate) proof fn lemma_closed_split(a: Seq<char>, b: Seq<char>)
    requires
        is_closed(a),
    ensures
        text::raw_lines(a + b) == text::raw_lines(a) + text::raw_lines(b),
{
    if a.len() == 0 {
        assert(a + b =~= b);
        assert(text::raw_lines(a) =~= seq![]);
        assert(text::raw_lines(a) + text::raw_lines(b) =~= text::raw_lines(b));
    } else {
        let head = a.drop_last();
        assert(a =~= head + line_feed());
        lemma_lines_split(head, b);
    }
}

/// The lines of a closed text, with their line feeds, are all of it.
pub(crate) proof fn lemma_closed_length(s: Seq<char>)
    requires
        is_closed(s),
    ensures
        fragment::line_start(text::raw_lines(s), text::raw_lines(s).len() as int) == s.len(),
    decreases s.len(),
{
    if s.len() > 0 {
        let all = text::raw_lines(s);
        let n = text::index_of(s, '\n');
        text::lemma_index_of(s, '\n');
        assert(s[s.len() - 1] == '\n');
        let rest = s.skip(n + 1);
        lemma_closed_length(rest);
        assert(all.skip(1) =~= text::raw_lines(rest));
        fragment::lemma_line_start_shift(all, all.len() as int);
    }
}

pub(crate) proof fn lemma_line_start_prefix(x: Seq<Seq<char>>, y: Seq<Seq<char>>, i: int)
    requires
        0 <= i <= x.len(),
    ensures
        fragment::line_start(x + y, i) == fragment::line_start(x, i),
    decreases i,
{
    if i > 0 {
        lemma_line_start_prefix(x, y, i - 1);
    }
}

pub(crate) proof fn lemma_line_start_after(x: Seq<Seq<char>>, y: Seq<Seq<char>>, j: int)
    requires
        0 <= j <= y.len(),
    ensures
        fragment::line_start(x + y, x.len() + j) == fragment::line_start(x, x.len() as int)
            + fragment::line_start(y, j),
    decreases j,
{
    if j == 0 {
        lemma_line_start_prefix(x, y, x.len() as int);
    } else {
        lemma_line_start_after(x, y, j - 1);
        assert((x + y)[x.len() + j - 1] == y[j - 1]);
    }
}

pub(crate) proof fn lemma_not_ticked(lines: Seq<Seq<char>>, i: int)
    requires
        ticked(lines).len() == 0,
        0 <= i < lines.len(),
    ensures
        !(lines[i].len() >= 3 && lines[i][0] == '`' && lines[i][1] == '`' && lines[i][2] == '`'),
{
    let pred = |line: Seq<char>|
        line.len() >= 3 && line[0] == '`' && line[1] == '`' && line[2] == '`';
    assert(ticked(lines) == lines.filter(pred));
    if pred(lines[i]) {
        lines.lemma_filter_contains(pred, i);
    }
}

/// A fenced code block hides every header that stands in it: in a text with such a block, a header
/// is found in what comes before the block or else in what comes after it, as if they stood alone.
#[verifier::spinoff_prover]
#[verifier::rlimit(60)]
pub proof fn law_fenced_blocks_hide_headers(
    before: Seq<char>,
    open: Seq<char>,
    inside: Seq<char>,
    close: Seq<char>,
    after: Seq<char>,
    header: Seq<char>,
)
    requires
        is_closed(before),
        ticked(text::raw_lines(before)).len() % 2 == 0,
        open.len() >= 3 && open[0] == '`' && open[1] == '`' && open[2] == '`',
        close.len() >= 3 && close[0] == '`' && close[1] == '`' && close[2] == '`',
        !open.contains('\n'),
        !close.contains('\n'),
        ticked(text::raw_lines(inside + "\n"@)).len() == 0,
    ensures
        ({
            let block = open + "\n"@ + inside + "\n"@ + close + "\n"@;
            fragment::header_position(before + block + after, header)
                == match fragment::header_position(before, header) {
                Some(p) => Some(p),
                None => match fragment::header_position(after, header) {
                    Some(p) => Some(before.len() + block.len() + p),
                    None => None,
                },
            }
        }),
{
    reveal_strlit("\n");
    let nl = line_feed();
    assert("\n"@ =~= nl);
    let block = open + nl + inside + nl + close + nl;
    let whole = before + block + after;

    // The lines, in three parts.
    let a = text::raw_lines(before);
    let within = text::raw_lines(inside + nl);
    let b = seq![open] + within + seq![close];
    let c = text::raw_lines(after);
    let all = text::raw_lines(whole);
    assert(block =~= open + nl + (inside + nl + (close + nl)));
    lemma_lines_split(open, inside + nl + (close + nl));
    lemma_lines_split(inside, close + nl);
    lemma_one_line(open);
    lemma_one_line(close);
    assert(text::raw_lines(block) =~= b);
    assert(is_closed(before + block));
    lemma_closed_split(before, block);
    lemma_closed_split(before + block, after);
    assert(all =~= a + b + c);
    let n = a.len() as int;
    let m = n + b.len();

    // Which of them are the header outside of every block.
    law_fence(open, seq![]);
    law_fence(close, seq![]);
    law_fence_count(a);
    lemma_single_fence(open);
    lemma_single_fence(close);
    assert forall|i: int| 0 <= i < within.len() implies !fragment::is_fence(
        #[trigger] within[i],
    ) by {
        law_fence(within[i], seq![]);
        lemma_not_ticked(within, i);
    }
    lemma_no_fences(within);
    lemma_fence_count_split(seq![open] + within, seq![close]);
    lemma_fence_count_split(seq![open], within);
    lemma_fence_count_split(a, b);
    assert forall|i: int| i < n implies fragment::is_header_line(all, header, i)
        == fragment::is_header_line(a, header, i) by {
        if 0 <= i {
            assert(all.take(i) =~= a.take(i));
        }
    }
    assert forall|i: int| n <= i < m implies !fragment::is_header_line(all, header, i) by {
        let k = i - n;
        assert(all[i] == b[k]);
        if 1 <= k <= within.len() {
            let part = within.take(k - 1);
            assert(all.take(i) =~= a + (seq![open] + part));
            lemma_fence_count_split(a, seq![open] + part);
            lemma_fence_count_split(seq![open], part);
            assert forall|q: int| 0 <= q < part.len() implies !fragment::is_fence(
                #[trigger] part[q],
            ) by {
                assert(part[q] == within[q]);
            }
            lemma_no_fences(part);
        }
    }
    assert forall|k: int| 0 <= k implies #[trigger] fragment::is_header_line(all, header, m + k)
        == fragment::is_header_line(c, header, k) by {
        if k < c.len() {
            assert(all.take(m + k) =~= (a + b) + c.take(k));
            lemma_fence_count_split(a + b, c.take(k));
        }
    }

    // Where the first of those stands.
    fragment::lemma_header_line_from(a, header, 0);
    fragment::lemma_header_line_from(c, header, 0);
    if let Some(i) = fragment::header_line_from(a, header, 0) {
        lemma_first_header(all, header, 0, i);
        assert(all =~= a + (b + c));
        lemma_line_start_prefix(a, b + c, i);
    } else if let Some(k) = fragment::header_line_from(c, header, 0) {
        assert(fragment::is_header_line(all, header, m + k));
        assert forall|j: int| 0 <= j < m + k implies !fragment::is_header_line(all, header, j) by {
            if j >= m {
                assert(fragment::is_header_line(all, header, m + (j - m))
                    == fragment::is_header_line(c, header, j - m));
            }
        }
        lemma_first_header(all, header, 0, m + k);
        lemma_closed_length(before + block);
        lemma_line_start_after(a + b, c, k);
    } else {
        assert forall|j: int| 0 <= j < all.len() implies !fragment::is_header_line(
            all,
            header,
            j,
        ) by {
            if j >= m {
                assert(fragment::is_header_line(all, header, m + (j - m))
                    == fragment::is_header_line(c, header, j - m));
            }
        }
        lemma_no_header(all, header, 0);
    }
}

/// A text that is not blank has a line that is not blank.
pub(crate) proof fn lemma_line_not_blank(s: Seq<char>) -> (q: int)
    requires
        !text::is_blank(s),
    ensures
        0 <= q < text::lines(s).len(),
        !text::is_blank(text::lines(s)[q]),
    decreases s.len(),
{
    let j = choose|j: int| 0 <= j < s.len() && !text::is_white_space(#[trigger] s[j]);
    let k = text::index_of(s, '\n');
    text::lemma_index_of(s, '\n');
    if k >= s.len() {
        0
    } else if j < k {
        let first = s.take(k);
        assert(first[j] == s[j]);
        let shown = text::strip_cr(first);
        assert(j < shown.len()) by {
            assert(first[j] != '\r');
        }
        assert(shown[j] == s[j]);
        assert(text::lines(s)[0] == shown);
        0
    } else {
        let rest = s.skip(k + 1);
        assert(rest[j - k - 1] == s[j]);
        let q = lemma_line_not_blank(rest);
        assert(text::lines(s)[q + 1] == text::lines(rest)[q]);
        q + 1
    }
}

/// What stands between two lines of a text is not blank where a line between them is not.
pub(crate) proof fn lemma_between_not_blank(s: Seq<char>, low: int, q: int, high: int)
    requires
        0 <= low < q < high <= text::raw_lines(s).len(),
        !text::is_blank(text::raw_lines(s)[q]),
    ensures
        ({
            let all = text::raw_lines(s);
            let from = fragment::line_start(all, low) + all[low].len();
            &&& high < all.len() ==> !text::is_blank(
                s.subrange(from, fragment::line_start(all, high)),
            )
            &&& !text::is_blank(s.skip(from))
        }),
{
    let all = text::raw_lines(s);
    let from = fragment::line_start(all, low) + all[low].len();
    let p = fragment::line_start(all, q);
    fragment::lemma_raw_line(s, low);
    fragment::lemma_raw_line(s, q);
    fragment::lemma_line_start_monotone(all, low, q);
    let line = all[q];
    let c = choose|c: int| 0 <= c < line.len() && !text::is_white_space(#[trigger] line[c]);
    assert(s.subrange(p, p + line.len())[c] == s[p + c]);
    assert(s.skip(from)[p + c - from] == s[p + c]);
    if high < all.len() {
        fragment::lemma_line_start_monotone(all, q, high);
        fragment::lemma_raw_line(s, high);
        let part = s.subrange(from, fragment::line_start(all, high));
        assert(part[p + c - from] == s[p + c]);
    }
}

/// The lines of a text that is closed by a line feed.
pub open spec fn closed_lines(s: Seq<char>) -> Seq<Seq<char>> {
    text::lines(s + "\n"@)
}

/// A text that can stand under a header: it is not blank.
pub open spec fn is_section_text(s: Seq<char>) -> bool {
    !text::is_blank(s)
}

/// A text that can stand under the summary header: it closes every fenced code block that it
/// opens, and it holds no migration header outside of one.
pub open spec fn is_summary_text(s: Seq<char>) -> bool {
    &&& is_section_text(s)
    &&& ticked(closed_lines(s)).len() % 2 == 0
    &&& forall|i: int|
        0 <= i < closed_lines(s).len() && #[trigger] closed_lines(s)[i] == "## Migration"@
            ==> ticked(closed_lines(s).take(i)).len() % 2 == 1
}

/// The lines of a body that is laid out as documented, up to the blank line before the authors.
spec fn layout_lines(summary: Seq<char>, migration: Seq<char>) -> Seq<Seq<char>> {
    seq![seq![], SUMMARY_HEADER@, seq![]] + closed_lines(summary) + seq![
        seq![],
        MIGRATION_HEADER@,
        seq![],
    ] + closed_lines(migration)
}

proof fn lemma_layout_lines(summary: Seq<char>, migration: Seq<char>, names: Seq<char>)
    requires
        !names.contains('\n'),
    ensures
        text::lines(fragment::layout_body(summary, migration, names)) == layout_lines(summary, migration)
            + seq![seq![]] + seq![text::strip_cr("authors: "@ + names)],
{
    reveal_strlit("\n");
    reveal_strlit("\n## Summary\n\n");
    reveal_strlit("\n\n## Migration\n\n");
    reveal_strlit("\n\nauthors: ");
    reveal_strlit("## Summary");
    reveal_strlit("## Migration");
    reveal_strlit("authors: ");
    let nl = line_feed();
    let none: Seq<char> = seq![];
    let h1 = SUMMARY_HEADER@;
    let h2 = MIGRATION_HEADER@;
    let a = "authors: "@ + names;
    lemma_authors_line_is_one_line(names);
    assert("\n"@ =~= nl);
    let t8 = a + nl;
    let t7 = none + nl + t8;
    let t6 = migration + nl + t7;
    let t5 = none + nl + t6;
    let t4 = h2 + nl + t5;
    let t3 = none + nl + t4;
    let t2 = summary + nl + t3;
    let t1 = none + nl + t2;
    let t0 = h1 + nl + t1;
    let body = none + nl + t0;
    assert(fragment::layout_body(summary, migration, names) =~= body);
    lemma_lines_split(none, t0);
    lemma_lines_split(h1, t1);
    lemma_lines_split(none, t2);
    lemma_lines_split(summary, t3);
    lemma_lines_split(none, t4);
    lemma_lines_split(h2, t5);
    lemma_lines_split(none, t6);
    lemma_lines_split(migration, t7);
    lemma_lines_split(none, t8);
    lemma_one_line(none);
    lemma_one_line(h1);
    lemma_one_line(h2);
    lemma_one_line(a);
    assert(text::strip_cr(none) =~= none);
    assert(text::strip_cr(h1) =~= h1);
    assert(text::strip_cr(h2) =~= h2);
    assert(text::lines(body) =~= layout_lines(summary, migration) + seq![none] + seq![
        text::strip_cr(a),
    ]);
}

proof fn lemma_layout_sections_text(summary: Seq<char>, migration: Seq<char>, names: Seq<char>)
    requires
        !names.contains('\n'),
    ensures
        text::raw_lines(fragment::sections_text(fragment::layout_body(summary, migration, names)))
            == layout_lines(summary, migration),
{
    reveal_strlit("\n");
    reveal_strlit("## Summary");
    reveal_strlit("## Migration");
    reveal_strlit("authors: ");
    let none: Seq<char> = seq![];
    let kept = layout_lines(summary, migration);
    let a = text::strip_cr("authors: "@ + names);
    lemma_layout_lines(summary, migration, names);
    assert("\n"@ =~= line_feed());
    assert(fragment::is_authors_line(a)) by {
        assert(a.subrange(0, 9) =~= "authors: "@);
    }
    let head = kept + seq![none];
    assert((head + seq![a]).drop_last() =~= head);
    assert(head.drop_last() =~= kept);
    assert(text::join(head, line_feed()) =~= text::join(kept, line_feed()) + line_feed());
    let s = closed_lines(summary);
    let m = closed_lines(migration);
    lemma_lines_have_no_line_feeds(summary + "\n"@);
    lemma_lines_have_no_line_feeds(migration + "\n"@);
    assert forall|i: int| 0 <= i < kept.len() implies !(#[trigger] kept[i]).contains('\n') by {
        if 3 <= i < 3 + s.len() {
            assert(kept[i] == s[i - 3]);
        } else if 6 + s.len() <= i {
            assert(kept[i] == m[i - 6 - s.len()]);
        }
    }
    lemma_join_lines(kept);
}

/// The sections of a body that is laid out as documented are accepted.
#[verifier::spinoff_prover]
#[verifier::rlimit(60)]
pub proof fn law_layout_sections(summary: Seq<char>, migration: Seq<char>, names: Seq<char>)
    requires
        is_summary_text(summary),
        is_section_text(migration),
        !names.contains('\n'),
    ensures
        fragment::sections_verdict(fragment::layout_body(summary, migration, names)) == Verdict::Ok(()),
{
    reveal_strlit("\n");
    reveal_strlit("```");
    reveal_strlit("## Summary");
    reveal_strlit("## Migration");
    let none: Seq<char> = seq![];
    let h1 = SUMMARY_HEADER@;
    let h2 = MIGRATION_HEADER@;
    let sections = fragment::sections_text(fragment::layout_body(summary, migration, names));
    let all = layout_lines(summary, migration);
    let s = closed_lines(summary);
    let m = closed_lines(migration);
    let top = seq![none, h1, none];
    lemma_layout_sections_text(summary, migration, names);
    assert(all =~= top + s + seq![none, h2, none] + m);
    assert forall|i: int| 0 <= i < top.len() implies !fragment::is_fence(#[trigger] top[i]) by {
        if fragment::is_fence(top[i]) {
            assert(top[i].subrange(0, 3)[0] == '`');
        }
    }
    lemma_no_fences(top);
    lemma_no_fences(seq![none]);

    // The summary header is the second line.
    assert(all.take(1) =~= seq![none]);
    assert(fragment::is_header_line(all, h1, 1));
    assert(!fragment::is_header_line(all, h1, 0));
    lemma_first_header(all, h1, 0, 1);

    // The migration header is the line after the blank one that follows the summary.
    let k = 4 + s.len() as int;
    assert(all[k] == h2);
    assert(!fragment::is_fence(h2)) by {
        if fragment::is_fence(h2) {
            assert(h2.subrange(0, 3)[0] == '`');
        }
    }
    assert(all.take(k) =~= top + s + seq![none]);
    law_fence_count(s);
    lemma_fence_count_split(top + s, seq![none]);
    lemma_fence_count_split(top, s);
    assert(fragment::is_header_line(all, h2, k));
    assert forall|j: int| 0 <= j < k implies !fragment::is_header_line(all, h2, j) by {
        if 3 <= j < 3 + s.len() {
            let q = j - 3;
            assert(all[j] == s[q]);
            assert(all.take(j) =~= top + s.take(q));
            lemma_fence_count_split(top, s.take(q));
            law_fence_count(s.take(q));
            assert(s[q] == h2 ==> ticked(s.take(q)).len() % 2 == 1);
        } else if j == 1 {
            assert(all[1] == h1);
        } else {
            assert(all[j] =~= none);
        }
    }
    lemma_first_header(all, h2, 0, k);

    // Neither section is blank.
    assert(fragment::line_start(all, 1) == 1) by {
        assert(fragment::line_start(all, 0) == 0);
    }
    fragment::lemma_line_start_monotone(all, 1, k);
    let nl = line_feed();
    assert("\n"@ =~= nl);
    assert(!text::is_blank(summary + nl)) by {
        let c = choose|c: int| 0 <= c < summary.len() && !text::is_white_space(
            #[trigger] summary[c],
        );
        assert((summary + nl)[c] == summary[c]);
    }
    assert(!text::is_blank(migration + nl)) by {
        let c = choose|c: int| 0 <= c < migration.len() && !text::is_white_space(
            #[trigger] migration[c],
        );
        assert((migration + nl)[c] == migration[c]);
    }
    let q = lemma_line_not_blank(summary + nl);
    assert(all[3 + q] == s[q]);
    lemma_between_not_blank(sections, 1, 3 + q, k);
    let r = lemma_line_not_blank(migration + nl);
    assert(all[6 + s.len() + r] == m[r]);
    lemma_between_not_blank(sections, k, 6 + s.len() + r, all.len() as int);
}

/// Every way in which the frontmatter can come out is in order.
pub open spec fn parses_well<P: Fn(&str) -> Parsed>(parse: P, yaml: Seq<char>) -> bool {
    forall|out: ParsedView| #[trigger]
        fragment::parse_gives(parse, yaml, out) ==> (out matches Ok(frontmatter)
            && fragment::frontmatter_verdict(frontmatter) == Verdict::Ok(()))
}

/// A breaking fragment that is laid out as documented is accepted: frontmatter that is in order,
/// then a summary and migration notes under their headers, then the authors.
pub proof fn law_documented_layout_is_accepted<P: Fn(&str) -> Parsed>(
    parse: P,
    yaml: Seq<char>,
    summary: Seq<char>,
    migration: Seq<char>,
    names: Seq<char>,
    verdict: Verdict,
)
    requires
        !text::contains_text(yaml + "\n"@, "\n---\n"@),
        parses_well(parse, yaml),
        is_summary_text(summary),
        is_section_text(migration),
        !names.contains('\n'),
        fragment::names_verdict(text::trimmed(names)) == Verdict::Ok(()),
        fragment::contents_outcome(
            parse,
            fragment::layout(yaml, summary, migration, names),
            "breaking"@,
            verdict,
        ),
    ensures
        verdict == Verdict::Ok(()),
{
    reveal_strlit("\n\nauthors: ");
    reveal_strlit("\nauthors: ");
    reveal_strlit("\n");
    let body = fragment::layout_body(summary, migration, names);
    let before = layout_start(yaml, summary, migration);
    assert(fragment::layout(yaml, summary, migration, names) =~= before + "\nauthors: "@ + names
        + "\n"@);
    law_authors_line(before, names);
    law_frontmatter_split(yaml, body);
    law_layout_sections(summary, migration, names);
    let parsed = choose|parsed: ParsedView| #[trigger]
        fragment::parse_gives(parse, yaml, parsed) && verdict == fragment::parsed_verdict(
            parsed,
            body,
        );
    assert(fragment::parse_gives(parse, yaml, parsed));
}

/// What the scaffolder writes under the headers of a breaking fragment can stand there.
pub proof fn law_scaffolded_sections()
    ensures
        is_summary_text(scaffold::BREAKING_SUMMARY@),
        is_section_text(scaffold::BREAKING_MIGRATION@),
{
    reveal_strlit("\n");
    reveal_strlit("```");
    reveal_strlit("## Migration");
    reveal_strlit("TODO one-paragraph summary that lands in the changelog list.");
    reveal_strlit(
        r#"TODO how to migrate. Use "N/A" for informational-only breakers.

For config changes, show a before/after with fenced code blocks, e.g.:

##### Old

```yaml
sinks:
  my_sink:
    option: old_value
```

##### New

```yaml
sinks:
  my_sink:
    option: new_value
```"#,
    );
    let summary = scaffold::BREAKING_SUMMARY@;
    let migration = scaffold::BREAKING_MIGRATION@;
    assert(!text::is_white_space(summary[0]));
    assert(!text::is_white_space(migration[0]));
    assert("\n"@ =~= line_feed());
    lemma_one_line(summary);
    let all = closed_lines(summary);
    assert(all =~= seq![summary]);
    assert(!fragment::is_fence(summary)) by {
        if fragment::is_fence(summary) {
            assert(summary.subrange(0, 3)[0] == '`');
        }
    }
    lemma_no_fences(all);
    law_fence_count(all);
    assert(summary[0] != MIGRATION_HEADER@[0]);
}

pub(crate) proof fn lemma_todo_is_not_blank(title: Seq<char>)
    requires
        text::contains_text(title, "TODO"@),
    ensures
        !text::is_blank(title),
{
    reveal_strlit("TODO");
    let i = choose|i: int| text::occurs_at(title, "TODO"@, i);
    assert(title.subrange(i, i + 4)[0] == title[i]);
}

/// A scaffolded breaking fragment with a known author is refused for its title as long as the
/// title still holds the scaffolder's placeholder.
pub proof fn law_scaffolded_breaking_refused<P: Fn(&str) -> Parsed>(
    parse: P,
    author: Seq<char>,
    verdict: Verdict,
)
    requires
        !author.contains('\n'),
        fragment::names_verdict(text::trimmed(author)) == Verdict::Ok(()),
        forall|out: ParsedView| #[trigger]
            fragment::parse_gives(parse, scaffold::BREAKING_FRONTMATTER@, out) ==> (out matches Ok(
                frontmatter,
            ) && text::contains_text(frontmatter.title, "TODO"@)),
        fragment::contents_outcome(
            parse,
            scaffold::template("breaking"@, author),
            "breaking"@,
            verdict,
        ),
    ensures
        verdict == Verdict::Err(Problem::TodoTitle),
{
    let yaml = scaffold::BREAKING_FRONTMATTER@;
    let body = fragment::layout_body(
        scaffold::BREAKING_SUMMARY@,
        scaffold::BREAKING_MIGRATION@,
        author,
    );
    law_scaffolded_author("breaking"@, author);
    lemma_frontmatter_template();
    law_frontmatter_split(yaml, body);
    let parsed = choose|parsed: ParsedView| #[trigger]
        fragment::parse_gives(parse, yaml, parsed) && verdict == fragment::parsed_verdict(
            parsed,
            body,
        );
    assert(fragment::parse_gives(parse, yaml, parsed));
    if let Ok(frontmatter) = parsed {
        lemma_todo_is_not_blank(frontmatter.title);
    }
}

/// A scaffolded breaking fragment with a known author is accepted once its frontmatter is in
/// order, whether or not the texts under its headers were edited.
pub proof fn law_titled_scaffold_is_accepted<P: Fn(&str) -> Parsed>(
    parse: P,
    yaml: Seq<char>,
    author: Seq<char>,
    verdict: Verdict,
)
    requires
        !text::contains_text(yaml + "\n"@, "\n---\n"@),
        parses_well(parse, yaml),
        !author.contains('\n'),
        fragment::names_verdict(text::trimmed(author)) == Verdict::Ok(()),
        fragment::contents_outcome(
            parse,
            fragment::layout(
                yaml,
                scaffold::BREAKING_SUMMARY@,
                scaffold::BREAKING_MIGRATION@,
                author,
            ),
            "breaking"@,
            verdict,
        ),
    ensures
        verdict == Verdict::Ok(()),
{
    law_scaffolded_sections();
    law_documented_layout_is_accepted(
        parse,
        yaml,
        scaffold::BREAKING_SUMMARY@,
        scaffold::BREAKING_MIGRATION@,
        author,
        verdict,
    );
}

pub(crate) proof fn lemma_encode_split(a: Seq<char>, b: Seq<char>)
    ensures
        vstd::utf8::encode_utf8(a + b) == vstd::utf8::encode_utf8(a) + vstd::utf8::encode_utf8(b),
    decreases a.len(),
{
    if a.len() == 0 {
        assert(a + b =~= b);
    } else {
        assert((a + b).drop_first() =~= a.drop_first() + b);
        lemma_encode_split(a.drop_first(), b);
    }
}

/// The bytes of the header are what a text holds at the offset of the header, and what comes before
/// them are the bytes of what comes before it.
pub proof fn law_header_stands_at_its_offset(body: Seq<char>, header: Seq<char>)
    ensures
        fragment::header_offset(body, header) is Some <==> fragment::header_position(body, header)
            is Some,
        fragment::header_position(body, header) matches Some(p) ==> {
            let n = fragment::header_offset(body, header)->0;
            let bytes = vstd::utf8::encode_utf8(body);
            let length = vstd::utf8::encode_utf8(header).len();
            &&& 0 <= n <= n + length <= bytes.len()
            &&& bytes.take(n) == vstd::utf8::encode_utf8(body.take(p))
            &&& bytes.subrange(n, n + length) == vstd::utf8::encode_utf8(header)
            &&& bytes.skip(n + length) == vstd::utf8::encode_utf8(body.skip(p + header.len()))
        },
{
    fragment::lemma_header_position(body, header);
    if let Some(p) = fragment::header_position(body, header) {
        let after = body.skip(p + header.len());
        let x = vstd::utf8::encode_utf8(body.take(p));
        let y = vstd::utf8::encode_utf8(header);
        let z = vstd::utf8::encode_utf8(after);
        let n = x.len() as int;
        assert(body =~= body.take(p) + header + after);
        lemma_encode_split(body.take(p) + header, after);
        lemma_encode_split(body.take(p), header);
        let bytes = vstd::utf8::encode_utf8(body);
        assert(bytes == x + y + z);
        assert(bytes.take(n) =~= x);
        assert(bytes.subrange(n, n + y.len()) =~= y);
        assert(bytes.skip(n + y.len()) =~= z);
    }
}

// ---------------------------------------------------------------------------------------------
// The check as a whole
// ---------------------------------------------------------------------------------------------
/// Reading the same YAML twice comes to the same.
pub open spec fn parse_is_settled<P: Fn(&str) -> Parsed>(parse: P) -> bool {
    forall|yaml: Seq<char>, x: ParsedView, y: ParsedView|
        #[trigger] fragment::parse_gives(parse, yaml, x) && #[trigger] fragment::parse_gives(
            parse,
            yaml,
            y,
        ) ==> x == y
}

/// Reading the same file twice comes to the same.
pub open spec fn read_is_settled<R: Fn(&str) -> Result<String, String>>(read: R) -> bool {
    forall|path: Seq<char>, x: Result<Seq<char>, Seq<char>>, y: Result<Seq<char>, Seq<char>>|
        #[trigger] check::read_gives(read, path, x) && #[trigger] check::read_gives(read, path, y)
            ==> x == y
}

/// Running git twice with the same arguments comes to the same.
pub open spec fn git_is_settled<G: Fn(&Vec<String>) -> Result<String, String>>(git: G) -> bool {
    forall|
        args: Seq<Seq<char>>,
        x: Result<Seq<char>, Seq<char>>,
        y: Result<Seq<char>, Seq<char>>,
    |
        #[trigger] check::git_gives(git, args, x) && #[trigger] check::git_gives(git, args, y)
            ==> x == y
}

/// The contents of a fragment, and what its frontmatter comes out as, settle what is found of it.
pub proof fn law_contents_settle_the_verdict<P: Fn(&str) -> Parsed>(
    parse: P,
    content: Seq<char>,
    fragment_type: Seq<char>,
    x: Verdict,
    y: Verdict,
)
    requires
        parse_is_settled(parse),
        fragment::contents_outcome(parse, content, fragment_type, x),
        fragment::contents_outcome(parse, content, fragment_type, y),
    ensures
        x == y,
{
}

pub(crate) proof fn lemma_path_outcome_unique<
    R: Fn(&str) -> Result<String, String>,
    P: Fn(&str) -> Parsed,
>(read: R, parse: P, path: Seq<char>, x: check::Outcome, y: check::Outcome)
    requires
        parse_is_settled(parse),
        read_is_settled(read),
        check::path_outcome(read, parse, path, x),
        check::path_outcome(read, parse, path, y),
    ensures
        x == y,
{
    if let Some(name) = path::file_name_spec(path) {
        if let Ok(t) = fragment::filename_verdict(name) {
            if check::named_outcome(read, parse, path, name, t, x) && check::named_outcome(
                read,
                parse,
                path,
                name,
                t,
                y,
            ) {
                let u = choose|u: Result<Seq<char>, Seq<char>>| #[trigger]
                    check::read_gives(read, path, u) && check::read_outcome(parse, u, name, t, x);
                let v = choose|v: Result<Seq<char>, Seq<char>>| #[trigger]
                    check::read_gives(read, path, v) && check::read_outcome(parse, v, name, t, y);
                assert(u == v);
                if let Ok(content) = u {
                    let p = choose|p: Verdict| #[trigger]
                        fragment::contents_outcome(parse, content, t, p) && x
                            == check::verdict_outcome(name, p);
                    let q = choose|q: Verdict| #[trigger]
                        fragment::contents_outcome(parse, content, t, q) && y
                            == check::verdict_outcome(name, q);
                    law_contents_settle_the_verdict(parse, content, t, p, q);
                }
            }
        }
    }
}

pub(crate) proof fn lemma_paths_outcome_unique<
    R: Fn(&str) -> Result<String, String>,
    P: Fn(&str) -> Parsed,
>(read: R, parse: P, paths: Seq<Seq<char>>, x: check::Outcome, y: check::Outcome)
    requires
        parse_is_settled(parse),
        read_is_settled(read),
        check::paths_outcome(read, parse, paths, x),
        check::paths_outcome(read, parse, paths, y),
    ensures
        x == y,
{
    if x is Err {
        let k = choose|k: int|
            0 <= k < paths.len() && #[trigger] check::passed_before(read, parse, paths, k)
                && check::path_outcome(read, parse, paths[k], x);
        if y is Err {
            let l = choose|l: int|
                0 <= l < paths.len() && #[trigger] check::passed_before(read, parse, paths, l)
                    && check::path_outcome(read, parse, paths[l], y);
            if k < l {
                lemma_path_outcome_unique(read, parse, paths[k], x, Ok(()));
            } else if l < k {
                lemma_path_outcome_unique(read, parse, paths[l], y, Ok(()));
            } else {
                lemma_path_outcome_unique(read, parse, paths[k], x, y);
            }
        } else {
            lemma_path_outcome_unique(read, parse, paths[k], x, y);
        }
    } else if y is Err {
        let l = choose|l: int|
            0 <= l < paths.len() && #[trigger] check::passed_before(read, parse, paths, l)
                && check::path_outcome(read, parse, paths[l], y);
        lemma_path_outcome_unique(read, parse, paths[l], x, y);
    } else {
        assert(x->Ok_0 == ());
        assert(y->Ok_0 == ());
    }
}

/// The check of a fragment for a breaking change finds first what it finds of the same contents in
/// a fragment of another type, and then what is found of a breaking fragment.
pub proof fn law_breaking_contents<P: Fn(&str) -> Parsed>(
    parse: P,
    content: Seq<char>,
    other_type: Seq<char>,
    other: Verdict,
    alone: Verdict,
    breaking: Verdict,
)
    requires
        parse_is_settled(parse),
        other_type != "breaking"@,
        fragment::contents_outcome(parse, content, other_type, other),
        fragment::breaking_outcome(parse, content, alone),
        fragment::contents_outcome(parse, content, "breaking"@, breaking),
    ensures
        breaking == if other is Err {
            other
        } else {
            alone
        },
{
}

/// An added file named `README.md` neither causes nor hides an error: the check of the other files
/// comes to the same with it, wherever it is listed.
pub proof fn law_added_readme_changes_nothing<
    R: Fn(&str) -> Result<String, String>,
    P: Fn(&str) -> Parsed,
>(
    read: R,
    parse: P,
    paths: Seq<Seq<char>>,
    i: int,
    readme: Seq<char>,
    x: check::Outcome,
    y: check::Outcome,
)
    requires
        read_is_settled(read),
        parse_is_settled(parse),
        0 <= i <= paths.len(),
        path::file_name_spec(readme) == Some("README.md"@),
        check::paths_outcome(read, parse, paths, x),
        check::paths_outcome(read, parse, paths.insert(i, readme), y),
    ensures
        x == y,
{
    let more = paths.insert(i, readme);
    assert forall|q: int| 0 <= q < paths.len() implies #[trigger] paths[q] == more[if q < i {
        q
    } else {
        q + 1
    }] by {}
    if x is Err {
        let k = choose|k: int|
            0 <= k < paths.len() && #[trigger] check::passed_before(read, parse, paths, k)
                && check::path_outcome(read, parse, paths[k], x);
        let at = if k < i {
            k
        } else {
            k + 1
        };
        assert(more[at] == paths[k]);
        if y is Err {
            let l = choose|l: int|
                0 <= l < more.len() && #[trigger] check::passed_before(read, parse, more, l)
                    && check::path_outcome(read, parse, more[l], y);
            if l < at {
                assert(l != i);
                let q = if l < i {
                    l
                } else {
                    l - 1
                };
                assert(more[l] == paths[q]);
                lemma_path_outcome_unique(read, parse, more[l], y, Ok(()));
            } else if at < l {
                lemma_path_outcome_unique(read, parse, more[at], x, Ok(()));
            } else {
                lemma_path_outcome_unique(read, parse, more[at], x, y);
            }
        } else {
            lemma_path_outcome_unique(read, parse, more[at], x, Ok(()));
        }
    } else if y is Err {
        let l = choose|l: int|
            0 <= l < more.len() && #[trigger] check::passed_before(read, parse, more, l)
                && check::path_outcome(read, parse, more[l], y);
        assert(l != i);
        let q = if l < i {
            l
        } else {
            l - 1
        };
        assert(more[l] == paths[q]);
        lemma_path_outcome_unique(read, parse, more[l], y, Ok(()));
    } else {
        assert(x->Ok_0 == ());
        assert(y->Ok_0 == ());
    }
}

/// An added `changelog.d/README.md` changes nothing about what a check comes to, as long as there
/// are other added files, and no more with it than there may be.
pub proof fn law_listed_readme_changes_nothing<
    R: Fn(&str) -> Result<String, String>,
    P: Fn(&str) -> Parsed,
>(
    max_fragments: usize,
    read: R,
    parse: P,
    paths: Seq<Seq<char>>,
    i: int,
    x: check::Outcome,
    y: check::Outcome,
)
    requires
        read_is_settled(read),
        parse_is_settled(parse),
        0 <= i <= paths.len(),
        0 < paths.len() < max_fragments,
        check::listing_outcome(max_fragments, read, parse, Ok(paths), x),
        check::listing_outcome(
            max_fragments,
            read,
            parse,
            Ok(paths.insert(i, "changelog.d/README.md"@)),
            y,
        ),
    ensures
        x == y,
{
    reveal_strlit("changelog.d/README.md");
    reveal_strlit("changelog.d");
    reveal_strlit("/");
    reveal_strlit("README.md");
    reveal_strlit(".");
    reveal_strlit("..");
    let readme = "changelog.d/README.md"@;
    assert(readme =~= check::CHANGELOG_DIR@ + "/"@ + "README.md"@);
    assert("README.md"@.len() == 9 && "."@.len() == 1 && ".."@.len() == 2);
    law_changelog_path("README.md"@);
    law_added_readme_changes_nothing(read, parse, paths, i, readme, x, y);
}

/// Where all files pass, none of them fails in another order.
pub(crate) proof fn lemma_all_pass_in_any_order<
    R: Fn(&str) -> Result<String, String>,
    P: Fn(&str) -> Parsed,
>(read: R, parse: P, a: Seq<Seq<char>>, b: Seq<Seq<char>>, outcome: check::Outcome)
    requires
        read_is_settled(read),
        parse_is_settled(parse),
        a.to_multiset() == b.to_multiset(),
        check::passed_before(read, parse, a, a.len() as int),
        check::paths_outcome(read, parse, b, outcome),
    ensures
        outcome is Ok,
{
    if outcome is Err {
        let l = choose|l: int|
            0 <= l < b.len() && #[trigger] check::passed_before(read, parse, b, l)
                && check::path_outcome(read, parse, b[l], outcome);
        a.to_multiset_ensures();
        b.to_multiset_ensures();
        assert(b.contains(b[l]));
        assert(b.to_multiset().count(b[l]) > 0);
        assert(a.contains(b[l]));
        let k = choose|k: int| 0 <= k < a.len() && a[k] == b[l];
        assert(a[k] == b[l]);
        lemma_path_outcome_unique(read, parse, b[l], outcome, Ok(()));
    }
}

/// The order in which the added files are listed does not decide whether they are accepted.
pub proof fn law_order_does_not_decide<
    R: Fn(&str) -> Result<String, String>,
    P: Fn(&str) -> Parsed,
>(
    read: R,
    parse: P,
    a: Seq<Seq<char>>,
    b: Seq<Seq<char>>,
    x: check::Outcome,
    y: check::Outcome,
)
    requires
        read_is_settled(read),
        parse_is_settled(parse),
        a.to_multiset() == b.to_multiset(),
        check::paths_outcome(read, parse, a, x),
        check::paths_outcome(read, parse, b, y),
    ensures
        x is Ok <==> y is Ok,
{
    if x is Ok && y is Err {
        lemma_all_pass_in_any_order(read, parse, a, b, y);
    }
    if y is Ok && x is Err {
        lemma_all_pass_in_any_order(read, parse, b, a, x);
    }
}

/// The order in which the added files are listed does not decide whether a check comes out well,
/// however many files there may be.
pub proof fn law_listing_order_does_not_decide<
    R: Fn(&str) -> Result<String, String>,
    P: Fn(&str) -> Parsed,
>(
    max_fragments: usize,
    read: R,
    parse: P,
    a: Seq<Seq<char>>,
    b: Seq<Seq<char>>,
    x: check::Outcome,
    y: check::Outcome,
)
    requires
        read_is_settled(read),
        parse_is_settled(parse),
        a.to_multiset() == b.to_multiset(),
        check::listing_outcome(max_fragments, read, parse, Ok(a), x),
        check::listing_outcome(max_fragments, read, parse, Ok(b), y),
    ensures
        x is Ok <==> y is Ok,
{
    a.to_multiset_ensures();
    b.to_multiset_ensures();
    assert(a.len() == b.len());
    if 0 < a.len() <= max_fragments {
        law_order_does_not_decide(read, parse, a, b, x, y);
    }
}

/// What the repository holds settles what a check comes to.
pub proof fn law_repository_settles_the_check<
    G: Fn(&Vec<String>) -> Result<String, String>,
    R: Fn(&str) -> Result<String, String>,
    P: Fn(&str) -> Parsed,
>(
    cli: check::Cli,
    repo_root: Seq<char>,
    has_changelog_dir: bool,
    git: G,
    read: R,
    parse: P,
    x: check::Outcome,
    y: check::Outcome,
)
    requires
        git_is_settled(git),
        read_is_settled(read),
        parse_is_settled(parse),
        check::exec_outcome(cli, repo_root, has_changelog_dir, git, read, parse, x),
        check::exec_outcome(cli, repo_root, has_changelog_dir, git, read, parse, y),
    ensures
        x == y,
{
    if has_changelog_dir {
        let u = choose|u: Result<Seq<Seq<char>>, Seq<char>>| #[trigger]
            check::added_outcome(git, cli.merge_base@, u) && check::listing_outcome(
                cli.max_fragments,
                read,
                parse,
                u,
                x,
            );
        let v = choose|v: Result<Seq<Seq<char>>, Seq<char>>| #[trigger]
            check::added_outcome(git, cli.merge_base@, v) && check::listing_outcome(
                cli.max_fragments,
                read,
                parse,
                v,
                y,
            );
        assert(u == v);
        if let Ok(paths) = u {
            if 0 < paths.len() <= cli.max_fragments {
                lemma_paths_outcome_unique(read, parse, paths, x, y);
            }
        }
    }
}

/// A check that comes out well has looked at at least one added file, at no more than it may, and
/// every one of them passes on its own.
pub proof fn law_every_added_file_has_passed<
    G: Fn(&Vec<String>) -> Result<String, String>,
    R: Fn(&str) -> Result<String, String>,
    P: Fn(&str) -> Parsed,
>(
    cli: check::Cli,
    repo_root: Seq<char>,
    has_changelog_dir: bool,
    git: G,
    read: R,
    parse: P,
)
    requires
        check::exec_outcome(cli, repo_root, has_changelog_dir, git, read, parse, Ok(())),
    ensures
        has_changelog_dir,
        exists|paths: Seq<Seq<char>>| #[trigger]
            check::added_outcome(git, cli.merge_base@, Ok(paths)) && 0 < paths.len()
                <= cli.max_fragments && forall|path: Seq<char>| #[trigger]
                paths.contains(path) ==> check::path_outcome(read, parse, path, Ok(())),
{
    let added = choose|added: Result<Seq<Seq<char>>, Seq<char>>| #[trigger]
        check::added_outcome(git, cli.merge_base@, added) && check::listing_outcome(
            cli.max_fragments,
            read,
            parse,
            added,
            Ok(()),
        );
    assert(check::added_outcome(git, cli.merge_base@, added));
    if let Ok(paths) = added {
        assert(check::added_outcome(git, cli.merge_base@, Ok(paths)));
    }
}

// ---------------------------------------------------------------------------------------------
// Paths
// ---------------------------------------------------------------------------------------------
/// The components of a path that continues another one begin with those of the other.
pub(crate) proof fn lemma_spans_continue(base: Seq<char>, rest: Seq<char>, from: int)
    requires
        0 <= from <= base.len(),
    ensures
        path::spans_from(base + "/"@ + rest, from) == path::spans_from(base, from)
            + path::spans_from(base + "/"@ + rest, base.len() as int + 1),
    decreases base.len() - from,
{
    reveal_strlit("/");
    let whole = base + "/"@ + rest;
    let n = base.len() as int;
    let tail = path::spans_from(whole, n + 1);
    let t = base.skip(from);
    let u = whole.skip(from);
    let k = text::index_of(t, '/');
    text::lemma_index_of(t, '/');
    assert forall|j: int| 0 <= j < k implies u[j] != '/' by {
        assert(u[j] == t[j]);
    }
    assert(u[k] == '/') by {
        if k < t.len() {
            assert(u[k] == t[k]);
        }
    }
    text::lemma_index_of_unique(u, '/', k);
    let end = from + k;
    assert(whole.subrange(from, end) =~= base.subrange(from, end));
    if end < n {
        lemma_spans_continue(base, rest, end + 1);
        assert(path::spans_from(whole, from) =~= path::spans_from(base, from) + tail);
    } else {
        assert(path::spans_from(base, end + 1) =~= seq![]);
        assert(path::spans_from(whole, from) =~= path::spans_from(base, from) + tail);
    }
}

/// Where the two components of `changelog.d/<name>` stand in a path that ends so.
pub(crate) proof fn lemma_changelog_spans(before: Seq<char>, name: Seq<char>)
    requires
        name.len() > 0,
        !name.contains('/'),
        name != "."@,
    ensures
        ({
            let n = before.len() as int;
            path::spans_from(before + (check::CHANGELOG_DIR@ + "/"@ + name), n) == seq![
                (n, n + 11),
                (n + 12, n + 12 + name.len()),
            ]
        }),
{
    reveal_strlit("/");
    reveal_strlit("changelog.d");
    reveal_strlit(".");
    let dir = check::CHANGELOG_DIR@;
    let whole = before + (dir + "/"@ + name);
    let n = before.len() as int;
    assert(whole.skip(n) =~= dir + seq!['/'] + name);
    lemma_index_of_first(dir, '/', name);
    assert(whole.subrange(n, n + 11) =~= dir);
    assert(whole.skip(n + 12) =~= name);
    lemma_index_of_absent(name, '/');
    assert(whole.subrange(n + 12, n + 12 + name.len()) =~= name);
    assert(path::spans_from(whole, n + 13 + name.len()) =~= seq![]);
    assert(path::spans_from(whole, n + 12) =~= seq![(n + 12, n + 12 + name.len())]);
    assert(path::spans_from(whole, n) =~= seq![(n, n + 11), (n + 12, n + 12 + name.len())]);
}

/// The path of a file that stands directly in the directory for fragments is taken apart into
/// that directory and the name.
pub proof fn law_changelog_path(name: Seq<char>)
    requires
        name.len() > 0,
        !name.contains('/'),
        name != "."@,
        name != ".."@,
    ensures
        path::file_name_spec(check::CHANGELOG_DIR@ + "/"@ + name) == Some(name),
        path::parent_is_spec(check::CHANGELOG_DIR@ + "/"@ + name, check::CHANGELOG_DIR@),
{
    reveal_strlit("/");
    reveal_strlit("changelog.d");
    reveal_strlit(".");
    let dir = check::CHANGELOG_DIR@;
    let whole = dir + "/"@ + name;
    let none: Seq<char> = seq![];
    lemma_changelog_spans(none, name);
    assert(none + whole =~= whole);
    assert(path::piece(whole, (0, 11)) =~= dir);
    assert(path::piece(whole, (12, 12 + name.len() as int)) =~= name);
    assert(path::components(whole) =~= seq![dir, name]);
    assert(name != "/"@) by {
        if name == "/"@ {
            assert(name[0] == '/');
        }
    }
    assert(dir.skip(0) =~= dir);
    lemma_index_of_absent(dir, '/');
    assert(path::spans_from(dir, 12) =~= seq![]);
    assert(dir.subrange(0, 11) =~= dir);
    assert(path::spans(dir) =~= seq![(0int, 11int)]);
    assert(path::components(dir) =~= seq![dir]);
    assert(path::components(whole).drop_last() =~= path::components(dir));
}

pub(crate) proof fn lemma_file_name_has_no_slash(slug: Seq<char>, fragment_type: Seq<char>)
    requires
        !slug.contains('/'),
        !fragment_type.contains('/'),
    ensures
        !scaffold::fragment_file_name(slug, fragment_type).contains('/'),
{
    reveal_strlit(".");
    reveal_strlit(".md");
    let name = scaffold::fragment_file_name(slug, fragment_type);
    if name.contains('/') {
        let j = choose|j: int| 0 <= j < name.len() && name[j] == '/';
        let a = slug.len();
        let b = fragment_type.len();
        if j < a {
            assert(slug[j] == '/');
        } else if a < j <= a + b {
            assert(fragment_type[j - a - 1] == '/');
        }
    }
}

/// Paths are put below one another as on Unix.
pub open spec fn joins_as_on_unix<J: Fn(&str, &str) -> String>(join: J) -> bool {
    forall|base: Seq<char>, rest: Seq<char>, joined: Seq<char>| #[trigger]
        path::join_gives(join, base, rest, joined) ==> joined == path::join_path_spec(base, rest)
}

/// A base is taken off a path as on Unix.
pub open spec fn strips_as_on_unix<S: Fn(&str, &str) -> Option<String>>(strip: S) -> bool {
    forall|path: Seq<char>, base: Seq<char>, out: Option<Seq<char>>| #[trigger]
        path::strip_gives(strip, path, base, out) ==> out == path::strip_prefix_spec(path, base)
}

/// The file that the scaffolder writes, as seen from the root of the repository, is
/// `changelog.d/<slug>.<fragment_type>.md` where paths are those of Unix.
pub proof fn law_scaffolded_path<J: Fn(&str, &str) -> String, S: Fn(&str, &str) -> Option<String>>(
    cli: scaffold::Cli,
    repo_root: Seq<char>,
    join: J,
    strip: S,
    file: Seq<char>,
    shown: Seq<char>,
)
    requires
        joins_as_on_unix(join),
        strips_as_on_unix(strip),
        !cli.slug@.contains('/'),
        !cli.fragment_type@.contains('/'),
        scaffold::target_outcome(cli, repo_root, join, file),
        path::relative_outcome(strip, repo_root, file, shown),
    ensures
        shown == check::CHANGELOG_DIR@ + "/"@ + scaffold::fragment_file_name(
            cli.slug@,
            cli.fragment_type@,
        ),
{
    reveal_strlit("/");
    reveal_strlit("changelog.d");
    reveal_strlit(".");
    reveal_strlit(".md");
    let dir = check::CHANGELOG_DIR@;
    let name = scaffold::fragment_file_name(cli.slug@, cli.fragment_type@);
    let rest = dir + "/"@ + name;
    let target = path::join_path_spec(path::join_path_spec(repo_root, dir), name);
    assert(file == target);
    lemma_file_name_has_no_slash(cli.slug@, cli.fragment_type@);
    assert(name[0] != '/');
    if repo_root.len() == 0 {
        let none: Seq<char> = seq![];
        lemma_changelog_spans(none, name);
        assert(target =~= rest);
        assert(none + rest =~= rest);
        assert(path::spans(repo_root) =~= seq![]);
        assert(path::components(repo_root) =~= seq![]);
        assert(path::components(repo_root) =~= path::components(rest).subrange(0, 0));
        assert(rest.subrange(0, rest.len() as int) =~= rest);
    } else {
        let base = if repo_root.last() == '/' {
            repo_root.drop_last()
        } else {
            repo_root
        };
        let n = base.len() as int;
        assert(target =~= base + "/"@ + rest);
        assert(target =~= (base + "/"@) + rest);
        lemma_spans_continue(base, rest, 0);
        lemma_changelog_spans(base + "/"@, name);
        let tail = seq![(n + 1, n + 12), (n + 13, n + 13 + name.len())];
        assert(path::spans_from(target, 0) =~= path::spans_from(base, 0) + tail);
        assert(path::spans_from(repo_root, 0) =~= path::spans_from(base, 0)) by {
            if repo_root.last() == '/' {
                let none: Seq<char> = seq![];
                assert(repo_root =~= base + "/"@ + none);
                lemma_spans_continue(base, none, 0);
                assert(path::spans_from(repo_root, n + 1) =~= seq![]);
            }
        }
        assert(target[0] == repo_root[0]);
        assert(path::spans(target) =~= path::spans(repo_root) + tail);
        path::lemma_spans(repo_root);
        let c = path::components(repo_root);
        assert forall|k: int| 0 <= k < c.len() implies c[k] == path::components(target)[k] by {
            let span = path::spans(repo_root)[k];
            assert(path::spans(target)[k] == span);
            assert(path::piece(repo_root, span) =~= path::piece(target, span));
        }
        assert(c =~= path::components(target).subrange(0, c.len() as int));
        assert(target.subrange(n + 1, n + 13 + name.len()) =~= rest);
    }
}

/// A scaffolded fragment of any type but `breaking` passes the check as it was written, where its
/// author was found and its slug holds neither a dot nor a slash.
pub proof fn law_scaffolded_fragment_passes<
    R: Fn(&str) -> Result<String, String>,
    P: Fn(&str) -> Parsed,
>(
    read: R,
    parse: P,
    slug: Seq<char>,
    fragment_type: Seq<char>,
    author: Seq<char>,
    outcome: check::Outcome,
)
    requires
        error::fragment_types_spec().contains(fragment_type),
        fragment_type != "breaking"@,
        !slug.contains('.'),
        !slug.contains('/'),
        !author.contains('\n'),
        fragment::names_verdict(text::trimmed(author)) == Verdict::Ok(()),
        ({
            let path = check::CHANGELOG_DIR@ + "/"@ + scaffold::fragment_file_name(
                slug,
                fragment_type,
            );
            &&& forall|out: Result<Seq<char>, Seq<char>>| #[trigger]
                check::read_gives(read, path, out) ==> out == Ok::<_, Seq<char>>(
                    scaffold::template(fragment_type, author),
                )
            &&& check::path_outcome(read, parse, path, outcome)
        }),
    ensures
        outcome == check::Outcome::Ok(()),
{
    reveal_strlit(".");
    reveal_strlit("..");
    reveal_strlit(".md");
    reveal_strlit("README.md");
    let name = scaffold::fragment_file_name(slug, fragment_type);
    let path = check::CHANGELOG_DIR@ + "/"@ + name;
    lemma_types_have_no_dot(fragment_type);
    lemma_file_name_has_no_slash(slug, fragment_type);
    assert(name.len() > 2);
    law_changelog_path(name);
    law_scaffolded_name(slug, fragment_type);
    law_scaffolded_author(fragment_type, author);
    assert(name != "README.md"@) by {
        if name == "README.md"@ {
            let readme = "README"@;
            reveal_strlit("README");
            reveal_strlit("md");
            assert(name =~= readme + seq!['.'] + "md"@);
            lemma_fields_split(readme, '.', "md"@);
            lemma_fields_len(readme, '.');
            lemma_fields_len("md"@, '.');
            assert(text::fields(name, '.').len() == 2);
        }
    }
    let out = choose|out: Result<Seq<char>, Seq<char>>| #[trigger]
        check::read_gives(read, path, out) && check::read_outcome(
            parse,
            out,
            name,
            fragment_type,
            outcome,
        );
    assert(check::read_gives(read, path, out));
}

} // verus!
