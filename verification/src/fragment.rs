//! What a changelog fragment has to look like: its file name, its authors line and, for a
//! breaking change, its frontmatter and its sections.

use vstd::prelude::*;

use crate::error;
use crate::error::{fragment_types, FragmentError, Problem};
use crate::text;
use crate::text::{
    any_same, chars_of, find_text, has_char, join_texts, same_text, split_fields, split_lines,
    split_raw_lines, split_words, starts_with, strip_prefix, trim,
};

verus! {

/// What the scaffolder writes for an author that it could not find out.
pub const TODO_HANDLE: &'static str = "TODO_your_gh_handle";

/// The line that opens the summary of a breaking fragment.
pub const SUMMARY_HEADER: &'static str = "## Summary";

/// The line that opens the migration notes of a breaking fragment.
pub const MIGRATION_HEADER: &'static str = "## Migration";

/// Frontmatter of a breaking fragment.
///
/// Full file layout:
///
/// ```text
/// ---
/// title: "..."
/// anchor: "..."   # optional
/// ---
///
/// ## Summary
///
/// <markdown: one paragraph, lands in the release changelog list>
///
/// ## Migration
///
/// <markdown: "Action needed" body for the upgrade guide, or "N/A">
///
/// authors: <name> [<name> ...]
/// ```
///
/// Prose lives under headers so it can be plain markdown (fenced code blocks, sub-headings,
/// lists). `T` is how text is held: a `String`, or the characters alone in contracts.
#[derive(Debug)]
pub struct BreakingFrontmatter<T = String> {
    /// Section heading in the generated upgrade guide.
    pub title: T,
    /// Stable anchor slug. The generator derives one from `title` when it is left out.
    pub anchor: Option<T>,
}

impl View for BreakingFrontmatter<String> {
    type V = BreakingFrontmatter<Seq<char>>;

    open spec fn view(&self) -> BreakingFrontmatter<Seq<char>> {
        BreakingFrontmatter {
            title: self.title@,
            anchor: match self.anchor {
                Some(a) => Some(a@),
                None => None,
            },
        }
    }
}

/// The body of a breaking fragment in that layout.
pub open spec fn layout_body(
    summary: Seq<char>,
    migration: Seq<char>,
    names: Seq<char>,
) -> Seq<char> {
    "\n## Summary\n\n"@ + summary + "\n\n## Migration\n\n"@ + migration + "\n\nauthors: "@ + names
        + "\n"@
}

/// A breaking fragment in that layout.
pub open spec fn layout(
    yaml: Seq<char>,
    summary: Seq<char>,
    migration: Seq<char>,
    names: Seq<char>,
) -> Seq<char> {
    "---\n"@ + yaml + "\n---\n"@ + layout_body(summary, migration, names)
}

/// What came of reading frontmatter, or why it could not be read.
pub type Parsed = Result<BreakingFrontmatter<String>, String>;

/// What came of reading frontmatter, as contracts speak of it.
pub type ParsedView = Result<BreakingFrontmatter<Seq<char>>, Seq<char>>;

/// What is found of a fragment: that all is well, or the first problem.
pub type Verdict = Result<(), Problem<Seq<char>>>;

/// What is found of a file name: the fragment type that it tells, or the first problem.
pub type NameVerdict = Result<Seq<char>, Problem<Seq<char>>>;

/// The characters of what came of reading frontmatter.
pub open spec fn parsed_view(parsed: Parsed) -> ParsedView {
    match parsed {
        Ok(frontmatter) => Ok(frontmatter@),
        Err(cause) => Err(cause@),
    }
}

/// The function returns what was found of the file named so.
pub open spec fn reports(
    result: Result<(), FragmentError<String>>,
    filename: Seq<char>,
    verdict: Verdict,
) -> bool {
    match verdict {
        Ok(()) => result is Ok,
        Err(problem) => result matches Err(error) && error@ == (FragmentError {
            filename,
            problem,
        }),
    }
}

// ---------------------------------------------------------------------------------------------
// File names
// ---------------------------------------------------------------------------------------------
/// What is found of a file name: `<unique_name>.<fragment_type>.md` gives the fragment type.
pub open spec fn filename_verdict(filename: Seq<char>) -> NameVerdict {
    let parts = text::fields(filename, '.');
    if parts.len() != 3 {
        Err(Problem::FilenameShape)
    } else if !error::fragment_types_spec().contains(parts[1]) {
        Err(Problem::FragmentType)
    } else if parts[2] != "md"@ {
        Err(Problem::Extension)
    } else {
        Ok(parts[1])
    }
}

/// The fragment type that a file name tells.
pub fn validate_filename(filename: &str) -> (result: Result<&'static str, FragmentError<String>>)
    ensures
        match filename_verdict(filename@) {
            Ok(fragment_type) => result matches Ok(known) && known@ == fragment_type,
            Err(problem) => result matches Err(error) && error@ == (FragmentError {
                filename: filename@,
                problem,
            }),
        },
{
    let parts = split_fields(filename, '.');
    if parts.len() != 3 {
        return Err(
            FragmentError { filename: filename.to_owned(), problem: Problem::FilenameShape },
        );
    }
    let types = fragment_types();
    let ghost wanted = text::texts(parts@)[1];
    let mut i: usize = 0;
    while i < types.len()
        invariant
            i <= types@.len(),
            parts@.len() == 3,
            wanted == text::texts(parts@)[1],
            text::texts(types@) == error::fragment_types_spec(),
            text::texts(parts@) == text::fields(filename@, '.'),
            forall|j: int| 0 <= j < i ==> text::texts(types@)[j] != wanted,
        decreases types@.len() - i,
    {
        if same_text(types[i], parts[1]) {
            assert(text::texts(types@)[i as int] == wanted);
            if !same_text(parts[2], "md") {
                return Err(
                    FragmentError { filename: filename.to_owned(), problem: Problem::Extension },
                );
            }
            return Ok(types[i]);
        }
        i = i + 1;
    }
    Err(FragmentError { filename: filename.to_owned(), problem: Problem::FragmentType })
}

// ---------------------------------------------------------------------------------------------
// Authors
// ---------------------------------------------------------------------------------------------
/// The last line of a text; the empty line where there is none.
pub open spec fn last_line(content: Seq<char>) -> Seq<char> {
    let all = text::lines(content);
    if all.len() == 0 {
        seq![]
    } else {
        all.last()
    }
}

/// A line that tells the authors.
pub open spec fn is_authors_line(line: Seq<char>) -> bool {
    "authors: "@.is_prefix_of(line)
}

/// What is found of the names on the authors line.
pub open spec fn names_verdict(names: Seq<char>) -> Verdict {
    if names.len() == 0 {
        Err(Problem::NoAuthors)
    } else if names.contains('@') {
        Err(Problem::AtSign)
    } else if names.contains(',') {
        Err(Problem::Comma)
    } else if text::words(names).contains(TODO_HANDLE@) {
        Err(Problem::TodoHandle)
    } else {
        Ok(())
    }
}

/// What is found of the authors line, which is the last line of a fragment.
pub open spec fn authors_verdict(content: Seq<char>) -> Verdict {
    let last = last_line(content);
    if is_authors_line(last) {
        names_verdict(text::trimmed(last.skip("authors: "@.len() as int)))
    } else {
        Err(Problem::AuthorsLine)
    }
}

/// Checks the authors line of a fragment. It has to be the last line: no blank lines may follow.
pub fn validate_authors(content: &str, filename: &str) -> (result: Result<
    (),
    FragmentError<String>,
>)
    ensures
        reports(result, filename@, authors_verdict(content@)),
{
    let all = split_lines(content);
    let last: &str = if all.len() == 0 {
        ""
    } else {
        all[all.len() - 1]
    };
    proof {
        reveal_strlit("");
        assert(last@ =~= last_line(content@));
    }
    let names = match strip_prefix(last, "authors: ") {
        Some(rest) => trim(rest),
        None => {
            return Err(
                FragmentError { filename: filename.to_owned(), problem: Problem::AuthorsLine },
            );
        },
    };
    let problem = if names.is_empty() {
        Problem::NoAuthors
    } else if has_char(names, '@') {
        Problem::AtSign
    } else if has_char(names, ',') {
        Problem::Comma
    } else if any_same(&split_words(names), TODO_HANDLE) {
        Problem::TodoHandle
    } else {
        return Ok(());
    };
    Err(FragmentError { filename: filename.to_owned(), problem })
}

// ---------------------------------------------------------------------------------------------
// Frontmatter
// ---------------------------------------------------------------------------------------------
/// The YAML between the two delimiters that a breaking fragment begins with, and the text after
/// the second one.
pub open spec fn frontmatter_split(content: Seq<char>) -> Result<
    (Seq<char>, Seq<char>),
    Problem<Seq<char>>,
> {
    let rest = content.skip("---\n"@.len() as int);
    if !"---\n"@.is_prefix_of(content) {
        Err(Problem::NoFrontmatter)
    } else if !text::contains_text(rest, "\n---\n"@) {
        Err(Problem::UnclosedFrontmatter)
    } else {
        let i = choose|i: int| text::first_at(rest, "\n---\n"@, i);
        Ok((rest.take(i), rest.skip(i + "\n---\n"@.len())))
    }
}

/// Splits a breaking fragment into the YAML of its frontmatter and its body.
pub fn split_frontmatter<'a>(content: &'a str) -> (result: Result<
    (&'a str, &'a str),
    Problem<String>,
>)
    ensures
        match frontmatter_split(content@) {
            Ok(parts) => result matches Ok((yaml, body)) && (yaml@, body@) == parts,
            Err(problem) => result matches Err(found) && found@ == problem,
        },
{
    let rest = match strip_prefix(content, "---\n") {
        Some(rest) => rest,
        None => {
            return Err(Problem::NoFrontmatter);
        },
    };
    match find_text(rest, "\n---\n") {
        None => Err(Problem::UnclosedFrontmatter),
        Some(i) => {
            let n = rest.unicode_len();
            let d = "\n---\n".unicode_len();
            proof {
                let k = choose|k: int| text::first_at(rest@, "\n---\n"@, k);
                text::lemma_first_at_unique(rest@, "\n---\n"@, i as int, k);
                assert(rest@.subrange(0, i as int) == rest@.take(i as int));
                assert(rest@.subrange(i + d, n as int) == rest@.skip(i + d));
            }
            Ok((rest.substring_char(0, i), rest.substring_char(i + d, n)))
        },
    }
}

/// A lowercase kebab-case slug.
pub open spec fn is_slug(anchor: Seq<char>) -> bool {
    &&& anchor.len() > 0
    &&& forall|i: int|
        0 <= i < anchor.len() ==> {
            ||| 'a' <= #[trigger] anchor[i] <= 'z'
            ||| '0' <= anchor[i] <= '9'
            ||| anchor[i] == '-'
        }
    &&& anchor[0] != '-'
    &&& anchor.last() != '-'
}

/// The anchor is a lowercase kebab-case slug: letters `a` to `z`, digits and hyphens, with no
/// hyphen at either end.
pub fn is_valid_anchor(anchor: &str) -> (valid: bool)
    ensures
        valid == is_slug(anchor@),
{
    let v = chars_of(anchor);
    if v.len() == 0 {
        return false;
    }
    let mut i: usize = 0;
    while i < v.len()
        invariant
            v@ == anchor@,
            i <= v@.len(),
            forall|j: int|
                0 <= j < i ==> {
                    ||| 'a' <= #[trigger] v@[j] <= 'z'
                    ||| '0' <= v@[j] <= '9'
                    ||| v@[j] == '-'
                },
        decreases v@.len() - i,
    {
        let c = v[i];
        if !(('a' <= c && c <= 'z') || ('0' <= c && c <= '9') || c == '-') {
            return false;
        }
        i = i + 1;
    }
    v[0] != '-' && v[v.len() - 1] != '-'
}

/// What is found of the frontmatter.
pub open spec fn frontmatter_verdict(frontmatter: BreakingFrontmatter<Seq<char>>) -> Verdict {
    if text::is_blank(frontmatter.title) {
        Err(Problem::EmptyTitle)
    } else if text::contains_text(frontmatter.title, "TODO"@) {
        Err(Problem::TodoTitle)
    } else {
        match frontmatter.anchor {
            Some(anchor) if !is_slug(anchor) => Err(Problem::Anchor { anchor }),
            _ => Ok(()),
        }
    }
}

/// Checks the title and the anchor of a breaking fragment.
pub fn validate_frontmatter(frontmatter: &BreakingFrontmatter<String>, filename: &str) -> (result:
    Result<(), FragmentError<String>>)
    ensures
        reports(result, filename@, frontmatter_verdict(frontmatter@)),
{
    proof {
        text::lemma_trimmed_blank(frontmatter.title@);
    }
    if trim(frontmatter.title.as_str()).is_empty() {
        return Err(FragmentError { filename: filename.to_owned(), problem: Problem::EmptyTitle });
    }
    if find_text(frontmatter.title.as_str(), "TODO").is_some() {
        return Err(FragmentError { filename: filename.to_owned(), problem: Problem::TodoTitle });
    }
    if let Some(anchor) = &frontmatter.anchor {
        if !is_valid_anchor(anchor.as_str()) {
            return Err(
                FragmentError {
                    filename: filename.to_owned(),
                    problem: Problem::Anchor { anchor: anchor.as_str().to_owned() },
                },
            );
        }
    }
    Ok(())
}

// ---------------------------------------------------------------------------------------------
// Sections
// ---------------------------------------------------------------------------------------------
/// A line that opens or closes a fenced code block.
pub open spec fn is_fence(line: Seq<char>) -> bool {
    "```"@.is_prefix_of(line)
}

/// How many of the lines open or close a fenced code block.
pub open spec fn fence_count(lines: Seq<Seq<char>>) -> nat
    decreases lines.len(),
{
    if lines.len() == 0 {
        0
    } else {
        fence_count(lines.drop_last()) + if is_fence(lines.last()) {
            1nat
        } else {
            0nat
        }
    }
}

/// Line `i` is the header, and it stands outside of every fenced code block.
pub open spec fn is_header_line(lines: Seq<Seq<char>>, header: Seq<char>, i: int) -> bool {
    &&& 0 <= i < lines.len()
    &&& lines[i] == header
    &&& !is_fence(lines[i])
    &&& fence_count(lines.take(i)) % 2 == 0
}

/// The first line from `from` on that is the header outside of every fenced code block.
pub open spec fn header_line_from(lines: Seq<Seq<char>>, header: Seq<char>, from: int) -> Option<
    int,
>
    decreases lines.len() - from,
{
    if from >= lines.len() {
        None
    } else if is_header_line(lines, header, from) {
        Some(from)
    } else {
        header_line_from(lines, header, from + 1)
    }
}

/// How many characters come before line `i`, line feeds included.
pub open spec fn line_start(lines: Seq<Seq<char>>, i: int) -> int
    decreases i,
{
    if i <= 0 {
        0
    } else {
        line_start(lines, i - 1) + lines[i - 1].len() + 1
    }
}

/// Where the header stands in a text, as a number of characters: at the beginning of the first
/// line that is the header and that no fenced code block holds.
pub open spec fn header_position(body: Seq<char>, header: Seq<char>) -> Option<int> {
    let all = text::raw_lines(body);
    match header_line_from(all, header, 0) {
        Some(i) => Some(line_start(all, i)),
        None => None,
    }
}

pub(crate) proof fn lemma_line_start_shift(lines: Seq<Seq<char>>, i: int)
    requires
        1 <= i <= lines.len(),
    ensures
        line_start(lines, i) == lines[0].len() + 1 + line_start(lines.skip(1), i - 1),
    decreases i,
{
    if i == 1 {
        assert(line_start(lines, 0) == 0);
    } else {
        lemma_line_start_shift(lines, i - 1);
        assert(lines.skip(1)[i - 2] == lines[i - 1]);
    }
}

/// Line `i` of a text stands in the text, `line_start` characters from its beginning.
pub(crate) proof fn lemma_raw_line(s: Seq<char>, i: int)
    requires
        0 <= i < text::raw_lines(s).len(),
    ensures
        0 <= line_start(text::raw_lines(s), i),
        text::occurs_at(s, text::raw_lines(s)[i], line_start(text::raw_lines(s), i)),
    decreases s.len(),
{
    let all = text::raw_lines(s);
    let n = text::index_of(s, '\n');
    text::lemma_index_of(s, '\n');
    if n < s.len() {
        let rest = s.skip(n + 1);
        assert(all.skip(1) == text::raw_lines(rest));
        if i == 0 {
            assert(s.subrange(0, n) == all[0]);
        } else {
            lemma_raw_line(rest, i - 1);
            lemma_line_start_shift(all, i);
            let p = line_start(text::raw_lines(rest), i - 1);
            let len = all[i].len();
            assert(all[i] == text::raw_lines(rest)[i - 1]);
            assert(s.subrange(n + 1 + p, n + 1 + p + len) == rest.subrange(p, p + len));
        }
    } else {
        assert(s.subrange(0, s.len() as int) == s);
    }
}

pub(crate) proof fn lemma_header_line_from(lines: Seq<Seq<char>>, header: Seq<char>, from: int)
    requires
        0 <= from,
    ensures
        match header_line_from(lines, header, from) {
            Some(i) => from <= i && is_header_line(lines, header, i) && forall|j: int|
                from <= j < i ==> !is_header_line(lines, header, j),
            None => forall|j: int| from <= j ==> !is_header_line(lines, header, j),
        },
    decreases lines.len() - from,
{
    if from < lines.len() && !is_header_line(lines, header, from) {
        lemma_header_line_from(lines, header, from + 1);
    }
}

/// The header is what a text holds at the header's position.
pub(crate) proof fn lemma_header_position(body: Seq<char>, header: Seq<char>)
    ensures
        header_position(body, header) matches Some(p) ==> text::occurs_at(body, header, p),
{
    let all = text::raw_lines(body);
    lemma_header_line_from(all, header, 0);
    if let Some(i) = header_line_from(all, header, 0) {
        lemma_raw_line(body, i);
    }
}

/// Where the header stands in a text, as a number of characters.
fn header_char_position(body: &str, header: &str) -> (at: Option<usize>)
    ensures
        match header_position(body@, header@) {
            Some(p) => at matches Some(i) && i == p,
            None => at is None,
        },
{
    let all = split_raw_lines(body);
    let ghost ls = text::texts(all@);
    let length = body.unicode_len();
    let mut offset: usize = 0;
    let mut in_fence: bool = false;
    let mut i: usize = 0;
    assert(ls.take(0) =~= seq![]);
    while i < all.len()
        invariant
            ls == text::texts(all@),
            ls == text::raw_lines(body@),
            length == body@.len(),
            i <= all@.len(),
            i < all@.len() ==> offset == line_start(ls, i as int),
            in_fence == (fence_count(ls.take(i as int)) % 2 != 0),
            header_line_from(ls, header@, i as int) == header_line_from(ls, header@, 0),
        decreases all@.len() - i,
    {
        let line = all[i];
        assert(line@ == ls[i as int]);
        assert(ls.take(i + 1).drop_last() == ls.take(i as int));
        assert(ls.take(i + 1).last() == line@);
        if starts_with(line, "```") {
            in_fence = !in_fence;
        } else if !in_fence && same_text(line, header) {
            return Some(offset);
        }
        if i + 1 < all.len() {
            proof {
                lemma_raw_line(body@, i + 1);
            }
            offset = offset + line.unicode_len() + 1;
        }
        i = i + 1;
    }
    None
}

/// Where the header stands in a text, as a number of bytes.
pub open spec fn header_offset(body: Seq<char>, header: Seq<char>) -> Option<int> {
    match header_position(body, header) {
        Some(p) => Some(vstd::utf8::encode_utf8(body.take(p)).len() as int),
        None => None,
    }
}

/// Where the header stands in a text, as a number of bytes. A header counts only where it starts
/// at column 0 and stands outside of every fenced code block; any line that starts with three
/// backticks opens or closes one.
pub fn find_header(body: &str, header: &str) -> (offset: Option<usize>)
    ensures
        match header_offset(body@, header@) {
            Some(p) => offset matches Some(n) && n == p,
            None => offset is None,
        },
{
    match header_char_position(body, header) {
        Some(p) => {
            proof {
                lemma_header_position(body@, header@);
                assert(body@.subrange(0, p as int) == body@.take(p as int));
            }
            Some(body.substring_char(0, p).as_bytes().len())
        },
        None => None,
    }
}

/// The lines without the one that tells the authors, which is the last one.
pub open spec fn without_authors(lines: Seq<Seq<char>>) -> Seq<Seq<char>> {
    if lines.len() > 0 && is_authors_line(lines.last()) {
        lines.drop_last()
    } else {
        lines
    }
}

/// The part of a body that the sections stand in: up to but not including the trailing line that
/// tells the authors.
pub open spec fn sections_text(body: Seq<char>) -> Seq<char> {
    text::join(without_authors(text::lines(body)), "\n"@)
}

/// What is found of the sections: a summary and then migration notes, neither of them blank.
pub open spec fn sections_verdict(body: Seq<char>) -> Verdict {
    let sections = sections_text(body);
    match (
        header_position(sections, SUMMARY_HEADER@),
        header_position(sections, MIGRATION_HEADER@),
    ) {
        (None, _) => Err(Problem::MissingSummary),
        (Some(_), None) => Err(Problem::MissingMigration),
        (Some(s), Some(m)) => if m < s {
            Err(Problem::SectionOrder)
        } else if text::is_blank(sections.subrange(s + SUMMARY_HEADER@.len(), m)) {
            Err(Problem::EmptySummary)
        } else if text::is_blank(sections.skip(m + MIGRATION_HEADER@.len())) {
            Err(Problem::EmptyMigration)
        } else {
            Ok(())
        },
    }
}

/// The lines of a body without the trailing one that tells the authors, with a line feed between
/// every two.
fn text_before_authors(body: &str) -> (sections: String)
    ensures
        sections@ == sections_text(body@),
{
    let mut kept = split_lines(body);
    let ghost all = text::texts(kept@);
    if kept.len() > 0 && starts_with(kept[kept.len() - 1], "authors: ") {
        kept.pop();
        assert(text::texts(kept@) =~= all.drop_last());
    }
    join_texts(&kept, "\n")
}

/// A line begins after every line before it has ended.
pub(crate) proof fn lemma_line_start_monotone(lines: Seq<Seq<char>>, i: int, k: int)
    requires
        0 <= i < k <= lines.len(),
    ensures
        line_start(lines, i) + lines[i].len() + 1 <= line_start(lines, k),
    decreases k,
{
    if i + 1 < k {
        lemma_line_start_monotone(lines, i, k - 1);
    }
}

/// Two different headers do not overlap.
pub(crate) proof fn lemma_headers_apart(body: Seq<char>, first: Seq<char>, second: Seq<char>)
    requires
        first != second,
    ensures
        match (header_position(body, first), header_position(body, second)) {
            (Some(p), Some(q)) => p < q ==> p + first.len() < q,
            _ => true,
        },
        header_position(body, first) is Some ==> header_position(body, first) != header_position(
            body,
            second,
        ),
{
    let all = text::raw_lines(body);
    lemma_header_line_from(all, first, 0);
    lemma_header_line_from(all, second, 0);
    if let (Some(i), Some(k)) = (
        header_line_from(all, first, 0),
        header_line_from(all, second, 0),
    ) {
        if i < k {
            lemma_line_start_monotone(all, i, k);
        } else {
            lemma_line_start_monotone(all, k, i);
        }
    }
}

/// Checks the sections of a breaking fragment: up to but not including the trailing authors line,
/// its body has to hold a summary and then migration notes, each with something in it.
pub fn validate_sections(body: &str, filename: &str) -> (result: Result<(), FragmentError<String>>)
    ensures
        reports(result, filename@, sections_verdict(body@)),
{
    let owned = text_before_authors(body);
    let sections = owned.as_str();
    let summary_start = match header_char_position(sections, SUMMARY_HEADER) {
        Some(p) => p,
        None => {
            return Err(
                FragmentError { filename: filename.to_owned(), problem: Problem::MissingSummary },
            );
        },
    };
    let migration_start = match header_char_position(sections, MIGRATION_HEADER) {
        Some(p) => p,
        None => {
            return Err(
                FragmentError { filename: filename.to_owned(), problem: Problem::MissingMigration },
            );
        },
    };
    if migration_start < summary_start {
        return Err(
            FragmentError { filename: filename.to_owned(), problem: Problem::SectionOrder },
        );
    }
    let end = sections.unicode_len();
    proof {
        reveal_strlit("## Summary");
        reveal_strlit("## Migration");
        lemma_headers_apart(sections@, SUMMARY_HEADER@, MIGRATION_HEADER@);
        lemma_header_position(sections@, SUMMARY_HEADER@);
        lemma_header_position(sections@, MIGRATION_HEADER@);
    }
    let summary_body = sections.substring_char(
        summary_start + SUMMARY_HEADER.unicode_len(),
        migration_start,
    );
    let migration_body = sections.substring_char(
        migration_start + MIGRATION_HEADER.unicode_len(),
        end,
    );
    proof {
        text::lemma_trimmed_blank(summary_body@);
        text::lemma_trimmed_blank(migration_body@);
        assert(migration_body@ == sections@.skip(migration_start + MIGRATION_HEADER@.len()));
    }
    if trim(summary_body).is_empty() {
        return Err(
            FragmentError { filename: filename.to_owned(), problem: Problem::EmptySummary },
        );
    }
    if trim(migration_body).is_empty() {
        return Err(
            FragmentError { filename: filename.to_owned(), problem: Problem::EmptyMigration },
        );
    }
    Ok(())
}

// ---------------------------------------------------------------------------------------------
// Breaking fragments, and fragments of any type
// ---------------------------------------------------------------------------------------------
/// What is found of a breaking fragment whose frontmatter came out as `parsed`.
pub open spec fn parsed_verdict(parsed: ParsedView, body: Seq<char>) -> Verdict {
    match parsed {
        Err(cause) => Err(Problem::Yaml { cause }),
        Ok(frontmatter) => match frontmatter_verdict(frontmatter) {
            Err(problem) => Err(problem),
            Ok(()) => sections_verdict(body),
        },
    }
}

/// Checks a breaking fragment from what came of reading its frontmatter on.
pub fn validate_parsed(parsed: Parsed, body: &str, filename: &str) -> (result: Result<
    (),
    FragmentError<String>,
>)
    ensures
        reports(result, filename@, parsed_verdict(parsed_view(parsed), body@)),
{
    match parsed {
        Err(cause) => Err(
            FragmentError { filename: filename.to_owned(), problem: Problem::Yaml { cause } },
        ),
        Ok(frontmatter) => {
            match validate_frontmatter(&frontmatter, filename) {
                Err(error) => Err(error),
                Ok(()) => validate_sections(body, filename),
            }
        },
    }
}

/// `parse` can return `out` when it is given the YAML text `yaml`.
pub open spec fn parse_gives<P: Fn(&str) -> Parsed>(
    parse: P,
    yaml: Seq<char>,
    out: ParsedView,
) -> bool {
    exists|y: &str, parsed: Parsed|
        y@ == yaml && #[trigger] call_ensures(parse, (y,), parsed) && parsed_view(parsed) == out
}

/// What can be found of a breaking fragment that consists of the YAML text and the body.
pub open spec fn parsed_outcome<P: Fn(&str) -> Parsed>(
    parse: P,
    yaml: Seq<char>,
    body: Seq<char>,
    verdict: Verdict,
) -> bool {
    exists|parsed: ParsedView| #[trigger]
        parse_gives(parse, yaml, parsed) && verdict == parsed_verdict(parsed, body)
}

/// What can be found of a breaking fragment. It rests on what `parse` makes of the YAML between
/// the delimiters, and only where there is such YAML.
pub open spec fn breaking_outcome<P: Fn(&str) -> Parsed>(
    parse: P,
    content: Seq<char>,
    verdict: Verdict,
) -> bool {
    match frontmatter_split(content) {
        Err(problem) => verdict == Verdict::Err(problem),
        Ok((yaml, body)) => parsed_outcome(parse, yaml, body, verdict),
    }
}

/// Checks a breaking fragment. `parse` reads the YAML of the frontmatter.
pub fn validate_breaking_fragment<P: Fn(&str) -> Parsed>(
    content: &str,
    filename: &str,
    parse: &P,
) -> (result: Result<(), FragmentError<String>>)
    requires
        forall|yaml: &str| call_requires(*parse, (yaml,)),
    ensures
        exists|verdict: Verdict| #[trigger]
            breaking_outcome(*parse, content@, verdict) && reports(result, filename@, verdict),
{
    match split_frontmatter(content) {
        Err(problem) => {
            let ghost verdict: Verdict = Err(problem@);
            assert(breaking_outcome(*parse, content@, verdict));
            Err(FragmentError { filename: filename.to_owned(), problem })
        },
        Ok((yaml, body)) => {
            let parsed = parse(yaml);
            let ghost out = parsed_view(parsed);
            assert(parse_gives(*parse, yaml@, out));
            assert(frontmatter_split(content@) == Ok::<_, Problem<Seq<char>>>((yaml@, body@)));
            let ghost verdict = parsed_verdict(out, body@);
            assert(parsed_outcome(*parse, yaml@, body@, verdict));
            assert(breaking_outcome(*parse, content@, verdict));
            validate_parsed(parsed, body, filename)
        },
    }
}

/// What can be found of the contents of a fragment.
pub open spec fn contents_outcome<P: Fn(&str) -> Parsed>(
    parse: P,
    content: Seq<char>,
    fragment_type: Seq<char>,
    verdict: Verdict,
) -> bool {
    match authors_verdict(content) {
        Err(problem) => verdict == Verdict::Err(problem),
        Ok(()) => if fragment_type == "breaking"@ {
            breaking_outcome(parse, content, verdict)
        } else {
            verdict == Verdict::Ok(())
        },
    }
}

/// Checks the contents of a fragment: the authors line, and the rest where the change is a
/// breaking one. `parse` reads the YAML of the frontmatter.
pub fn validate_contents<P: Fn(&str) -> Parsed>(
    content: &str,
    filename: &str,
    fragment_type: &str,
    parse: &P,
) -> (result: Result<(), FragmentError<String>>)
    requires
        forall|yaml: &str| call_requires(*parse, (yaml,)),
    ensures
        exists|verdict: Verdict| #[trigger]
            contents_outcome(*parse, content@, fragment_type@, verdict) && reports(
                result,
                filename@,
                verdict,
            ),
{
    match validate_authors(content, filename) {
        Err(error) => {
            assert(contents_outcome(*parse, content@, fragment_type@, authors_verdict(content@)));
            Err(error)
        },
        Ok(()) => if same_text(fragment_type, "breaking") {
            let result = validate_breaking_fragment(content, filename, parse);
            let ghost verdict = choose|verdict: Verdict| #[trigger]
                breaking_outcome(*parse, content@, verdict) && reports(result, filename@, verdict);
            assert(contents_outcome(*parse, content@, fragment_type@, verdict));
            result
        } else {
            let ghost verdict: Verdict = Ok(());
            assert(contents_outcome(*parse, content@, fragment_type@, verdict));
            Ok(())
        },
    }
}

} // verus!
