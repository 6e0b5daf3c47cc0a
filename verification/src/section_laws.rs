//! What the check of a breaking fragment's sections, and of a fragment as a whole, is for.

use vstd::prelude::*;

use crate::error::Problem;
use crate::fragment;
use crate::fragment::{BreakingFrontmatter, Parsed, Verdict};
use crate::fragment_laws;
use crate::laws;
use crate::text;
use crate::text_laws;

verus! {

// ---------------------------------------------------------------------------------------------
// Headers
// ---------------------------------------------------------------------------------------------
/// What comes before a line of a text are the lines before it, each closed by a line feed.
proof fn lemma_before_line(body: Seq<char>, i: int)
    requires
        0 <= i < text::raw_lines(body).len(),
    ensures
        ({
            let all = text::raw_lines(body);
            let p = fragment::line_start(all, i);
            &&& 0 <= p <= body.len()
            &&& p == 0 || body[p - 1] == '\n'
            &&& text::raw_lines(body.take(p)) == all.take(i)
        }),
    decreases body.len(),
{
    let all = text::raw_lines(body);
    let p = fragment::line_start(all, i);
    if i == 0 {
        assert(body.take(0) =~= seq![]);
        assert(text::raw_lines(body.take(0)) =~= all.take(0));
    } else {
        let n = text::index_of(body, '\n');
        text::lemma_index_of(body, '\n');
        let rest = body.skip(n + 1);
        assert(all.skip(1) =~= text::raw_lines(rest));
        lemma_before_line(rest, i - 1);
        fragment::lemma_line_start_shift(all, i);
        let q = fragment::line_start(text::raw_lines(rest), i - 1);
        let first = body.take(n);
        assert(p == n + 1 + q);
        assert(body.take(p) =~= first + seq!['\n'] + rest.take(q));
        assert(!first.contains('\n'));
        text_laws::law_lines(first, rest.take(q));
        assert(all.take(i) =~= seq![first] + text::raw_lines(rest).take(i - 1));
        assert(q > 0 ==> body[p - 1] == rest[q - 1]);
        assert(q == 0 ==> body[p - 1] == body[n]);
    }
}

/// A header is found at the beginning of the first line that consists of it and that an even number
/// of lines which begin with three backticks comes before.
pub proof fn law_header_position(body: Seq<char>, header: Seq<char>, i: int)
    requires
        ({
            let all = text::raw_lines(body);
            &&& 0 <= i < all.len()
            &&& all[i] == header
            &&& !(header.len() >= 3 && header[0] == '`' && header[1] == '`' && header[2] == '`')
            &&& laws::ticked(all.take(i)).len() % 2 == 0
            &&& forall|j: int|
                0 <= j < i && #[trigger] all[j] == header ==> laws::ticked(all.take(j)).len() % 2
                    == 1
        }),
    ensures
        fragment::header_position(body, header) matches Some(p) && 0 <= p <= body.len() && (p == 0
            || body[p - 1] == '\n') && text::raw_lines(body.take(p)) == text::raw_lines(body).take(
            i,
        ),
{
    let all = text::raw_lines(body);
    laws::law_fence(header, seq![]);
    laws::law_fence_count(all.take(i));
    assert forall|j: int| 0 <= j < i implies !fragment::is_header_line(all, header, j) by {
        laws::law_fence_count(all.take(j));
        assert(all[j] == header ==> laws::ticked(all.take(j)).len() % 2 == 1);
    }
    laws::lemma_first_header(all, header, 0, i);
    lemma_before_line(body, i);
}

/// A header is not found where no line consists of it, or every one that does stands in a fenced
/// code block.
pub proof fn law_no_header_position(body: Seq<char>, header: Seq<char>)
    requires
        ({
            let all = text::raw_lines(body);
            forall|j: int|
                0 <= j < all.len() && #[trigger] all[j] == header ==> laws::ticked(
                    all.take(j),
                ).len() % 2 == 1
        }),
    ensures
        fragment::header_position(body, header) is None,
{
    let all = text::raw_lines(body);
    assert forall|j: int| 0 <= j < all.len() implies !fragment::is_header_line(
        all,
        header,
        j,
    ) by {
        laws::law_fence_count(all.take(j));
        assert(all[j] == header ==> laws::ticked(all.take(j)).len() % 2 == 1);
    }
    laws::lemma_no_header(all, header, 0);
}

// ---------------------------------------------------------------------------------------------
// Sections
// ---------------------------------------------------------------------------------------------
/// The sections stand in all lines of a body but its last, where that one begins with `authors: `;
/// else in all of them.
#[verifier::spinoff_prover]
#[verifier::rlimit(60)]
pub proof fn law_sections_text(parts: Seq<Seq<char>>, names: Seq<char>)
    requires
        parts.len() > 0,
        forall|i: int|
            0 <= i < parts.len() ==> !(#[trigger] parts[i]).contains('\n') && (parts[i].len() == 0
                || parts[i].last() != '\r'),
        !names.contains('\n'),
    ensures
        ({
            let above = text::join(parts, seq!['\n']);
            &&& fragment::sections_text(above + seq!['\n'] + "authors: "@ + names) == above
            &&& fragment::sections_text(above + seq!['\n'] + "authors: "@ + names + seq!['\n'])
                == above
            &&& (forall|rest: Seq<char>| parts.last() != #[trigger] ("authors: "@ + rest))
                ==> fragment::sections_text(above + seq!['\n']) == above
        }),
{
    reveal_strlit("authors: ");
    reveal_strlit("\n");
    let nl = seq!['\n'];
    assert("\n"@ =~= nl);
    let lead = "authors: "@;
    let line = lead + names;
    let above = text::join(parts, nl);
    text_laws::law_closed_lines(parts);
    laws::lemma_authors_line_is_one_line(names);
    laws::lemma_one_line(line);
    text_laws::law_lines(line, seq![]);
    fragment_laws::lemma_lines_after(above + nl, line);
    fragment_laws::lemma_lines_after(above + nl, line + nl);
    let shown = text::strip_cr(line);
    assert(line.subrange(0, 9) =~= lead);
    assert(shown.subrange(0, 9) =~= lead);
    assert(above + nl + lead + names =~= above + nl + line);
    assert(above + nl + lead + names + nl =~= above + nl + (line + nl));
    assert((parts + seq![line]).drop_last() =~= parts);
    assert((parts + seq![shown]).drop_last() =~= parts);
    if fragment::is_authors_line(parts.last()) {
        let last = parts.last();
        assert(last =~= lead + last.skip(9));
    }
}

/// However its lines are closed, the sections of a body stand in all of its lines but a last one
/// that begins with `authors: `.
#[verifier::spinoff_prover]
#[verifier::rlimit(60)]
pub proof fn law_sections_lines(body: Seq<char>, names: Seq<char>)
    ensures
        ({
            let all = text::lines(body);
            &&& all.len() > 0 && all.last() == "authors: "@ + names ==> fragment::sections_text(
                body,
            ) == text::join(all.take(all.len() - 1), seq!['\n'])
            &&& all.len() == 0 || (forall|rest: Seq<char>|
                all.last() != #[trigger] ("authors: "@ + rest)) ==> fragment::sections_text(body)
                == text::join(all, seq!['\n'])
        }),
{
    reveal_strlit("authors: ");
    reveal_strlit("\n");
    assert("\n"@ =~= seq!['\n']);
    let all = text::lines(body);
    let lead = "authors: "@;
    if all.len() > 0 {
        let last = all.last();
        assert(all.drop_last() =~= all.take(all.len() - 1));
        if last == lead + names {
            assert(last.subrange(0, 9) =~= lead);
        }
        if fragment::is_authors_line(last) {
            assert(last =~= lead + last.skip(9));
        }
    }
}

/// The sections are judged by what stands under each header: the summary up to the migration
/// header, and the migration notes up to the end.
pub proof fn law_sections_in_order(
    body: Seq<char>,
    before: Seq<char>,
    summary: Seq<char>,
    migration: Seq<char>,
)
    requires
        fragment::sections_text(body) == before + "## Summary"@ + summary + "## Migration"@
            + migration,
        fragment::header_position(fragment::sections_text(body), "## Summary"@) == Some(
            before.len() as int,
        ),
        fragment::header_position(fragment::sections_text(body), "## Migration"@) == Some(
            before.len() as int + 10 + summary.len(),
        ),
    ensures
        fragment::sections_verdict(body) == if forall|i: int|
            0 <= i < summary.len() ==> text::is_white_space(#[trigger] summary[i]) {
            Verdict::Err(Problem::EmptySummary)
        } else if forall|i: int|
            0 <= i < migration.len() ==> text::is_white_space(#[trigger] migration[i]) {
            Verdict::Err(Problem::EmptyMigration)
        } else {
            Verdict::Ok(())
        },
{
    reveal_strlit("## Summary");
    reveal_strlit("## Migration");
    let s = fragment::sections_text(body);
    let a = before.len() as int;
    let m = a + 10 + summary.len();
    assert(s.subrange(a + 10, m) =~= summary);
    assert(s.skip(m + 12) =~= migration);
}

/// Both sections have to be there, the summary first.
pub proof fn law_sections_out_of_order(body: Seq<char>)
    ensures
        ({
            let summary = fragment::header_position(fragment::sections_text(body), "## Summary"@);
            let migration = fragment::header_position(
                fragment::sections_text(body),
                "## Migration"@,
            );
            let verdict = fragment::sections_verdict(body);
            &&& verdict == Verdict::Err(Problem::MissingSummary) <==> summary is None
            &&& verdict == Verdict::Err(Problem::MissingMigration) <==> summary is Some
                && migration is None
            &&& verdict == Verdict::Err(Problem::SectionOrder) <==> summary is Some
                && migration is Some && migration->0 < summary->0
            &&& verdict matches Err(problem) ==> problem is MissingSummary
                || problem is MissingMigration || problem is SectionOrder || problem is EmptySummary
                || problem is EmptyMigration
        }),
{
}

/// Where both sections are there in their order, the text is what comes before, the summary header,
/// the summary, the migration header and the migration notes.
pub proof fn law_sections_decompose(body: Seq<char>)
    requires
        ({
            let s = fragment::sections_text(body);
            &&& fragment::header_position(s, "## Summary"@) matches Some(p)
            &&& fragment::header_position(s, "## Migration"@) matches Some(q)
            &&& p < q
        }),
    ensures
        ({
            let s = fragment::sections_text(body);
            let p = fragment::header_position(s, "## Summary"@)->0;
            let q = fragment::header_position(s, "## Migration"@)->0;
            &&& p + 10 <= q
            &&& s == s.take(p) + "## Summary"@ + s.subrange(p + 10, q) + "## Migration"@ + s.skip(
                q + 12,
            )
        }),
{
    reveal_strlit("## Summary");
    reveal_strlit("## Migration");
    let s = fragment::sections_text(body);
    let p = fragment::header_position(s, "## Summary"@)->0;
    let q = fragment::header_position(s, "## Migration"@)->0;
    fragment::lemma_headers_apart(s, "## Summary"@, "## Migration"@);
    fragment::lemma_header_position(s, "## Summary"@);
    fragment::lemma_header_position(s, "## Migration"@);
    assert(s =~= s.take(p) + "## Summary"@ + s.subrange(p + 10, q) + "## Migration"@ + s.skip(
        q + 12,
    ));
}

proof fn lemma_none_ticked(lines: Seq<Seq<char>>)
    requires
        forall|i: int|
            0 <= i < lines.len() ==> !((#[trigger] lines[i]).len() >= 3 && lines[i][0] == '`'
                && lines[i][1] == '`' && lines[i][2] == '`'),
    ensures
        fragment::fence_count(lines) == 0,
{
    assert forall|i: int| 0 <= i < lines.len() implies !fragment::is_fence(
        #[trigger] lines[i],
    ) by {
        laws::law_fence(lines[i], seq![]);
    }
    laws::lemma_no_fences(lines);
}

/// A breaking fragment may show code: a summary with a fenced code block of any language is
/// accepted, and the migration header after it is found.
pub proof fn law_code_block_in_summary(
    above: Seq<Seq<char>>,
    info: Seq<char>,
    code: Seq<Seq<char>>,
    below: Seq<Seq<char>>,
    migration: Seq<char>,
    names: Seq<char>,
)
    requires
        forall|i: int|
            0 <= i < above.len() ==> {
                let line = #[trigger] above[i];
                &&& !line.contains('\n') && !line.contains('\r')
                &&& !(line.len() >= 3 && line[0] == '`' && line[1] == '`' && line[2] == '`')
                &&& line != "## Migration"@
            },
        forall|i: int|
            0 <= i < code.len() ==> {
                let line = #[trigger] code[i];
                &&& !line.contains('\n') && !line.contains('\r')
                &&& !(line.len() >= 3 && line[0] == '`' && line[1] == '`' && line[2] == '`')
            },
        forall|i: int|
            0 <= i < below.len() ==> {
                let line = #[trigger] below[i];
                &&& !line.contains('\n') && !line.contains('\r')
                &&& !(line.len() >= 3 && line[0] == '`' && line[1] == '`' && line[2] == '`')
                &&& line != "## Migration"@
            },
        !info.contains('\n') && !info.contains('\r'),
        exists|i: int| 0 <= i < migration.len() && !text::is_white_space(migration[i]),
        !names.contains('\n'),
    ensures
        ({
            let ticks = seq!['`', '`', '`'];
            let summary = text::join(
                above + seq![ticks + info] + code + seq![ticks] + below,
                seq!['\n'],
            );
            fragment::sections_verdict(
                "\n## Summary\n\n"@ + summary + "\n\n## Migration\n\n"@ + migration
                    + "\n\nauthors: "@ + names + "\n"@,
            ) == Verdict::Ok(())
        }),
{
    let ticks = seq!['`', '`', '`'];
    let open = ticks + info;
    let all = above + seq![open] + code + seq![ticks] + below;
    let summary = text::join(all, seq!['\n']);
    lemma_code_block_lines(above, info, code, below);
    laws::law_layout_sections(summary, migration, names);
}

#[verifier::spinoff_prover]
#[verifier::rlimit(60)]
proof fn lemma_code_block_lines(
    above: Seq<Seq<char>>,
    info: Seq<char>,
    code: Seq<Seq<char>>,
    below: Seq<Seq<char>>,
)
    requires
        forall|i: int|
            0 <= i < above.len() ==> {
                let line = #[trigger] above[i];
                &&& !line.contains('\n') && !line.contains('\r')
                &&& !(line.len() >= 3 && line[0] == '`' && line[1] == '`' && line[2] == '`')
                &&& line != "## Migration"@
            },
        forall|i: int|
            0 <= i < code.len() ==> {
                let line = #[trigger] code[i];
                &&& !line.contains('\n') && !line.contains('\r')
                &&& !(line.len() >= 3 && line[0] == '`' && line[1] == '`' && line[2] == '`')
            },
        forall|i: int|
            0 <= i < below.len() ==> {
                let line = #[trigger] below[i];
                &&& !line.contains('\n') && !line.contains('\r')
                &&& !(line.len() >= 3 && line[0] == '`' && line[1] == '`' && line[2] == '`')
                &&& line != "## Migration"@
            },
        !info.contains('\n') && !info.contains('\r'),
    ensures
        laws::is_summary_text(
            text::join(
                above + seq![seq!['`', '`', '`'] + info] + code + seq![seq!['`', '`', '`']] + below,
                seq!['\n'],
            ),
        ),
{
    reveal_strlit("\n");
    reveal_strlit("## Migration");
    assert("\n"@ =~= seq!['\n']);
    let nl = seq!['\n'];
    let ticks = seq!['`', '`', '`'];
    let open = ticks + info;
    let all = above + seq![open] + code + seq![ticks] + below;
    let summary = text::join(all, nl);
    let n = above.len() as int;
    let m = n + 1 + code.len();
    assert forall|i: int| 0 <= i < all.len() implies !(#[trigger] all[i]).contains('\n')
        && !all[i].contains('\r') by {
        if i < n {
            assert(all[i] == above[i]);
        } else if i == n {
            assert(all[i] == open);
            if open.contains('\n') {
                let j = choose|j: int| 0 <= j < open.len() && open[j] == '\n';
                assert(info[j - 3] == '\n');
            }
            if open.contains('\r') {
                let j = choose|j: int| 0 <= j < open.len() && open[j] == '\r';
                assert(info[j - 3] == '\r');
            }
        } else if i < m {
            assert(all[i] == code[i - n - 1]);
        } else if i == m {
            assert(all[i] == ticks);
        } else {
            assert(all[i] == below[i - m - 1]);
        }
    }
    assert forall|i: int| 0 <= i < all.len() && (#[trigger] all[i]).len() > 0 implies all[i].last()
        != '\r' by {
        assert(all[i].contains(all[i][all[i].len() - 1]));
    }
    text_laws::law_closed_lines(all);
    let found = laws::closed_lines(summary);
    assert(found == all);

    // The fences are the two that enclose the code.
    laws::law_fence(ticks, info);
    laws::law_fence(ticks, seq![]);
    laws::lemma_single_fence(open);
    laws::lemma_single_fence(ticks);
    lemma_none_ticked(above);
    lemma_none_ticked(code);
    lemma_none_ticked(below);
    laws::lemma_fence_count_split(above + seq![open] + code + seq![ticks], below);
    laws::lemma_fence_count_split(above + seq![open] + code, seq![ticks]);
    laws::lemma_fence_count_split(above + seq![open], code);
    laws::lemma_fence_count_split(above, seq![open]);
    laws::law_fence_count(all);

    // A header among the code is inside of them.
    assert forall|i: int| 0 <= i < all.len() && #[trigger] all[i] == "## Migration"@ implies
        laws::ticked(all.take(i)).len() % 2 == 1 by {
        if i < n {
            assert(all[i] == above[i]);
        } else if i == n {
            assert(all[i][0] == '`');
        } else if i < m {
            let part = code.take(i - n - 1);
            assert(all.take(i) =~= above + seq![open] + part);
            laws::lemma_fence_count_split(above + seq![open], part);
            assert forall|q: int| 0 <= q < part.len() implies !((#[trigger] part[q]).len() >= 3
                && part[q][0] == '`' && part[q][1] == '`' && part[q][2] == '`') by {
                assert(part[q] == code[q]);
            }
            lemma_none_ticked(part);
            laws::law_fence_count(all.take(i));
        } else if i == m {
            assert(all[i][0] == '`');
        } else {
            assert(all[i] == below[i - m - 1]);
        }
    }

    // The fence itself is not blank.
    lemma_part_of_join(all, n);
    if text::is_blank(summary) {
        let at = choose|at: int| text::occurs_at(summary, open, at);
        assert(summary.subrange(at, at + open.len())[0] == summary[at]);
        assert(text::is_white_space(summary[at]));
        assert(open[0] == '`');
    }
}

proof fn lemma_part_of_join(parts: Seq<Seq<char>>, i: int)
    requires
        0 <= i < parts.len(),
    ensures
        exists|at: int| text::occurs_at(text::join(parts, seq!['\n']), parts[i], at),
{
    let nl = seq!['\n'];
    let whole = text::join(parts, nl);
    let a = parts.take(i);
    let x = parts[i];
    let b = parts.skip(i + 1);
    assert(parts =~= a + seq![x] + b);
    text_laws::law_join(a + seq![x], b, nl);
    text_laws::law_join(a, seq![x], nl);
    text_laws::law_join(seq![x], seq![x], nl);
    let at = if i == 0 {
        0
    } else {
        text::join(a, nl).len() + 1
    };
    if i == 0 {
        assert(a + seq![x] =~= seq![x]);
    }
    if b.len() == 0 {
        assert(parts =~= a + seq![x]);
    }
    assert(whole.subrange(at as int, at as int + x.len()) =~= x);
    assert(text::occurs_at(whole, x, at as int));
}

// ---------------------------------------------------------------------------------------------
// Fragments
// ---------------------------------------------------------------------------------------------
/// A fragment of any type but `breaking` is judged by its authors line alone.
pub proof fn law_other_contents<P: Fn(&str) -> Parsed>(
    parse: P,
    content: Seq<char>,
    fragment_type: Seq<char>,
    verdict: Verdict,
)
    requires
        fragment_type != "breaking"@,
        fragment::contents_outcome(parse, content, fragment_type, verdict),
    ensures
        verdict == fragment::authors_verdict(content),
{
}

/// A breaking fragment is judged by its authors line, and then by what it is made of.
pub proof fn law_breaking_order<P: Fn(&str) -> Parsed>(
    parse: P,
    content: Seq<char>,
    verdict: Verdict,
)
    requires
        fragment::contents_outcome(parse, content, "breaking"@, verdict),
    ensures
        fragment::authors_verdict(content) is Err ==> verdict == fragment::authors_verdict(content),
        fragment::authors_verdict(content) is Ok ==> fragment::breaking_outcome(
            parse,
            content,
            verdict,
        ),
{
}

/// Exactly the YAML between the delimiters is parsed; a failure to parse it is reported with its
/// cause, then what is wrong with the title or the anchor, then what is wrong with the sections.
#[verifier::spinoff_prover]
#[verifier::rlimit(60)]
pub proof fn law_parsed_frontmatter<P: Fn(&str) -> Parsed>(
    parse: P,
    yaml: Seq<char>,
    body: Seq<char>,
    verdict: Verdict,
)
    requires
        !text::contains_text(yaml + "\n"@, "\n---\n"@),
        fragment::breaking_outcome(parse, "---\n"@ + yaml + "\n---\n"@ + body, verdict),
    ensures
        exists|given: &str, parsed: Parsed|
            given@ == yaml && #[trigger] call_ensures(parse, (given,), parsed) && verdict
                == match parsed {
                Err(cause) => Verdict::Err(Problem::Yaml { cause: cause@ }),
                Ok(frontmatter) => {
                    let found = fragment::frontmatter_verdict(
                        BreakingFrontmatter {
                            title: frontmatter.title@,
                            anchor: text::option_view(frontmatter.anchor),
                        },
                    );
                    if found is Err {
                        found
                    } else {
                        fragment::sections_verdict(body)
                    }
                },
            },
{
    laws::law_frontmatter_split(yaml, body);
    let out = choose|out: fragment::ParsedView| #[trigger]
        fragment::parse_gives(parse, yaml, out) && verdict == fragment::parsed_verdict(out, body);
    let (given, parsed) = choose|given: &str, parsed: Parsed|
        given@ == yaml && #[trigger] call_ensures(parse, (given,), parsed) && fragment::parsed_view(
            parsed,
        ) == out;
    assert(call_ensures(parse, (given,), parsed));
}

/// Nothing is parsed of a fragment without both delimiters.
#[verifier::spinoff_prover]
#[verifier::rlimit(60)]
pub proof fn law_unsplit_fragment<P: Fn(&str) -> Parsed>(
    parse: P,
    content: Seq<char>,
    verdict: Verdict,
)
    requires
        fragment::breaking_outcome(parse, content, verdict),
    ensures
        (forall|rest: Seq<char>| content != #[trigger] ("---\n"@ + rest)) ==> verdict
            == Verdict::Err(Problem::NoFrontmatter),
        (forall|a: Seq<char>, b: Seq<char>| content != #[trigger] ("---\n"@ + a + "\n---\n"@ + b))
            && (exists|rest: Seq<char>| content == #[trigger] ("---\n"@ + rest)) ==> verdict
            == Verdict::Err(Problem::UnclosedFrontmatter),
{
    fragment_laws::law_frontmatter_parts(content);
    if let Ok((yaml, body)) = fragment::frontmatter_split(content) {
        assert(content =~= "---\n"@ + (yaml + "\n---\n"@ + body));
        assert(content == "---\n"@ + yaml + "\n---\n"@ + body);
    }
}

} // verus!
