use std::fmt;

use changelog_fragments::error::{FragmentError, Problem};
use changelog_fragments::fragment::{
    find_header, is_valid_anchor, split_frontmatter, validate_breaking_fragment,
    validate_contents, validate_frontmatter, validate_parsed, validate_sections,
    BreakingFrontmatter, Parsed,
};
use changelog_fragments::scaffold::render_template;
use serde::de::{Error, IgnoredAny, MapAccess, Visitor};
use serde::{Deserialize, Deserializer};

struct Raw {
    title: String,
    anchor: Option<String>,
}

struct RawVisitor;

impl<'de> Visitor<'de> for RawVisitor {
    type Value = Raw;

    fn expecting(&self, f: &mut fmt::Formatter) -> fmt::Result {
        f.write_str("frontmatter")
    }

    fn visit_map<A: MapAccess<'de>>(self, mut map: A) -> Result<Raw, A::Error> {
        let mut title: Option<String> = None;
        let mut anchor: Option<Option<String>> = None;
        while let Some(key) = map.next_key::<String>()? {
            match key.as_str() {
                "title" => {
                    if title.is_some() {
                        return Err(A::Error::duplicate_field("title"));
                    }
                    title = Some(map.next_value()?);
                }
                "anchor" => {
                    if anchor.is_some() {
                        return Err(A::Error::duplicate_field("anchor"));
                    }
                    anchor = Some(map.next_value()?);
                }
                _ => {
                    map.next_value::<IgnoredAny>()?;
                }
            }
        }
        let title = title.ok_or_else(|| A::Error::missing_field("title"))?;
        Ok(Raw { title, anchor: anchor.unwrap_or_default() })
    }
}

impl<'de> Deserialize<'de> for Raw {
    fn deserialize<D: Deserializer<'de>>(deserializer: D) -> Result<Raw, D::Error> {
        deserializer.deserialize_struct("BreakingFrontmatter", &["title", "anchor"], RawVisitor)
    }
}

fn parse(yaml: &str) -> Parsed {
    match serde_yaml::from_str::<Raw>(yaml) {
        Ok(raw) => Ok(BreakingFrontmatter { title: raw.title, anchor: raw.anchor }),
        Err(error) => Err(error.to_string()),
    }
}

fn check(raw: &str, filename: &str) -> Result<(), FragmentError<String>> {
    validate_breaking_fragment(raw, filename, &parse)
}

/// Build a full breaking-fragment file body from the given frontmatter and section content.
fn wrap(frontmatter: &str, summary: &str, migration: &str) -> String {
    format!(
        "---\n{frontmatter}\n---\n\n## Summary\n\n{summary}\n\n## Migration\n\n{migration}\n\nauthors: pront\n"
    )
}

#[test]
fn valid_breaking_fragment() {
    let raw = wrap(
        "title: \"Env var interpolation disabled\"\nanchor: env-var\n".trim(),
        "Off by default now.",
        "Pass the flag.",
    );
    check(&raw, "x.breaking.md").unwrap();
}

#[test]
fn valid_without_anchor() {
    let raw = wrap(r#"title: "A change""#, "Change happened.", "N/A");
    check(&raw, "x.breaking.md").unwrap();
}

#[test]
fn missing_frontmatter() {
    let raw = "no frontmatter here\n\nauthors: pront\n";
    let err = check(raw, "x.breaking.md").unwrap_err();
    assert!(err.message().contains("YAML frontmatter"), "{}", err.message());
}

#[test]
fn missing_closing_delimiter() {
    let raw = "---\ntitle: x\n\n## Summary\n\nhi\n\nauthors: pront\n";
    let err = check(raw, "x.breaking.md").unwrap_err();
    assert!(err.message().contains("closing '---'"), "{}", err.message());
}

#[test]
fn empty_title() {
    let raw = wrap(r#"title: """#, "x", "N/A");
    let err = check(&raw, "x.breaking.md").unwrap_err();
    assert!(err.message().contains("`title` must not be empty"), "{}", err.message());
}

#[test]
fn missing_summary_header() {
    // Handwritten fragment with only ## Migration.
    let raw = "---\ntitle: \"x\"\n---\n\n## Migration\n\nN/A\n\nauthors: pront\n";
    let err = check(raw, "x.breaking.md").unwrap_err();
    assert!(err.message().contains("missing `## Summary`"), "{}", err.message());
}

#[test]
fn missing_migration_header() {
    let raw = "---\ntitle: \"x\"\n---\n\n## Summary\n\ny\n\nauthors: pront\n";
    let err = check(raw, "x.breaking.md").unwrap_err();
    assert!(err.message().contains("missing `## Migration`"), "{}", err.message());
}

#[test]
fn empty_summary_section() {
    let raw = wrap(r#"title: "x""#, "", "N/A");
    let err = check(&raw, "x.breaking.md").unwrap_err();
    assert!(err.message().contains("`## Summary` section is empty"), "{}", err.message());
}

#[test]
fn empty_migration_section() {
    let raw = wrap(r#"title: "x""#, "y", "");
    let err = check(&raw, "x.breaking.md").unwrap_err();
    assert!(err.message().contains("`## Migration` section is empty"), "{}", err.message());
}

#[test]
fn wrong_section_order() {
    let raw = "---\ntitle: \"x\"\n---\n\n## Migration\n\ndo this\n\n## Summary\n\nhi\n\nauthors: pront\n";
    let err = check(raw, "x.breaking.md").unwrap_err();
    assert!(err.message().contains("must come before"), "{}", err.message());
}

#[test]
fn bad_anchor() {
    let raw = wrap("title: \"x\"\nanchor: \"Not Valid!\"\n".trim(), "y", "N/A");
    let err = check(&raw, "x.breaking.md").unwrap_err();
    assert!(err.message().contains("kebab-case slug"), "{}", err.message());
}

#[test]
fn todo_title_rejected() {
    let raw = wrap(r#"title: "TODO one-line title""#, "y", "N/A");
    let err = check(&raw, "x.breaking.md").unwrap_err();
    assert!(err.message().contains("placeholder 'TODO'"), "{}", err.message());
}

#[test]
fn headers_inside_code_fence_are_ignored() {
    // `## Summary` / `## Migration` only appear inside a fenced code block.
    let raw = "---\ntitle: \"x\"\n---\n\n```\n## Summary\nfake\n\n## Migration\nfake\n```\n\nauthors: pront\n";
    let err = check(raw, "x.breaking.md").unwrap_err();
    assert!(err.message().contains("missing `## Summary`"), "{}", err.message());
}

#[test]
fn yaml_errors_keep_their_cause() {
    let raw = wrap("anchor: a", "y", "N/A");
    let err = check(&raw, "x.breaking.md").unwrap_err();
    assert_eq!(err.message(), "invalid breaking fragment 'x.breaking.md': frontmatter YAML");
    match err.problem {
        Problem::Yaml { cause } => assert!(cause.contains("title"), "{cause}"),
        other => panic!("{other:?}"),
    }
}

#[test]
fn scalars_of_any_kind_make_a_title() {
    check(&wrap("title: 2024", "y", "N/A"), "x.breaking.md").unwrap();
    check(&wrap("title: true\nextra: [1, 2]", "y", "N/A"), "x.breaking.md").unwrap();
}

#[test]
fn null_anchor_is_no_anchor() {
    check(&wrap("title: x\nanchor: ~", "y", "N/A"), "x.breaking.md").unwrap();
}

#[test]
fn only_the_yaml_between_the_delimiters_is_parsed() {
    let seen = std::cell::RefCell::new(Vec::new());
    let spy = |yaml: &str| -> Parsed {
        seen.borrow_mut().push(yaml.to_string());
        Ok(BreakingFrontmatter { title: "x".to_string(), anchor: None })
    };
    validate_breaking_fragment(&wrap("a: b\nc: d", "s", "m"), "f", &spy).unwrap();
    assert_eq!(*seen.borrow(), vec!["a: b\nc: d".to_string()]);
    validate_breaking_fragment("no delimiter", "f", &spy).unwrap_err();
    assert_eq!(seen.borrow().len(), 1);
}

#[test]
fn frontmatter_ends_at_the_first_delimiter() {
    let (yaml, body) = split_frontmatter("---\na\n---\nb\n---\nc").unwrap();
    assert_eq!((yaml, body), ("a", "b\n---\nc"));
    assert!(matches!(split_frontmatter("---\n---\n"), Err(Problem::UnclosedFrontmatter)));
    let (yaml, body) = split_frontmatter("---\n\n---\n").unwrap();
    assert_eq!((yaml, body), ("", ""));
    assert!(matches!(split_frontmatter("--\n"), Err(Problem::NoFrontmatter)));
    assert!(matches!(split_frontmatter("---\r\nx\r\n---\r\n"), Err(Problem::NoFrontmatter)));
}

#[test]
fn anchors_are_slugs() {
    for good in ["a", "0", "env-var", "a--b", "v2-0"] {
        assert!(is_valid_anchor(good), "{good}");
    }
    for bad in ["", "-", "-a", "a-", "A", "a_b", "a b", "\u{e9}", "a.b"] {
        assert!(!is_valid_anchor(bad), "{bad}");
    }
}

#[test]
fn frontmatter_problems_come_in_order() {
    let make = |title: &str, anchor: Option<&str>| BreakingFrontmatter {
        title: title.to_string(),
        anchor: anchor.map(str::to_string),
    };
    let problem = |fm: &BreakingFrontmatter| validate_frontmatter(fm, "f").unwrap_err().problem;
    assert!(matches!(problem(&make(" \u{3000}\t", Some("!"))), Problem::EmptyTitle));
    assert!(matches!(problem(&make("a TODO b", Some("!"))), Problem::TodoTitle));
    assert!(matches!(problem(&make("todo", Some("!"))), Problem::Anchor { .. }));
    assert_eq!(
        validate_frontmatter(&make("todo", Some("A b")), "f").unwrap_err().message(),
        "invalid breaking fragment 'f': `anchor` must be a lowercase kebab-case slug (a-z, 0-9, hyphens); got 'A b'."
    );
    validate_frontmatter(&make("todo", None), "f").unwrap();
}

#[test]
fn headers_are_found_by_byte_offset() {
    assert_eq!(find_header("## Summary", "## Summary"), Some(0));
    assert_eq!(find_header("x\n## Summary\ny", "## Summary"), Some(2));
    assert_eq!(find_header("\u{e9}\u{3042}\n## Summary\n", "## Summary"), Some(6));
    assert_eq!(find_header(" ## Summary\n## Summary2\n", "## Summary"), None);
    assert_eq!(find_header("## Summary\r\n", "## Summary"), None);
    assert_eq!(find_header("", "## Summary"), None);
    assert_eq!(find_header("```\n## Summary\n```\n## Summary\n", "## Summary"), Some(19));
    assert_eq!(find_header("```\n```rust\n## Summary\n", "## Summary"), Some(12));
    assert_eq!(find_header("```\n## Summary\n", "## Summary"), None);
    assert_eq!(find_header("```\n", "```"), None);
}

#[test]
fn headers_in_one_fenced_block_are_never_found() {
    for inside in ["## Summary", "a\n## Summary\nb", "\n\n## Summary\n"] {
        let body = format!("```\n{inside}\n```\n");
        assert_eq!(find_header(&body, "## Summary"), None, "{inside}");
    }
}

#[test]
fn a_fenced_block_leaves_the_headers_around_it_alone() {
    let block = "```yaml\n## Summary\n```\n";
    let h = "## Summary";
    for before in ["", "x\n", "## Summary\n", "```\n## Summary\n```\n"] {
        for after in ["", "x", "\u{e9}\n## Summary", "```\n## Summary"] {
            let body = format!("{before}{block}{after}");
            let shifted = find_header(after, h).map(|p| p + before.len() + block.len());
            assert_eq!(find_header(&body, h), find_header(before, h).or(shifted), "{body:?}");
        }
    }
}

#[test]
fn only_the_trailing_authors_line_ends_the_sections() {
    let body = "## Summary\ns\nauthors: a\n## Migration\nm\n";
    validate_sections(body, "f").unwrap();
    let body = "## Summary\nauthors: a\n## Migration\nauthors: b\nauthors: c\n";
    validate_sections(body, "f").unwrap();
    let body = "## Summary\nauthors: a\n## Migration\nauthors: c\n";
    let err = validate_sections(body, "f").unwrap_err();
    assert!(matches!(err.problem, Problem::EmptyMigration));
    let body = "## Summary\r\ns\r\n## Migration\r\nm\r\nauthors: a\r\n";
    validate_sections(body, "f").unwrap();
    let err = validate_sections("authors: a", "f").unwrap_err();
    assert!(matches!(err.problem, Problem::MissingSummary));
    let err = validate_sections("", "f").unwrap_err();
    assert!(matches!(err.problem, Problem::MissingSummary));
}

#[test]
fn scaffolded_breaking_fragments_want_a_title() {
    let raw = render_template("breaking", "pront");
    let err = validate_contents(&raw, "x.breaking.md", "breaking", &parse).unwrap_err();
    assert!(matches!(err.problem, Problem::TodoTitle));
    let raw = raw.replace("TODO one-line title", "A change");
    validate_contents(&raw, "x.breaking.md", "breaking", &parse).unwrap();
}

#[test]
fn prose_may_look_like_an_authors_line() {
    let raw = "---\ntitle: \"x\"\n---\n\n## Summary\n\nauthors: now come last.\n\n## Migration\n\nN/A\n\nauthors: pront\n";
    validate_contents(raw, "x.breaking.md", "breaking", &parse).unwrap();
}

#[test]
fn section_messages() {
    let message = |body: &str| validate_sections(body, "f").unwrap_err().message();
    assert_eq!(message(""), "invalid breaking fragment 'f': missing `## Summary` section.");
    assert_eq!(
        message("## Summary\n"),
        "invalid breaking fragment 'f': missing `## Migration` section."
    );
    assert_eq!(
        message("## Migration\n## Summary\n"),
        "invalid breaking fragment 'f': `## Summary` must come before `## Migration`."
    );
    assert_eq!(
        message("## Summary\n \n## Migration\nx"),
        "invalid breaking fragment 'f': `## Summary` section is empty."
    );
    assert_eq!(
        message("## Summary\ns\n## Migration\n \t"),
        "invalid breaking fragment 'f': `## Migration` section is empty (use 'N/A' for informational breakers)."
    );
}

#[test]
fn documented_layout_with_fences_and_subheadings() {
    let raw = wrap(
        "title: \"x\"",
        "Uses\n\n```\n## Migration\n```\n\nand lists:\n\n- a",
        "##### Old\n\n```yaml\na: b\n```\n\n## Summary\n",
    );
    validate_contents(&raw, "x.breaking.md", "breaking", &parse).unwrap();
}

#[test]
fn an_open_fence_in_the_summary_hides_the_migration() {
    let raw = wrap("title: \"x\"", "```\nnever closed", "m");
    let err = validate_contents(&raw, "x.breaking.md", "breaking", &parse).unwrap_err();
    assert!(matches!(err.problem, Problem::MissingMigration));
}

#[test]
fn parsed_frontmatter_is_checked_before_the_sections() {
    let err = validate_parsed(Err("why".to_string()), "", "f").unwrap_err();
    assert!(matches!(err.problem, Problem::Yaml { cause } if cause == "why"));
    let blank = BreakingFrontmatter { title: String::new(), anchor: None };
    let err = validate_parsed(Ok(blank), "", "f").unwrap_err();
    assert!(matches!(err.problem, Problem::EmptyTitle));
    let good = BreakingFrontmatter { title: "t".to_string(), anchor: None };
    let err = validate_parsed(Ok(good), "", "f").unwrap_err();
    assert!(matches!(err.problem, Problem::MissingSummary));
}

#[test]
fn the_same_contents_get_the_same_verdict() {
    let raw = wrap("title: \"TODO\"", "s", "m");
    let first = validate_contents(&raw, "f", "breaking", &parse).unwrap_err().message();
    let second = validate_contents(&raw, "f", "breaking", &parse).unwrap_err().message();
    assert_eq!(first, second);
}

#[test]
fn only_breaking_fragments_need_frontmatter() {
    let never = |_: &str| -> Parsed { panic!("no frontmatter to parse") };
    validate_contents("text\n\nauthors: pront\n", "x.fix.md", "fix", &never).unwrap();
    let err =
        validate_contents("text\n\nauthors: pront\n", "x.breaking.md", "breaking", &never);
    assert!(matches!(err.unwrap_err().problem, Problem::NoFrontmatter));
    let err = validate_contents("text\n", "x.breaking.md", "breaking", &never);
    assert!(matches!(err.unwrap_err().problem, Problem::AuthorsLine));
}

#[test]
fn breaking_contents_are_checked_for_authors_first() {
    let message = |found: Result<(), FragmentError<String>>| match found {
        Ok(()) => "ok".to_string(),
        Err(error) => error.message(),
    };
    let good = wrap("title: x", "s", "m");
    for content in [good.as_str(), "x\n", "x\nauthors: a,b\n", "x\nauthors: a\n", ""] {
        let other = message(validate_contents(content, "f", "fix", &parse));
        let expected = if other == "ok" { message(check(content, "f")) } else { other };
        let breaking = message(validate_contents(content, "f", "breaking", &parse));
        assert_eq!(breaking, expected, "{content:?}");
    }
}
