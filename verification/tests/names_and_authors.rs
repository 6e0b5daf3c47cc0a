use changelog_fragments::error::{fragment_types, Problem};
use changelog_fragments::fragment::{validate_authors, validate_filename, TODO_HANDLE};

fn authors(content: &str) -> String {
    match validate_authors(content, "f.fix.md") {
        Ok(()) => "ok".to_string(),
        Err(error) => error.message(),
    }
}

#[test]
fn file_names_tell_the_type() {
    for known in fragment_types() {
        assert_eq!(validate_filename(&format!("some_slug.{known}.md")).unwrap(), known);
    }
    assert_eq!(fragment_types(), vec!["breaking", "security", "feature", "enhancement", "fix"]);
    assert_eq!(validate_filename(".fix.md").unwrap(), "fix");
}

#[test]
fn file_name_messages() {
    let message = |name: &str| validate_filename(name).unwrap_err().message();
    for name in ["a.b.fix.md", "fix.md", "", "a", "a.fix.md."] {
        assert_eq!(
            message(name),
            format!("invalid fragment filename '{name}': expected '<unique_name>.<fragment_type>.md'")
        );
    }
    for name in ["a.bug.txt", "a..md", "a.Fix.md"] {
        assert_eq!(
            message(name),
            format!(
                "invalid fragment filename '{name}': fragment type must be one of (breaking|security|feature|enhancement|fix)."
            )
        );
    }
    for name in ["a.fix.txt", "a.fix.", "a.fix.MD"] {
        assert_eq!(
            message(name),
            format!("invalid fragment filename '{name}': extension must be markdown (.md).")
        );
    }
}

#[test]
fn authors_line_is_the_last_line() {
    for good in [
        "authors: a",
        "authors: a\n",
        "x\nauthors: a b  c\n",
        "x\r\nauthors: a\r\n",
        "authors: a\nx\nauthors:  b \n",
    ] {
        assert_eq!(authors(good), "ok", "{good:?}");
    }
    for bad in ["", "\n", "authors: a\n\n", "authors: a\n \n", "authors: a\n\r\n", " authors: a", "authors:a", "Authors: a"]
    {
        assert_eq!(
            authors(bad),
            "invalid fragment contents for 'f.fix.md': last line must be 'authors: <name> [<name> ...]' (no trailing blank lines).",
            "{bad:?}"
        );
    }
}

#[test]
fn author_names() {
    for blank in ["authors: ", "authors:  \t\u{a0}\n"] {
        assert_eq!(
            authors(blank),
            "invalid fragment contents for 'f.fix.md': authors line has no names."
        );
    }
    assert_eq!(
        authors("authors: a, @b"),
        "invalid fragment contents for 'f.fix.md': author names should not be prefixed with '@'."
    );
    assert_eq!(
        authors("authors: a, b"),
        "invalid fragment contents for 'f.fix.md': authors should be space delimited, not comma delimited."
    );
    assert_eq!(
        authors("authors: a TODO_your_gh_handle b"),
        "invalid fragment contents for 'f.fix.md': the scaffolder placeholder 'TODO_your_gh_handle' must be replaced with a real GitHub handle."
    );
    assert_eq!(
        authors("authors: a\u{2003}TODO_your_gh_handle\u{2028}b"),
        authors("authors: TODO_your_gh_handle")
    );
    assert_eq!(authors("authors: TODO_your_gh_handles"), "ok");
    assert_eq!(TODO_HANDLE, "TODO_your_gh_handle");
}

#[test]
fn errors_carry_the_file_name() {
    let error = validate_authors("", "name").unwrap_err();
    assert_eq!(error.filename, "name");
    assert!(matches!(error.problem, Problem::AuthorsLine));
}
