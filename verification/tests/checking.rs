use std::cell::RefCell;

use changelog_fragments::check::{
    added_fragments, check_path, listed, CheckError, Cli, DEFAULT_MAX_FRAGMENTS,
};
use changelog_fragments::fragment::{BreakingFrontmatter, Parsed};

fn cli(max_fragments: usize) -> Cli {
    Cli { merge_base: "origin/master".to_string(), max_fragments }
}

fn parse(yaml: &str) -> Parsed {
    Ok(BreakingFrontmatter { title: yaml.to_string(), anchor: None })
}

fn read(path: &str) -> Result<String, String> {
    match path {
        "changelog.d/a.fix.md" | "changelog.d/b.feature.md" => Ok("x\n\nauthors: me\n".to_string()),
        "changelog.d/c.fix.md" => Ok("x\n".to_string()),
        "changelog.d/d.breaking.md" => {
            Ok("---\nt\n---\n## Summary\ns\n## Migration\nm\nauthors: me\n".to_string())
        }
        other => Err(format!("{other}: no such file")),
    }
}

fn run(listing: &str, max_fragments: usize) -> String {
    let git = |_: &Vec<String>| Ok(listing.to_string());
    match cli(max_fragments).exec("/repo", true, &git, &read, &parse) {
        Ok(()) => "ok".to_string(),
        Err(error) => error.message(),
    }
}

#[test]
fn git_is_asked_for_added_files() {
    let log = RefCell::new(Vec::new());
    let git = |args: &Vec<String>| {
        log.borrow_mut().push(args.join(" "));
        Ok("changelog.d/a.fix.md\n\n  \nchangelog.d/b.md\r\n".to_string())
    };
    let found = added_fragments("upstream/main", &git).unwrap();
    assert_eq!(found, vec!["changelog.d/a.fix.md", "changelog.d/b.md"]);
    assert_eq!(
        *log.borrow(),
        vec!["diff --name-only --diff-filter=A --merge-base upstream/main changelog.d"]
    );
    let git = |_: &Vec<String>| Err("fatal".to_string());
    assert_eq!(added_fragments("x", &git).unwrap_err(), "fatal");
    assert_eq!(listed(" a \n"), vec![" a "]);
    assert!(listed("\n \n").is_empty());
}

#[test]
fn the_directory_has_to_be_there() {
    let git = |_: &Vec<String>| -> Result<String, String> { panic!("nothing to list") };
    let error = cli(1).exec("/repo", false, &git, &read, &parse).unwrap_err();
    assert_eq!(
        error.message(),
        "No changelog.d/ directory at /repo. Run this from the Vector repo root."
    );
}

#[test]
fn listing_errors_are_passed_on() {
    let git = |_: &Vec<String>| -> Result<String, String> { Err("fatal: bad base".to_string()) };
    let error = cli(1).exec("/repo", true, &git, &read, &parse).unwrap_err();
    assert!(matches!(error, CheckError::Git { .. }));
    assert_eq!(error.message(), "fatal: bad base");
}

#[test]
fn some_fragment_is_needed() {
    let message = "No changelog fragments detected. If no changes necessitate user-facing explanations, add the 'no-changelog' label. Otherwise, add fragments to changelog.d/ (see changelog.d/README.md).";
    assert_eq!(run("", 10), message);
    assert_eq!(run("\n\n", 0), message);
}

#[test]
fn the_number_of_fragments_is_limited() {
    let two = "changelog.d/a.fix.md\nchangelog.d/b.feature.md\n";
    assert_eq!(run(two, 2), "ok");
    assert_eq!(run(two, 1), "Too many changelog fragments (2 > 1).");
    assert_eq!(run(two, 0), "Too many changelog fragments (2 > 0).");
    assert_eq!(DEFAULT_MAX_FRAGMENTS, 1000);
}

#[test]
fn every_fragment_is_checked_up_to_the_first_failure() {
    assert_eq!(run("changelog.d/a.fix.md\nchangelog.d/d.breaking.md\n", 10), "ok");
    assert_eq!(
        run("changelog.d/a.fix.md\nchangelog.d/c.fix.md\nchangelog.d/bad\n", 10),
        "invalid fragment contents for 'c.fix.md': last line must be 'authors: <name> [<name> ...]' (no trailing blank lines)."
    );
    assert_eq!(
        run("changelog.d/bad\nchangelog.d/c.fix.md\n", 10),
        "invalid fragment filename 'bad': expected '<unique_name>.<fragment_type>.md'"
    );
    assert_eq!(run("changelog.d/z.fix.md\n", 10), "changelog.d/z.fix.md: no such file");
}

#[test]
fn paths_are_checked_before_files_are_read() {
    let log = RefCell::new(Vec::new());
    let spy = |path: &str| {
        log.borrow_mut().push(path.to_string());
        read(path)
    };
    let message = |path: &str| match check_path(path, &spy, &parse) {
        Ok(()) => "ok".to_string(),
        Err(error) => error.message(),
    };
    assert_eq!(message("changelog.d/README.md"), "ok");
    assert_eq!(message("changelog.d/sub/README.md"), "ok");
    assert_eq!(message("changelog.d/.."), "Unexpected fragment path: changelog.d/..");
    assert_eq!(
        message("changelog.d/sub/a.fix.md"),
        "invalid fragment path 'changelog.d/sub/a.fix.md': fragments must live directly under changelog.d/, not in a subdirectory."
    );
    assert_eq!(
        message("a.fix.md"),
        "invalid fragment path 'a.fix.md': fragments must live directly under changelog.d/, not in a subdirectory."
    );
    assert_eq!(
        message("changelog.d/a.fix.txt"),
        "invalid fragment filename 'a.fix.txt': extension must be markdown (.md)."
    );
    assert!(log.borrow().is_empty());
    assert_eq!(message("changelog.d/a.fix.md"), "ok");
    assert_eq!(*log.borrow(), vec!["changelog.d/a.fix.md"]);
}

#[test]
fn the_same_repository_gets_the_same_answer() {
    let listing = "changelog.d/a.fix.md\nchangelog.d/c.fix.md\n";
    assert_eq!(run(listing, 10), run(listing, 10));
    assert_ne!(run(listing, 10), run(listing, 1));
}

#[test]
fn an_added_readme_changes_nothing() {
    let readme = "changelog.d/README.md";
    for listing in [
        vec!["changelog.d/a.fix.md"],
        vec!["changelog.d/a.fix.md", "changelog.d/c.fix.md"],
        vec!["changelog.d/bad", "changelog.d/c.fix.md"],
    ] {
        for i in 0..=listing.len() {
            let mut more = listing.clone();
            more.insert(i, readme);
            assert_eq!(run(&more.join("\n"), 10), run(&listing.join("\n"), 10), "{more:?}");
        }
    }
}

#[test]
fn the_order_of_the_listing_does_not_decide() {
    for (a, b) in [
        ("changelog.d/a.fix.md", "changelog.d/d.breaking.md"),
        ("changelog.d/a.fix.md", "changelog.d/c.fix.md"),
        ("changelog.d/bad", "changelog.d/c.fix.md"),
    ] {
        let one = run(&format!("{a}\n{b}\n"), 10);
        let other = run(&format!("{b}\n{a}\n"), 10);
        assert_eq!(one == "ok", other == "ok", "{a} {b}");
    }
}
