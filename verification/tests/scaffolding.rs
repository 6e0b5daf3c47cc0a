use std::cell::RefCell;

use changelog_fragments::error::Problem;
use changelog_fragments::fragment::{
    validate_authors, validate_contents, validate_filename, BreakingFrontmatter, Parsed,
};
use changelog_fragments::path::{join_path, relative, strip_prefix};
use changelog_fragments::scaffold::{
    detect_gh_handle, gh_authenticated_login, git_config, handle_from_noreply, printed,
    render_template, Cli, CommandOutput,
};

const BREAKING: &str = r#"---
title: "TODO one-line title"
---

## Summary

TODO one-paragraph summary that lands in the changelog list.

## Migration

TODO how to migrate. Use "N/A" for informational-only breakers.

For config changes, show a before/after with fenced code blocks, e.g.:

##### Old

```yaml
sinks:
  my_sink:
    option: old_value
```

##### New

```yaml
sinks:
  my_sink:
    option: new_value
```

authors: octocat
"#;

fn prints(text: &str) -> Option<CommandOutput> {
    Some(CommandOutput { success: true, stdout: text.as_bytes().to_vec() })
}

fn fails() -> Option<CommandOutput> {
    Some(CommandOutput { success: false, stdout: b"ignored".to_vec() })
}

fn cli(fragment_type: &str, slug: &str) -> Cli {
    Cli { fragment_type: fragment_type.to_string(), slug: slug.to_string() }
}

#[test]
fn templates() {
    assert_eq!(render_template("breaking", "octocat"), BREAKING);
    assert_eq!(
        render_template("fix", "octocat"),
        "TODO one-item description of the change.\n\nauthors: octocat\n"
    );
    assert_eq!(render_template("feature", ""), "TODO one-item description of the change.\n\nauthors: \n");
}

#[test]
fn noreply_addresses() {
    let handle = |email: &str| handle_from_noreply(email);
    assert_eq!(handle("123+octocat@users.noreply.github.com").as_deref(), Some("octocat"));
    assert_eq!(handle("octocat@users.noreply.github.com").as_deref(), Some("octocat"));
    assert_eq!(handle("1+a+b@users.noreply.github.com").as_deref(), Some("a+b"));
    assert_eq!(handle("+a@users.noreply.github.com").as_deref(), Some("a"));
    assert_eq!(handle("1+@users.noreply.github.com"), None);
    assert_eq!(handle("@users.noreply.github.com"), None);
    assert_eq!(handle("octocat@github.com"), None);
    assert_eq!(handle("a@b@users.noreply.github.com"), None);
    assert_eq!(handle("octocat"), None);
    assert_eq!(handle(""), None);
}

#[test]
fn what_commands_print() {
    assert_eq!(printed(None), None);
    assert_eq!(printed(fails()), None);
    assert_eq!(printed(prints(" \u{a0}\n")), None);
    assert_eq!(printed(prints("  octo cat\r\n")).as_deref(), Some("octo cat"));
    assert_eq!(printed(prints("\u{e9}\u{1f600}\n")).as_deref(), Some("\u{e9}\u{1f600}"));
    let broken = CommandOutput { success: true, stdout: vec![b'a', 0xff, b'\n'] };
    assert_eq!(printed(Some(broken)), None);
}

#[test]
fn commands_are_run_with_their_arguments() {
    let log = RefCell::new(Vec::new());
    let run = |program: &str, args: &Vec<String>| {
        log.borrow_mut().push(format!("{program} {}", args.join(" ")));
        prints("value\n")
    };
    assert_eq!(git_config("some.key", &run).as_deref(), Some("value"));
    assert_eq!(gh_authenticated_login(&run).as_deref(), Some("value"));
    assert_eq!(*log.borrow(), vec!["git config --get some.key", "gh api user --jq .login"]);
}

#[test]
fn handle_is_looked_for_in_order() {
    let answers = |user: &'static str, login: &'static str, email: &'static str| {
        move |program: &str, args: &Vec<String>| {
            let answer = match (program, args.last().map(String::as_str)) {
                ("git", Some("github.user")) => user,
                ("gh", Some(".login")) => login,
                ("git", Some("user.email")) => email,
                other => panic!("{other:?}"),
            };
            if answer.is_empty() { fails() } else { prints(answer) }
        }
    };
    let noreply = "1+mail@users.noreply.github.com";
    assert_eq!(detect_gh_handle(&answers("user", "login", noreply)).as_deref(), Some("user"));
    assert_eq!(detect_gh_handle(&answers("", "login", noreply)).as_deref(), Some("login"));
    assert_eq!(detect_gh_handle(&answers("", "", noreply)).as_deref(), Some("mail"));
    assert_eq!(detect_gh_handle(&answers("", "", "me@example.com")), None);
    assert_eq!(detect_gh_handle(&answers("", "", "")), None);
    assert_eq!(detect_gh_handle(&|_: &str, _: &Vec<String>| None), None);
}

#[test]
fn later_sources_are_left_alone() {
    let log = RefCell::new(Vec::new());
    let run = |program: &str, args: &Vec<String>| {
        log.borrow_mut().push(format!("{program} {}", args.join(" ")));
        prints("octocat\n")
    };
    assert_eq!(detect_gh_handle(&run).as_deref(), Some("octocat"));
    assert_eq!(*log.borrow(), vec!["git config --get github.user"]);
}

#[test]
fn scaffolds_a_fragment() {
    let run = |_: &str, _: &Vec<String>| prints("octocat\n");
    let made = cli("breaking", "my_change").exec("/repo", true, false, &join_path, &run).unwrap();
    assert_eq!(made.file, "/repo/changelog.d/my_change.breaking.md");
    assert_eq!(made.content, BREAKING);
    let nobody = |_: &str, _: &Vec<String>| None;
    let made = cli("fix", "my_change").exec("/repo/", true, false, &join_path, &nobody).unwrap();
    assert_eq!(made.file, "/repo/changelog.d/my_change.fix.md");
    assert_eq!(
        made.content,
        "TODO one-item description of the change.\n\nauthors: TODO_your_gh_handle\n"
    );
}

#[test]
fn refuses_to_scaffold() {
    let never = |_: &str, _: &Vec<String>| -> Option<CommandOutput> { panic!("nothing to run") };
    let error = cli("fix", "a").exec("/repo", false, true, &join_path, &never).unwrap_err();
    assert_eq!(error.message(), "/repo/changelog.d does not exist");
    let error = cli("fix", "a").exec("/repo", true, true, &join_path, &never).unwrap_err();
    assert_eq!(error.message(), "/repo/changelog.d/a.fix.md already exists");
}

#[test]
fn paths_are_joined_as_the_machine_asks() {
    let join = |base: &str, rest: &str| format!("{base}\\{rest}");
    let run = |_: &str, _: &Vec<String>| prints("octocat\n");
    let never = |_: &str, _: &Vec<String>| -> Option<CommandOutput> { panic!("nothing to run") };
    let error = cli("fix", "a").exec("C:\\repo", false, false, &join, &never).unwrap_err();
    assert_eq!(error.message(), "C:\\repo\\changelog.d does not exist");
    let error = cli("fix", "a").exec("C:\\repo", true, true, &join, &never).unwrap_err();
    assert_eq!(error.message(), "C:\\repo\\changelog.d\\a.fix.md already exists");
    let made = cli("fix", "a").exec("C:\\repo", true, false, &join, &run).unwrap();
    assert_eq!(made.file, "C:\\repo\\changelog.d\\a.fix.md");
    assert_eq!(cli("fix", "a").target("C:\\repo", &join), made.file);
}

#[test]
fn scaffolded_names_are_valid_unless_the_slug_has_a_dot() {
    let name = |slug: &str| {
        let file = cli("feature", slug).target("/repo", &join_path);
        file["/repo/changelog.d/".len()..].to_string()
    };
    assert_eq!(validate_filename(&name("my_change")).unwrap(), "feature");
    assert_eq!(
        validate_filename(&name("my.change")).unwrap_err().message(),
        "invalid fragment filename 'my.change.feature.md': expected '<unique_name>.<fragment_type>.md'"
    );
}

#[test]
fn scaffolded_paths_are_shown_from_the_root() {
    for root in ["/repo", "/", "/a//b/", "", "rel/."] {
        let file = cli("fix", "a").target(root, &join_path);
        assert_eq!(relative(root, &file, &strip_prefix), "changelog.d/a.fix.md", "{root:?}");
    }
}

#[test]
fn scaffolded_fragments_and_the_check() {
    let never = |_: &str| -> Parsed { panic!("no frontmatter to parse") };
    let content = render_template("fix", "octocat");
    validate_contents(&content, "a.fix.md", "fix", &never).unwrap();
    for kind in ["fix", "breaking"] {
        let content = render_template(kind, "TODO_your_gh_handle");
        let error = validate_authors(&content, "a.md").unwrap_err();
        assert!(error.message().contains("scaffolder placeholder"), "{}", error.message());
    }
    let titled = |title: &'static str| {
        move |yaml: &str| -> Parsed {
            assert_eq!(yaml, "title: \"TODO one-line title\"");
            Ok(BreakingFrontmatter { title: title.to_string(), anchor: None })
        }
    };
    let unedited = titled("TODO one-line title");
    let error = validate_contents(BREAKING, "a.breaking.md", "breaking", &unedited).unwrap_err();
    assert!(matches!(error.problem, Problem::TodoTitle), "{}", error.message());
    validate_contents(BREAKING, "a.breaking.md", "breaking", &titled("Edited")).unwrap();
}
