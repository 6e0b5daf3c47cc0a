//! Scaffolding a new changelog fragment.

use vstd::prelude::*;

use crate::check::CHANGELOG_DIR;
use crate::fragment;
use crate::fragment::TODO_HANDLE;
use crate::path;
use crate::text;
use crate::text::{chars_of, find_char, same_text, trim};

verus! {

// ---------------------------------------------------------------------------------------------
// The contents of a new fragment
// ---------------------------------------------------------------------------------------------
/// The frontmatter of a new breaking fragment.
pub const BREAKING_FRONTMATTER: &'static str = r#"title: "TODO one-line title""#;

/// The summary in a new breaking fragment.
pub const BREAKING_SUMMARY: &'static str =
    "TODO one-paragraph summary that lands in the changelog list.";

/// The migration notes in a new breaking fragment.
pub const BREAKING_MIGRATION: &'static str =
    r#"TODO how to migrate. Use "N/A" for informational-only breakers.

For config changes, show a before/after with fenced code blocks, e.g.:

##### Old

```yaml
sinks:
  my_sink:
    option: old_value
```

##### New

```yaml
sinks:
  my_sink:
    option: new_value
```"#;

/// The description in a new fragment of any other type.
pub const PLAIN_DESCRIPTION: &'static str = "TODO one-item description of the change.";

/// What a new fragment holds.
pub open spec fn template(fragment_type: Seq<char>, author: Seq<char>) -> Seq<char> {
    if fragment_type == "breaking"@ {
        fragment::layout(
            BREAKING_FRONTMATTER@,
            BREAKING_SUMMARY@,
            BREAKING_MIGRATION@,
            author,
        )
    } else {
        PLAIN_DESCRIPTION@ + "\n\nauthors: "@ + author + "\n"@
    }
}

/// What a new fragment holds: one in the layout of breaking fragments, or a description and its
/// author.
pub fn render_template(fragment_type: &str, author: &str) -> (content: String)
    ensures
        content@ == template(fragment_type@, author@),
{
    let mut content = if same_text(fragment_type, "breaking") {
        let mut start = "---\n".to_owned();
        start.append(BREAKING_FRONTMATTER);
        start.append("\n---\n");
        start.append("\n## Summary\n\n");
        start.append(BREAKING_SUMMARY);
        start.append("\n\n## Migration\n\n");
        start.append(BREAKING_MIGRATION);
        start
    } else {
        PLAIN_DESCRIPTION.to_owned()
    };
    content.append("\n\nauthors: ");
    content.append(author);
    content.append("\n");
    assert(content@ =~= template(fragment_type@, author@));
    content
}

// ---------------------------------------------------------------------------------------------
// The author of a new fragment
// ---------------------------------------------------------------------------------------------
/// What a command that was run to its end left behind.
#[derive(Debug)]
pub struct CommandOutput {
    /// It reported success.
    pub success: bool,
    /// What it printed.
    pub stdout: Vec<u8>,
}

/// The text that a command printed, trimmed, where it succeeded and printed any.
pub open spec fn printed_spec(output: Option<CommandOutput>) -> Option<Seq<char>> {
    match output {
        None => None,
        Some(o) => {
            let shown = text::trimmed(vstd::utf8::decode_utf8(o.stdout@));
            if o.success && vstd::utf8::valid_utf8(o.stdout@) && shown.len() > 0 {
                Some(shown)
            } else {
                None
            }
        },
    }
}

/// `String::from_utf8` of the standard library: claimed to give the text that the bytes encode
/// where they are valid UTF-8, and to fail where they are not.
#[verifier::external_body]
fn utf8_text(bytes: Vec<u8>) -> (found: Option<String>)
    ensures
        match found {
            Some(s) => vstd::utf8::valid_utf8(bytes@) && s@ == vstd::utf8::decode_utf8(bytes@),
            None => !vstd::utf8::valid_utf8(bytes@),
        },
{
    String::from_utf8(bytes).ok()
}

/// The text that a command printed, trimmed, where it succeeded and printed any.
pub fn printed(output: Option<CommandOutput>) -> (value: Option<String>)
    ensures
        text::option_view(value) == printed_spec(output),
{
    match output {
        None => None,
        Some(o) => {
            if !o.success {
                return None;
            }
            match utf8_text(o.stdout) {
                None => None,
                Some(shown) => {
                    let value = trim(shown.as_str());
                    if value.is_empty() {
                        None
                    } else {
                        Some(value.to_owned())
                    }
                },
            }
        },
    }
}

/// `run` can leave `output` behind when it is to run `program` with the arguments `args`.
pub open spec fn run_gives<C: Fn(&str, &Vec<String>) -> Option<CommandOutput>>(
    run: C,
    program: Seq<char>,
    args: Seq<Seq<char>>,
    output: Option<CommandOutput>,
) -> bool {
    exists|p: &str, a: &Vec<String>|
        p@ == program && text::owned_texts(a@) == args && #[trigger] call_ensures(
            run,
            (p, a),
            output,
        )
}

/// What a command, run with these arguments, can tell.
pub open spec fn command_tells<C: Fn(&str, &Vec<String>) -> Option<CommandOutput>>(
    run: C,
    program: Seq<char>,
    args: Seq<Seq<char>>,
    value: Option<Seq<char>>,
) -> bool {
    exists|output: Option<CommandOutput>| #[trigger]
        run_gives(run, program, args, output) && value == printed_spec(output)
}

/// The arguments with which git tells the value of a configuration key.
pub open spec fn config_args(key: Seq<char>) -> Seq<Seq<char>> {
    seq!["config"@, "--get"@, key]
}

/// The arguments with which the GitHub command line tells who is logged in.
pub open spec fn login_args() -> Seq<Seq<char>> {
    seq!["api"@, "user"@, "--jq"@, ".login"@]
}

/// The value of a key in git's configuration, where it has one.
pub fn git_config<C: Fn(&str, &Vec<String>) -> Option<CommandOutput>>(key: &str, run: &C) -> (value:
    Option<String>)
    requires
        forall|p: &str, a: &Vec<String>| call_requires(*run, (p, a)),
    ensures
        command_tells(*run, "git"@, config_args(key@), text::option_view(value)),
{
    let args = vec!["config".to_owned(), "--get".to_owned(), key.to_owned()];
    assert(text::owned_texts(args@) =~= config_args(key@));
    let output = run("git", &args);
    assert(run_gives(*run, "git"@, config_args(key@), output));
    printed(output)
}

/// Who is logged in to GitHub, where the GitHub command line can tell.
pub fn gh_authenticated_login<C: Fn(&str, &Vec<String>) -> Option<CommandOutput>>(run: &C) -> (value:
    Option<String>)
    requires
        forall|p: &str, a: &Vec<String>| call_requires(*run, (p, a)),
    ensures
        command_tells(*run, "gh"@, login_args(), text::option_view(value)),
{
    let args = vec!["api".to_owned(), "user".to_owned(), "--jq".to_owned(), ".login".to_owned()];
    assert(text::owned_texts(args@) =~= login_args());
    let output = run("gh", &args);
    assert(run_gives(*run, "gh"@, login_args(), output));
    printed(output)
}

/// The handle that a GitHub no-reply address tells: `<id>+<handle>@users.noreply.github.com` or
/// `<handle>@users.noreply.github.com`.
pub open spec fn noreply_handle(email: Seq<char>) -> Option<Seq<char>> {
    let at = text::index_of(email, '@');
    let local = email.take(at);
    let plus = text::index_of(local, '+');
    let handle = if plus < local.len() {
        local.skip(plus + 1)
    } else {
        local
    };
    if at < email.len() && email.skip(at + 1) == "users.noreply.github.com"@ && handle.len() > 0 {
        Some(handle)
    } else {
        None
    }
}

/// The handle that a GitHub no-reply address tells.
pub fn handle_from_noreply(email: &str) -> (handle: Option<String>)
    ensures
        text::option_view(handle) == noreply_handle(email@),
{
    let v = chars_of(email);
    let at = find_char(&v, 0, '@');
    assert(email@.skip(0) == email@);
    if at == v.len() {
        return None;
    }
    let domain = email.substring_char(at + 1, v.len());
    assert(domain@ == email@.skip(at + 1));
    if !same_text(domain, "users.noreply.github.com") {
        return None;
    }
    let local = email.substring_char(0, at);
    assert(local@ == email@.take(at as int));
    let w = chars_of(local);
    let plus = find_char(&w, 0, '+');
    assert(local@.skip(0) == local@);
    let handle = if plus < w.len() {
        let handle = local.substring_char(plus + 1, w.len());
        assert(handle@ == local@.skip(plus + 1));
        handle
    } else {
        local
    };
    if handle.is_empty() {
        None
    } else {
        Some(handle.to_owned())
    }
}

/// What the address in git's configuration can tell about the author's handle.
pub open spec fn email_tells<C: Fn(&str, &Vec<String>) -> Option<CommandOutput>>(
    run: C,
    handle: Option<Seq<char>>,
) -> bool {
    exists|email: Option<Seq<char>>| #[trigger]
        command_tells(run, "git"@, config_args("user.email"@), email) && handle == match email {
            Some(address) => noreply_handle(address),
            None => None,
        }
}

/// What the GitHub command line, and where it tells nothing the address in git's configuration,
/// can tell about the author's handle.
pub open spec fn login_tells<C: Fn(&str, &Vec<String>) -> Option<CommandOutput>>(
    run: C,
    handle: Option<Seq<char>>,
) -> bool {
    exists|login: Option<Seq<char>>| #[trigger]
        command_tells(run, "gh"@, login_args(), login) && match login {
            Some(_) => handle == login,
            None => email_tells(run, handle),
        }
}

/// What can be found out about the author's handle: first from the key `github.user` in git's
/// configuration, then from the GitHub command line, then from the address in git's
/// configuration.
pub open spec fn handle_found<C: Fn(&str, &Vec<String>) -> Option<CommandOutput>>(
    run: C,
    handle: Option<Seq<char>>,
) -> bool {
    exists|user: Option<Seq<char>>| #[trigger]
        command_tells(run, "git"@, config_args("github.user"@), user) && match user {
            Some(_) => handle == user,
            None => login_tells(run, handle),
        }
}

/// Best-effort detection of the author's GitHub handle. `run` runs a program to its end, where
/// it can be started.
///
/// 1. `git config --get github.user` (explicit override)
/// 2. `gh api user --jq .login` (uses the authenticated `gh` CLI if installed)
/// 3. `git config user.email` when it matches `<id>+<handle>@users.noreply.github.com`
///    or `<handle>@users.noreply.github.com`
pub fn detect_gh_handle<C: Fn(&str, &Vec<String>) -> Option<CommandOutput>>(run: &C) -> (handle:
    Option<String>)
    requires
        forall|p: &str, a: &Vec<String>| call_requires(*run, (p, a)),
    ensures
        handle_found(*run, text::option_view(handle)),
{
    let user = git_config("github.user", run);
    let ghost seen_user = text::option_view(user);
    assert(command_tells(*run, "git"@, config_args("github.user"@), seen_user));
    if user.is_some() {
        return user;
    }
    let login = gh_authenticated_login(run);
    let ghost seen_login = text::option_view(login);
    assert(command_tells(*run, "gh"@, login_args(), seen_login));
    if login.is_some() {
        assert(login_tells(*run, seen_login));
        return login;
    }
    let email = git_config("user.email", run);
    let ghost seen_email = text::option_view(email);
    assert(command_tells(*run, "git"@, config_args("user.email"@), seen_email));
    let handle = match email {
        Some(address) => handle_from_noreply(address.as_str()),
        None => None,
    };
    assert(email_tells(*run, text::option_view(handle)));
    assert(login_tells(*run, text::option_view(handle)));
    handle
}

// ---------------------------------------------------------------------------------------------
// The new fragment
// ---------------------------------------------------------------------------------------------
/// Why a fragment is not scaffolded. `T` is how text is held: a `String`, or the characters alone
/// in contracts.
#[derive(Debug)]
pub enum ScaffoldError<T = String> {
    /// The repository has no directory for fragments.
    NoDirectory { dir: T },
    /// There is a file of this name already.
    AlreadyExists { file: T },
}

impl View for ScaffoldError<String> {
    type V = ScaffoldError<Seq<char>>;

    open spec fn view(&self) -> ScaffoldError<Seq<char>> {
        match *self {
            ScaffoldError::NoDirectory { dir } => ScaffoldError::NoDirectory { dir: dir@ },
            ScaffoldError::AlreadyExists { file } => ScaffoldError::AlreadyExists { file: file@ },
        }
    }
}

/// The message about an error.
pub open spec fn scaffold_message_spec(error: ScaffoldError<Seq<char>>) -> Seq<char> {
    match error {
        ScaffoldError::NoDirectory { dir } => dir + " does not exist"@,
        ScaffoldError::AlreadyExists { file } => file + " already exists"@,
    }
}

impl ScaffoldError<String> {
    /// The message about the error.
    pub fn message(&self) -> (message: String)
        ensures
            message@ == scaffold_message_spec(self@),
    {
        match self {
            ScaffoldError::NoDirectory { dir } => {
                let mut message = dir.as_str().to_owned();
                message.append(" does not exist");
                message
            },
            ScaffoldError::AlreadyExists { file } => {
                let mut message = file.as_str().to_owned();
                message.append(" already exists");
                message
            },
        }
    }
}

/// A fragment to be written: where, and what it holds.
#[derive(Debug)]
pub struct NewFragment<T = String> {
    pub file: T,
    pub content: T,
}

impl View for NewFragment<String> {
    type V = NewFragment<Seq<char>>;

    open spec fn view(&self) -> NewFragment<Seq<char>> {
        NewFragment { file: self.file@, content: self.content@ }
    }
}

/// The name of the file that a fragment stands in.
pub open spec fn fragment_file_name(slug: Seq<char>, fragment_type: Seq<char>) -> Seq<char> {
    slug + "."@ + fragment_type + ".md"@
}

/// Scaffolds a new changelog fragment.
#[derive(Debug)]
pub struct Cli {
    /// Fragment type.
    pub fragment_type: String,
    /// Unique slug (used as the filename prefix, e.g. `env_var_interpolation`).
    pub slug: String,
}

/// The file that the new fragment can go to: it stands in the directory for fragments of the
/// repository.
pub open spec fn target_outcome<J: Fn(&str, &str) -> String>(
    cli: Cli,
    repo_root: Seq<char>,
    join: J,
    file: Seq<char>,
) -> bool {
    exists|dir: Seq<char>| #[trigger]
        path::join_gives(join, repo_root, CHANGELOG_DIR@, dir) && path::join_gives(
            join,
            dir,
            fragment_file_name(cli.slug@, cli.fragment_type@),
            file,
        )
}

/// What scaffolding can come to where nothing stands in the way of it: the author is the handle
/// that was found, or the placeholder.
pub open spec fn scaffolded<
    J: Fn(&str, &str) -> String,
    C: Fn(&str, &Vec<String>) -> Option<CommandOutput>,
>(cli: Cli, repo_root: Seq<char>, join: J, run: C, made: NewFragment<Seq<char>>) -> bool {
    &&& target_outcome(cli, repo_root, join, made.file)
    &&& exists|handle: Option<Seq<char>>| #[trigger]
        handle_found(run, handle) && made.content == template(
            cli.fragment_type@,
            match handle {
                Some(h) => h,
                None => TODO_HANDLE@,
            },
        )
}

impl Cli {
    /// The file that the new fragment goes to. `join` puts one path below another as the paths of
    /// the machine ask for: `join_path` where they are those of Unix.
    pub fn target<J: Fn(&str, &str) -> String>(&self, repo_root: &str, join: &J) -> (file: String)
        requires
            forall|b: &str, r: &str| call_requires(*join, (b, r)),
        ensures
            target_outcome(*self, repo_root@, *join, file@),
    {
        let dir = join(repo_root, CHANGELOG_DIR);
        assert(path::join_gives(*join, repo_root@, CHANGELOG_DIR@, dir@));
        let mut name = self.slug.as_str().to_owned();
        name.append(".");
        name.append(self.fragment_type.as_str());
        name.append(".md");
        let file = join(dir.as_str(), name.as_str());
        assert(path::join_gives(*join, dir@, name@, file@));
        file
    }

    /// The fragment to be written. `dir_exists` tells whether the directory for fragments is
    /// there and `file_exists` whether the file is, `join` puts one path below another, and `run`
    /// runs a program to its end, where it can be started.
    pub fn exec<
        J: Fn(&str, &str) -> String,
        C: Fn(&str, &Vec<String>) -> Option<CommandOutput>,
    >(self, repo_root: &str, dir_exists: bool, file_exists: bool, join: &J, run: &C) -> (result:
        Result<NewFragment<String>, ScaffoldError<String>>)
        requires
            forall|b: &str, r: &str| call_requires(*join, (b, r)),
            forall|p: &str, a: &Vec<String>| call_requires(*run, (p, a)),
        ensures
            if !dir_exists {
                result matches Err(ScaffoldError::NoDirectory { dir }) && path::join_gives(
                    *join,
                    repo_root@,
                    CHANGELOG_DIR@,
                    dir@,
                )
            } else if file_exists {
                result matches Err(ScaffoldError::AlreadyExists { file }) && target_outcome(
                    self,
                    repo_root@,
                    *join,
                    file@,
                )
            } else {
                result matches Ok(made) && scaffolded(self, repo_root@, *join, *run, made@)
            },
    {
        if !dir_exists {
            let dir = join(repo_root, CHANGELOG_DIR);
            return Err(ScaffoldError::NoDirectory { dir });
        }
        let file = self.target(repo_root, join);
        if file_exists {
            return Err(ScaffoldError::AlreadyExists { file });
        }
        let handle = detect_gh_handle(run);
        let ghost found = text::option_view(handle);
        assert(handle_found(*run, found));
        let author = match handle {
            Some(h) => h,
            None => TODO_HANDLE.to_owned(),
        };
        let content = render_template(self.fragment_type.as_str(), author.as_str());
        Ok(NewFragment { file, content })
    }
}

} // verus!
