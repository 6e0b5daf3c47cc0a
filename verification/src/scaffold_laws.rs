//! What scaffolding a fragment is for.

use vstd::prelude::*;

use crate::error::Problem;
use crate::fragment;
use crate::laws;
use crate::path;
use crate::scaffold;
use crate::scaffold::{CommandOutput, NewFragment, ScaffoldError};
use crate::text;
use crate::text_laws;

verus! {

// ---------------------------------------------------------------------------------------------
// The contents of a new fragment
// ---------------------------------------------------------------------------------------------
/// A new fragment of any type but `breaking` is a description, a blank line and the authors line:
/// the same for all such types, and with no frontmatter.
pub proof fn law_plain_template(fragment_type: Seq<char>, other: Seq<char>, author: Seq<char>)
    requires
        fragment_type != "breaking"@,
    ensures
        ({
            let content = scaffold::template(fragment_type, author);
            &&& content == "TODO one-item description of the change.\n\nauthors: "@ + author + seq![
                '\n',
            ]
            &&& other != "breaking"@ ==> scaffold::template(other, author) == content
            &&& fragment::frontmatter_split(content) matches Err(Problem::NoFrontmatter)
            &&& !author.contains('\n') ==> text::raw_lines(content) == seq![
                "TODO one-item description of the change."@,
                seq![],
                "authors: "@ + author,
            ]
        }),
{
    reveal_strlit("TODO one-item description of the change.\n\nauthors: ");
    reveal_strlit("TODO one-item description of the change.");
    reveal_strlit("\n\nauthors: ");
    reveal_strlit("authors: ");
    reveal_strlit("\n");
    reveal_strlit("---\n");
    let content = scaffold::template(fragment_type, author);
    let description = "TODO one-item description of the change."@;
    let none: Seq<char> = seq![];
    assert(content =~= "TODO one-item description of the change.\n\nauthors: "@ + author + seq![
        '\n',
    ]);
    if "---\n"@.is_prefix_of(content) {
        assert(content.subrange(0, 4)[0] == content[0]);
        assert(content[0] == 'T');
    }
    if !author.contains('\n') {
        let line = "authors: "@ + author;
        laws::lemma_authors_line_is_one_line(author);
        let tail = line + seq!['\n'] + none;
        assert(content =~= description + seq!['\n'] + (none + seq!['\n'] + tail));
        assert(!description.contains('\n'));
        text_laws::law_lines(description, none + seq!['\n'] + tail);
        text_laws::law_lines(none, tail);
        text_laws::law_lines(line, none);
        assert(text::raw_lines(content) =~= seq![description, none, line]);
    }
}

/// A new breaking fragment has a title to be filled in, a summary and migration notes to be
/// replaced, and its author.
pub proof fn law_breaking_template(author: Seq<char>)
    ensures
        scaffold::template("breaking"@, author) == "---\n"@ + r#"title: "TODO one-line title""#@
            + "\n---\n"@ + "\n## Summary\n\n"@
            + "TODO one-paragraph summary that lands in the changelog list."@
            + "\n\n## Migration\n\n"@
            + r#"TODO how to migrate. Use "N/A" for informational-only breakers.

For config changes, show a before/after with fenced code blocks, e.g.:

##### Old

```yaml
sinks:
  my_sink:
    option: old_value
```

##### New

```yaml
sinks:
  my_sink:
    option: new_value
```"#@ + "\n\nauthors: "@ + author + "\n"@,
{
    assert(scaffold::template("breaking"@, author) =~= "---\n"@
        + r#"title: "TODO one-line title""#@ + "\n---\n"@ + "\n## Summary\n\n"@
        + scaffold::BREAKING_SUMMARY@ + "\n\n## Migration\n\n"@ + scaffold::BREAKING_MIGRATION@
        + "\n\nauthors: "@ + author + "\n"@);
}

// ---------------------------------------------------------------------------------------------
// The author of a new fragment
// ---------------------------------------------------------------------------------------------
/// A command tells what it prints without the white space around it, where it succeeds and prints
/// text that is not blank.
pub proof fn law_printed(output: CommandOutput, a: Seq<char>, core: Seq<char>, b: Seq<char>)
    requires
        forall|i: int| 0 <= i < a.len() ==> text::is_white_space(#[trigger] a[i]),
        forall|i: int| 0 <= i < b.len() ==> text::is_white_space(#[trigger] b[i]),
        core.len() > 0 ==> !text::is_white_space(core[0]) && !text::is_white_space(core.last()),
    ensures
        scaffold::printed_spec(None) is None,
        !output.success ==> scaffold::printed_spec(Some(output)) is None,
        !vstd::utf8::valid_utf8(output.stdout@) ==> scaffold::printed_spec(Some(output)) is None,
        output.success && output.stdout@ == vstd::utf8::encode_utf8(a + core + b)
            ==> scaffold::printed_spec(Some(output)) == if core.len() == 0 {
            None
        } else {
            Some(core)
        },
{
    text_laws::law_trimmed(a, core, b);
    vstd::utf8::encode_utf8_valid_utf8(a + core + b);
    vstd::utf8::encode_utf8_decode_utf8(a + core + b);
}

proof fn lemma_command_tells<C: Fn(&str, &Vec<String>) -> Option<CommandOutput>>(
    run: C,
    program: Seq<char>,
    args: Seq<Seq<char>>,
    value: Option<Seq<char>>,
) -> (call: (&'static str, &'static Vec<String>, Option<CommandOutput>))
    requires
        scaffold::command_tells(run, program, args, value),
    ensures
        call_ensures(run, (call.0, call.1), call.2),
        call.0@ == program,
        call.1@.len() == args.len(),
        forall|i: int| 0 <= i < args.len() ==> #[trigger] call.1@[i]@ == args[i],
        value == scaffold::printed_spec(call.2),
{
    let output = choose|output: Option<CommandOutput>| #[trigger]
        scaffold::run_gives(run, program, args, output) && value == scaffold::printed_spec(output);
    let (p, a) = choose|p: &'static str, a: &'static Vec<String>|
        p@ == program && text::owned_texts(a@) == args && #[trigger] call_ensures(
            run,
            (p, a),
            output,
        );
    assert(text::owned_texts(a@).len() == a@.len());
    assert forall|i: int| 0 <= i < args.len() implies #[trigger] a@[i]@ == args[i] by {
        assert(text::owned_texts(a@)[i] == a@[i]@);
    }
    (p, a, output)
}

/// The author's handle is what git's configuration says under `github.user`; where it says nothing,
/// the login that the GitHub command line tells; where that tells nothing, what the address in
/// git's configuration tells.
#[verifier::spinoff_prover]
#[verifier::rlimit(60)]
pub proof fn law_handle_sources<C: Fn(&str, &Vec<String>) -> Option<CommandOutput>>(
    run: C,
    user: Option<Seq<char>>,
    login: Option<Seq<char>>,
    email: Option<Seq<char>>,
    handle: Option<Seq<char>>,
)
    requires
        forall|p: &str, a: &Vec<String>, output: Option<CommandOutput>| #[trigger]
            call_ensures(run, (p, a), output) && p@ == "git"@ && a@.len() == 3 && a@[0]@
                == "config"@ && a@[1]@ == "--get"@ && a@[2]@ == "github.user"@
                ==> scaffold::printed_spec(output) == user,
        forall|p: &str, a: &Vec<String>, output: Option<CommandOutput>| #[trigger]
            call_ensures(run, (p, a), output) && p@ == "gh"@ && a@.len() == 4 && a@[0]@ == "api"@
                && a@[1]@ == "user"@ && a@[2]@ == "--jq"@ && a@[3]@ == ".login"@
                ==> scaffold::printed_spec(output) == login,
        forall|p: &str, a: &Vec<String>, output: Option<CommandOutput>| #[trigger]
            call_ensures(run, (p, a), output) && p@ == "git"@ && a@.len() == 3 && a@[0]@
                == "config"@ && a@[1]@ == "--get"@ && a@[2]@ == "user.email"@
                ==> scaffold::printed_spec(output) == email,
        scaffold::handle_found(run, handle),
    ensures
        handle == if user is Some {
            user
        } else if login is Some {
            login
        } else if email is Some {
            scaffold::noreply_handle(email->0)
        } else {
            None
        },
{
    let of_user = scaffold::config_args("github.user"@);
    let told = choose|told: Option<Seq<char>>| #[trigger]
        scaffold::command_tells(run, "git"@, of_user, told) && match told {
            Some(_) => handle == told,
            None => scaffold::login_tells(run, handle),
        };
    let call = lemma_command_tells(run, "git"@, of_user, told);
    assert(call.1@[0]@ == of_user[0] && call.1@[1]@ == of_user[1] && call.1@[2]@ == of_user[2]);
    assert(told == user);
    if user is None {
        let args = scaffold::login_args();
        let told = choose|told: Option<Seq<char>>| #[trigger]
            scaffold::command_tells(run, "gh"@, args, told) && match told {
                Some(_) => handle == told,
                None => scaffold::email_tells(run, handle),
            };
        let call = lemma_command_tells(run, "gh"@, args, told);
        assert(call.1@[0]@ == args[0] && call.1@[1]@ == args[1] && call.1@[2]@ == args[2]
            && call.1@[3]@ == args[3]);
        assert(told == login);
        if login is None {
            let of_email = scaffold::config_args("user.email"@);
            let told = choose|told: Option<Seq<char>>| #[trigger]
                scaffold::command_tells(run, "git"@, of_email, told) && handle == match told {
                    Some(address) => scaffold::noreply_handle(address),
                    None => None,
                };
            let call = lemma_command_tells(run, "git"@, of_email, told);
            assert(call.1@[0]@ == of_email[0] && call.1@[1]@ == of_email[1] && call.1@[2]@
                == of_email[2]);
            assert(told == email);
        }
    }
}

/// One command is run for a key of git's configuration, and one for the GitHub login.
pub proof fn law_commands<C: Fn(&str, &Vec<String>) -> Option<CommandOutput>>(
    run: C,
    key: Seq<char>,
    configured: Option<Seq<char>>,
    login: Option<Seq<char>>,
)
    requires
        scaffold::command_tells(run, "git"@, scaffold::config_args(key), configured),
        scaffold::command_tells(run, "gh"@, scaffold::login_args(), login),
    ensures
        exists|p: &str, a: &Vec<String>, output: Option<CommandOutput>| #[trigger]
            call_ensures(run, (p, a), output) && p@ == "git"@ && a@.len() == 3 && a@[0]@
                == "config"@ && a@[1]@ == "--get"@ && a@[2]@ == key && configured
                == scaffold::printed_spec(output),
        exists|p: &str, a: &Vec<String>, output: Option<CommandOutput>| #[trigger]
            call_ensures(run, (p, a), output) && p@ == "gh"@ && a@.len() == 4 && a@[0]@ == "api"@
                && a@[1]@ == "user"@ && a@[2]@ == "--jq"@ && a@[3]@ == ".login"@ && login
                == scaffold::printed_spec(output),
{
    let args = scaffold::config_args(key);
    let one = lemma_command_tells(run, "git"@, args, configured);
    assert(one.1@[0]@ == args[0] && one.1@[1]@ == args[1] && one.1@[2]@ == args[2]);
    let args = scaffold::login_args();
    let two = lemma_command_tells(run, "gh"@, args, login);
    assert(two.1@[0]@ == args[0] && two.1@[1]@ == args[1] && two.1@[2]@ == args[2] && two.1@[3]@
        == args[3]);
}

/// An address tells a handle only where it is a GitHub no-reply address: the handle, or a number, a
/// plus sign and the handle, before the one `@` and GitHub's domain.
#[verifier::spinoff_prover]
#[verifier::rlimit(60)]
pub proof fn law_noreply_address(email: Seq<char>, handle: Seq<char>)
    requires
        scaffold::noreply_handle(email) == Some(handle),
    ensures
        handle.len() > 0,
        !handle.contains('@'),
        (!handle.contains('+') && email == handle + "@users.noreply.github.com"@) || exists|
            id: Seq<char>,
        |
            !id.contains('@') && !id.contains('+') && email == #[trigger] (id + "+"@ + handle
                + "@users.noreply.github.com"@),
{
    reveal_strlit("+");
    reveal_strlit("@users.noreply.github.com");
    reveal_strlit("users.noreply.github.com");
    let domain = "users.noreply.github.com"@;
    let at = text::index_of(email, '@');
    text::lemma_index_of(email, '@');
    let local = email.take(at);
    let plus = text::index_of(local, '+');
    text::lemma_index_of(local, '+');
    assert("@users.noreply.github.com"@ =~= seq!['@'] + domain);
    assert(email =~= local + seq!['@'] + domain) by {
        assert(email =~= local + seq!['@'] + email.skip(at + 1));
    }
    assert(!local.contains('@'));
    if plus < local.len() {
        let id = local.take(plus);
        assert(local =~= id + seq!['+'] + handle);
        assert(!id.contains('@')) by {
            if id.contains('@') {
                let j = choose|j: int| 0 <= j < id.len() && id[j] == '@';
                assert(local[j] == '@');
            }
        }
        assert(!handle.contains('@')) by {
            if handle.contains('@') {
                let j = choose|j: int| 0 <= j < handle.len() && handle[j] == '@';
                assert(local[plus + 1 + j] == '@');
            }
        }
        assert(!id.contains('+'));
        assert(email =~= id + "+"@ + handle + "@users.noreply.github.com"@);
    } else {
        assert(handle == local);
        assert(email =~= handle + "@users.noreply.github.com"@);
    }
}

// ---------------------------------------------------------------------------------------------
// The new fragment
// ---------------------------------------------------------------------------------------------
/// The new fragment stands in `changelog.d` below the root of the repository, in a file that is
/// called by its slug and its type.
#[verifier::spinoff_prover]
#[verifier::rlimit(60)]
pub proof fn law_target<J: Fn(&str, &str) -> String>(
    cli: scaffold::Cli,
    repo_root: Seq<char>,
    join: J,
    file: Seq<char>,
)
    requires
        scaffold::target_outcome(cli, repo_root, join, file),
    ensures
        exists|root: &str, dir_name: &str, dir: String, above: &str, name: &str, joined: String|
            root@ == repo_root && dir_name@ == "changelog.d"@ && #[trigger] call_ensures(
                join,
                (root, dir_name),
                dir,
            ) && above@ == dir@ && name@ == cli.slug@ + seq!['.'] + cli.fragment_type@ + seq![
                '.',
                'm',
                'd',
            ] && #[trigger] call_ensures(join, (above, name), joined) && joined@ == file,
{
    reveal_strlit(".");
    reveal_strlit(".md");
    let wanted = scaffold::fragment_file_name(cli.slug@, cli.fragment_type@);
    assert(wanted =~= cli.slug@ + seq!['.'] + cli.fragment_type@ + seq!['.', 'm', 'd']);
    let d = choose|d: Seq<char>| #[trigger]
        path::join_gives(join, repo_root, "changelog.d"@, d) && path::join_gives(
            join,
            d,
            wanted,
            file,
        );
    let (root, dir_name, dir) = choose|root: &str, dir_name: &str, dir: String|
        root@ == repo_root && dir_name@ == "changelog.d"@ && #[trigger] call_ensures(
            join,
            (root, dir_name),
            dir,
        ) && dir@ == d;
    let (above, name, joined) = choose|above: &str, name: &str, joined: String|
        above@ == d && name@ == wanted && #[trigger] call_ensures(join, (above, name), joined)
            && joined@ == file;
    assert(call_ensures(join, (root, dir_name), dir));
    assert(call_ensures(join, (above, name), joined));
}

/// A scaffolded fragment goes to its file and tells the author that was found, or the placeholder.
pub proof fn law_scaffolded<
    J: Fn(&str, &str) -> String,
    C: Fn(&str, &Vec<String>) -> Option<CommandOutput>,
>(
    cli: scaffold::Cli,
    repo_root: Seq<char>,
    join: J,
    run: C,
    handle: Option<Seq<char>>,
    made: NewFragment<Seq<char>>,
)
    requires
        scaffold::scaffolded(cli, repo_root, join, run, made),
        forall|found: Option<Seq<char>>| #[trigger]
            scaffold::handle_found(run, found) ==> found == handle,
    ensures
        scaffold::target_outcome(cli, repo_root, join, made.file),
        handle is Some ==> made.content == scaffold::template(cli.fragment_type@, handle->0),
        handle is None ==> made.content == scaffold::template(
            cli.fragment_type@,
            "TODO_your_gh_handle"@,
        ),
{
}

/// A message names the path that stands in the way.
pub proof fn law_scaffold_messages(given: Seq<char>)
    ensures
        scaffold::scaffold_message_spec(ScaffoldError::NoDirectory { dir: given }) == given
            + " does not exist"@,
        scaffold::scaffold_message_spec(ScaffoldError::AlreadyExists { file: given }) == given
            + " already exists"@,
{
}

/// What was made, or what stands in the way of it, does not change with how its text is held.
pub proof fn law_scaffold_views(made: NewFragment<String>, error: ScaffoldError<String>)
    ensures
        made@.file == made.file@,
        made@.content == made.content@,
        error is NoDirectory <==> error@ is NoDirectory,
        error is NoDirectory ==> error@->dir == error->dir@,
        error is AlreadyExists ==> error@->file == error->file@,
{
}

} // verus!
