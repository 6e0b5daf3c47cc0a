//! What the check of the files that a branch adds is for.

use vstd::prelude::*;

use crate::check;
use crate::check::{CheckError, Outcome};
use crate::error;
use crate::error::FragmentError;
use crate::fragment;
use crate::fragment::{Parsed, Verdict};
use crate::path;
use crate::path_laws;
use crate::text;
use crate::text_laws;

verus! {

// ---------------------------------------------------------------------------------------------
// Errors
// ---------------------------------------------------------------------------------------------
/// What an error is does not change with how its text is held.
pub proof fn law_check_error_view(error: CheckError<String>)
    ensures
        error is NoChangelogDir <==> error@ is NoChangelogDir,
        error is Git <==> error@ is Git,
        error is NoFragments <==> error@ is NoFragments,
        error is TooManyFragments <==> error@ is TooManyFragments,
        error is UnexpectedPath <==> error@ is UnexpectedPath,
        error is NotDirectlyInside <==> error@ is NotDirectlyInside,
        error is Unreadable <==> error@ is Unreadable,
        error is Fragment <==> error@ is Fragment,
        error is NoChangelogDir ==> error@->repo_root == error->repo_root@,
        error is Git ==> error@->Git_cause == error->Git_cause@,
        error is TooManyFragments ==> error@->found == error->found && error@->max == error->max,
        error is UnexpectedPath ==> error@->UnexpectedPath_path == error->UnexpectedPath_path@,
        error is NotDirectlyInside ==> error@->NotDirectlyInside_path
            == error->NotDirectlyInside_path@,
        error is Unreadable ==> error@->Unreadable_cause == error->Unreadable_cause@,
        error is Fragment ==> error@->Fragment_0 == error->Fragment_0@,
        check::outcome_view(Err(error)) == Outcome::Err(error@),
        check::outcome_view(Ok(())) == Outcome::Ok(()),
{
}

/// A message tells why a check fails.
pub proof fn law_check_messages(
    given: Seq<char>,
    found: usize,
    max: usize,
    fragment: FragmentError<Seq<char>>,
)
    ensures
        check::check_message_spec(CheckError::NoChangelogDir { repo_root: given })
            == "No changelog.d/ directory at "@ + given
            + ". Run this from the Vector repo root."@,
        check::check_message_spec(CheckError::Git { cause: given }) == given,
        check::check_message_spec(CheckError::NoFragments)
            == "No changelog fragments detected. If no changes necessitate user-facing explanations, add the 'no-changelog' label. Otherwise, add fragments to changelog.d/ (see changelog.d/README.md)."@,
        check::check_message_spec(CheckError::TooManyFragments { found, max })
            == "Too many changelog fragments ("@ + text::decimal(found as nat) + " > "@
            + text::decimal(max as nat) + ")."@,
        check::check_message_spec(CheckError::UnexpectedPath { path: given })
            == "Unexpected fragment path: "@ + given,
        check::check_message_spec(CheckError::NotDirectlyInside { path: given })
            == "invalid fragment path '"@ + given
            + "': fragments must live directly under changelog.d/, not in a subdirectory."@,
        check::check_message_spec(CheckError::Unreadable { cause: given }) == given,
        check::check_message_spec(CheckError::Fragment(fragment)) == error::message_spec(fragment),
{
}

// ---------------------------------------------------------------------------------------------
// The added files
// ---------------------------------------------------------------------------------------------
proof fn lemma_listed_add(first: Seq<char>, others: Seq<Seq<char>>)
    ensures
        ({
            let keep = |line: Seq<char>| !text::is_blank(line);
            (seq![first] + others).filter(keep) == (if text::is_blank(first) {
                seq![]
            } else {
                seq![first]
            }) + others.filter(keep)
        }),
{
    let keep = |line: Seq<char>| !text::is_blank(line);
    Seq::filter_distributes_over_add(seq![first], others, keep);
    reveal(Seq::filter);
    let one = seq![first];
    assert(one.drop_last() =~= seq![]);
    assert(one.drop_last().filter(keep) =~= seq![]);
    assert(one.filter(keep) =~= if text::is_blank(first) {
        seq![]
    } else {
        seq![first]
    });
}

/// Every line of a listing that is not all white space is a path, without the carriage return that
/// may end it, and nothing else is.
#[verifier::spinoff_prover]
#[verifier::rlimit(60)]
pub proof fn law_listing(line: Seq<char>, rest: Seq<char>)
    requires
        !line.contains('\n'),
    ensures
        check::listed_spec(Seq::<char>::empty()) == Seq::<Seq<char>>::empty(),
        (exists|i: int| 0 <= i < line.len() && !text::is_white_space(#[trigger] line[i])) ==> {
            &&& check::listed_spec(line) == seq![line]
            &&& line.last() != '\r' ==> check::listed_spec(line + seq!['\n'] + rest) == seq![line]
                + check::listed_spec(rest)
            &&& check::listed_spec(line + seq!['\r', '\n'] + rest) == seq![line]
                + check::listed_spec(rest)
        },
        (forall|i: int| 0 <= i < line.len() ==> text::is_white_space(#[trigger] line[i])) ==> {
            &&& check::listed_spec(line) == Seq::<Seq<char>>::empty()
            &&& check::listed_spec(line + seq!['\n'] + rest) == check::listed_spec(rest)
        },
{
    reveal(Seq::filter);
    let none: Seq<Seq<char>> = seq![];
    let keep = |line: Seq<char>| !text::is_blank(line);
    assert(none.filter(keep) =~= none);
    text_laws::law_lines(line, rest);
    lemma_listed_add(line, text::lines(rest));
    lemma_listed_add(line, none);
    assert(seq![line] + none =~= seq![line]);
    assert(none + text::lines(rest).filter(keep) =~= text::lines(rest).filter(keep));
    if text::is_blank(line) {
        if line.len() > 0 && line.last() == '\r' {
            let cut = line.drop_last();
            assert(line =~= cut.push('\r'));
            assert(!cut.contains('\n')) by {
                if cut.contains('\n') {
                    let j = choose|j: int| 0 <= j < cut.len() && cut[j] == '\n';
                    assert(line[j] == '\n');
                }
            }
            text_laws::law_lines(cut, rest);
            assert(cut + seq!['\r', '\n'] + rest =~= line + seq!['\n'] + rest);
            lemma_listed_add(cut, text::lines(rest));
            assert(text::is_blank(cut)) by {
                assert forall|i: int| 0 <= i < cut.len() implies text::is_white_space(
                    #[trigger] cut[i],
                ) by {
                    assert(cut[i] == line[i]);
                }
            }
        }
        if line.len() == 0 {
            assert(line =~= seq![]);
        }
    }
}

/// Paths that are listed one on a line are the listed paths: all of them, in order, and as often as
/// each is listed.
pub proof fn law_listed_paths(paths: Seq<Seq<char>>)
    requires
        paths.len() > 0,
        forall|i: int|
            0 <= i < paths.len() ==> {
                let path = #[trigger] paths[i];
                &&& !path.contains('\n') && !path.contains('\r')
                &&& exists|j: int| 0 <= j < path.len() && !text::is_white_space(#[trigger] path[j])
            },
    ensures
        check::listed_spec(text::join(paths, seq!['\n']) + seq!['\n']) == paths,
    decreases paths.len(),
{
    let nl = seq!['\n'];
    let first = paths[0];
    let rest = paths.skip(1);
    assert(first.last() != '\r') by {
        let j = choose|j: int| 0 <= j < first.len() && !text::is_white_space(#[trigger] first[j]);
        assert(first.contains(first[first.len() - 1]));
    }
    text_laws::law_join(seq![first], rest, nl);
    if rest.len() == 0 {
        assert(paths =~= seq![first]);
        law_listing(first, seq![]);
        assert(first + nl + seq![] =~= first + nl);
        assert(seq![first] + Seq::<Seq<char>>::empty() =~= paths);
    } else {
        assert forall|i: int| 0 <= i < rest.len() implies {
            let path = #[trigger] rest[i];
            &&& !path.contains('\n') && !path.contains('\r')
            &&& exists|j: int| 0 <= j < path.len() && !text::is_white_space(#[trigger] path[j])
        } by {
            assert(rest[i] == paths[i + 1]);
        }
        law_listed_paths(rest);
        let tail = text::join(rest, nl) + nl;
        law_listing(first, tail);
        assert(paths =~= seq![first] + rest);
        assert(text::join(paths, nl) + nl =~= first + nl + tail);
    }
}

/// A check that finds the directory for fragments asks git for the files that were added to it
/// since the merge base, and goes on with what git lists, or fails with what git fails with. A
/// check that does not find the directory fails.
#[verifier::spinoff_prover]
#[verifier::rlimit(60)]
pub proof fn law_git_is_asked<
    G: Fn(&Vec<String>) -> Result<String, String>,
    R: Fn(&str) -> Result<String, String>,
    P: Fn(&str) -> Parsed,
>(
    cli: check::Cli,
    repo_root: Seq<char>,
    has_changelog_dir: bool,
    git: G,
    read: R,
    parse: P,
    outcome: Outcome,
)
    requires
        check::exec_outcome(cli, repo_root, has_changelog_dir, git, read, parse, outcome),
    ensures
        !has_changelog_dir ==> outcome == Outcome::Err(CheckError::NoChangelogDir { repo_root }),
        has_changelog_dir ==> exists|args: &Vec<String>, reply: Result<String, String>| #[trigger]
            call_ensures(git, (args,), reply) && {
                &&& args@.len() == 6
                &&& args@[0]@ == "diff"@
                &&& args@[1]@ == "--name-only"@
                &&& args@[2]@ == "--diff-filter=A"@
                &&& args@[3]@ == "--merge-base"@
                &&& args@[4]@ == cli.merge_base@
                &&& args@[5]@ == "changelog.d"@
                &&& match reply {
                    Err(cause) => outcome == Outcome::Err(CheckError::Git { cause: cause@ }),
                    Ok(listing) => check::listing_outcome(
                        cli.max_fragments,
                        read,
                        parse,
                        Ok(check::listed_spec(listing@)),
                        outcome,
                    ),
                }
            },
{
    if has_changelog_dir {
        let added = choose|added: Result<Seq<Seq<char>>, Seq<char>>| #[trigger]
            check::added_outcome(git, cli.merge_base@, added) && check::listing_outcome(
                cli.max_fragments,
                read,
                parse,
                added,
                outcome,
            );
        let wanted = check::diff_args_spec(cli.merge_base@);
        let out = choose|out: Result<Seq<char>, Seq<char>>| #[trigger]
            check::git_gives(git, wanted, out) && added == match out {
                Ok(listing) => Ok::<_, Seq<char>>(check::listed_spec(listing)),
                Err(cause) => Err(cause),
            };
        let (args, reply) = choose|args: &Vec<String>, reply: Result<String, String>|
            text::owned_texts(args@) == wanted && #[trigger] call_ensures(git, (args,), reply)
                && check::text_view(reply) == out;
        let shown = text::owned_texts(args@);
        assert(shown.len() == 6);
        assert(shown[0] == args@[0]@ && shown[1] == args@[1]@ && shown[2] == args@[2]@ && shown[3]
            == args@[3]@ && shown[4] == args@[4]@ && shown[5] == args@[5]@);
        assert(call_ensures(git, (args,), reply));
    }
}

/// The listing of a branch is what git printed, taken apart, or why git failed.
#[verifier::spinoff_prover]
#[verifier::rlimit(60)]
pub proof fn law_added_fragments<G: Fn(&Vec<String>) -> Result<String, String>>(
    git: G,
    merge_base: Seq<char>,
    result: Result<Vec<String>, String>,
)
    requires
        check::added_outcome(git, merge_base, check::added_view(result)),
    ensures
        exists|args: &Vec<String>, reply: Result<String, String>| #[trigger]
            call_ensures(git, (args,), reply) && {
                &&& args@.len() == 6
                &&& args@[0]@ == "diff"@
                &&& args@[1]@ == "--name-only"@
                &&& args@[2]@ == "--diff-filter=A"@
                &&& args@[3]@ == "--merge-base"@
                &&& args@[4]@ == merge_base
                &&& args@[5]@ == "changelog.d"@
                &&& match reply {
                    Err(cause) => result matches Err(told) && told@ == cause@,
                    Ok(listing) => result matches Ok(paths) && text::owned_texts(paths@)
                        == check::listed_spec(listing@),
                }
            },
{
    let wanted = check::diff_args_spec(merge_base);
    let added = check::added_view(result);
    let out = choose|out: Result<Seq<char>, Seq<char>>| #[trigger]
        check::git_gives(git, wanted, out) && added == match out {
            Ok(listing) => Ok::<_, Seq<char>>(check::listed_spec(listing)),
            Err(cause) => Err(cause),
        };
    let (args, reply) = choose|args: &Vec<String>, reply: Result<String, String>|
        text::owned_texts(args@) == wanted && #[trigger] call_ensures(git, (args,), reply)
            && check::text_view(reply) == out;
    let shown = text::owned_texts(args@);
    assert(shown.len() == 6);
    assert(shown[0] == args@[0]@ && shown[1] == args@[1]@ && shown[2] == args@[2]@ && shown[3]
        == args@[3]@ && shown[4] == args@[4]@ && shown[5] == args@[5]@);
    assert(call_ensures(git, (args,), reply));
}

/// A branch has to add a file, and may add as many as the limit says; only then are the files
/// looked at.
pub proof fn law_number_of_fragments<
    R: Fn(&str) -> Result<String, String>,
    P: Fn(&str) -> Parsed,
>(max_fragments: usize, read: R, parse: P, paths: Seq<Seq<char>>, outcome: Outcome)
    requires
        paths.len() <= usize::MAX,
        check::listing_outcome(max_fragments, read, parse, Ok(paths), outcome),
    ensures
        paths.len() == 0 <==> outcome == Outcome::Err(CheckError::NoFragments),
        paths.len() > 0 ==> (paths.len() > max_fragments <==> outcome matches Err(
            CheckError::TooManyFragments { .. },
        )),
        outcome matches Err(CheckError::TooManyFragments { found, max }) ==> found == paths.len()
            && max == max_fragments,
        0 < paths.len() <= max_fragments ==> check::paths_outcome(read, parse, paths, outcome),
        outcome matches Err(problem) ==> !(problem is NoChangelogDir) && !(problem is Git),
{
    if 0 < paths.len() <= max_fragments {
        if let Err(e) = outcome {
            let k = choose|k: int|
                0 <= k < paths.len() && #[trigger] check::passed_before(read, parse, paths, k)
                    && check::path_outcome(read, parse, paths[k], outcome);
            lemma_path_problems(read, parse, paths[k], outcome);
        }
    }
}

proof fn lemma_path_problems<R: Fn(&str) -> Result<String, String>, P: Fn(&str) -> Parsed>(
    read: R,
    parse: P,
    path: Seq<char>,
    outcome: Outcome,
)
    requires
        check::path_outcome(read, parse, path, outcome),
    ensures
        outcome matches Err(problem) ==> problem is UnexpectedPath || problem is NotDirectlyInside
            || problem is Unreadable || problem is Fragment,
{
}

/// The check stops at the first file that fails and fails with what is wrong with that one.
pub proof fn law_first_failure<R: Fn(&str) -> Result<String, String>, P: Fn(&str) -> Parsed>(
    read: R,
    parse: P,
    before: Seq<Seq<char>>,
    path: Seq<char>,
    after: Seq<Seq<char>>,
    problem: CheckError<Seq<char>>,
    outcome: Outcome,
)
    requires
        check::paths_outcome(read, parse, before + seq![path] + after, outcome),
        forall|i: int, o: Outcome|
            0 <= i < before.len() && #[trigger] check::path_outcome(read, parse, before[i], o) ==> o
                is Ok,
        forall|o: Outcome| #[trigger]
            check::path_outcome(read, parse, path, o) ==> o == Outcome::Err(problem),
    ensures
        outcome == Outcome::Err(problem),
{
    let all = before + seq![path] + after;
    let n = before.len() as int;
    assert(all[n] == path);
    if let Err(e) = outcome {
        let k = choose|k: int|
            0 <= k < all.len() && #[trigger] check::passed_before(read, parse, all, k)
                && check::path_outcome(read, parse, all[k], outcome);
        if k < n {
            assert(all[k] == before[k]);
        } else if k > n {
            assert(check::path_outcome(read, parse, all[n], Ok(())));
        }
    } else {
        assert(check::path_outcome(read, parse, all[n], Ok(())));
    }
}

// ---------------------------------------------------------------------------------------------
// One added file
// ---------------------------------------------------------------------------------------------
/// An added file is refused where its path does not end in a file name, passed over where it is a
/// README, refused where it does not stand directly in the directory for fragments, refused for its
/// name, read and refused because it cannot be, or judged by what it holds: in this order, and for
/// no other reason.
#[verifier::spinoff_prover]
#[verifier::rlimit(60)]
pub proof fn law_added_file<R: Fn(&str) -> Result<String, String>, P: Fn(&str) -> Parsed>(
    read: R,
    parse: P,
    path: Seq<char>,
    outcome: Outcome,
)
    requires
        check::path_outcome(read, parse, path, outcome),
    ensures
        path::file_name_spec(path) is None ==> outcome == Outcome::Err(
            CheckError::UnexpectedPath { path },
        ),
        path::file_name_spec(path) matches Some(name) ==> {
            &&& name == "README.md"@ ==> outcome == Outcome::Ok(())
            &&& name != "README.md"@ && !path::parent_is_spec(path, "changelog.d"@) ==> outcome
                == Outcome::Err(CheckError::NotDirectlyInside { path })
            &&& name != "README.md"@ && path::parent_is_spec(path, "changelog.d"@)
                ==> match fragment::filename_verdict(name) {
                Err(problem) => outcome == Outcome::Err(
                    CheckError::Fragment(FragmentError { filename: name, problem }),
                ),
                Ok(fragment_type) => exists|given: &str, reply: Result<String, String>|
                    given@ == path && #[trigger] call_ensures(read, (given,), reply) && match reply {
                        Err(cause) => outcome == Outcome::Err(
                            CheckError::Unreadable { cause: cause@ },
                        ),
                        Ok(content) => exists|verdict: Verdict| #[trigger]
                            fragment::contents_outcome(parse, content@, fragment_type, verdict)
                                && match verdict {
                                Ok(()) => outcome == Outcome::Ok(()),
                                Err(problem) => outcome == Outcome::Err(
                                    CheckError::Fragment(FragmentError { filename: name, problem }),
                                ),
                            },
                    },
            }
        },
{
    if let Some(name) = path::file_name_spec(path) {
        if name != "README.md"@ && path::parent_is_spec(path, "changelog.d"@) {
            if let Ok(fragment_type) = fragment::filename_verdict(name) {
                let out = choose|out: Result<Seq<char>, Seq<char>>| #[trigger]
                    check::read_gives(read, path, out) && check::read_outcome(
                        parse,
                        out,
                        name,
                        fragment_type,
                        outcome,
                    );
                let (given, reply) = choose|given: &str, reply: Result<String, String>|
                    given@ == path && #[trigger] call_ensures(read, (given,), reply)
                        && check::text_view(reply) == out;
                assert(call_ensures(read, (given,), reply));
                if let Ok(content) = reply {
                    let verdict = choose|verdict: Verdict| #[trigger]
                        fragment::contents_outcome(parse, content@, fragment_type, verdict)
                            && outcome == check::verdict_outcome(name, verdict);
                    assert(fragment::contents_outcome(parse, content@, fragment_type, verdict));
                }
            }
        }
    }
}

/// A file `changelog.d/<name>` has that name and stands directly in the directory for fragments.
pub proof fn law_fragment_file(name: Seq<char>)
    requires
        name.len() > 0 && !name.contains('/') && name != seq!['.'] && name != seq!['.', '.'],
    ensures
        path::file_name_spec("changelog.d"@ + seq!['/'] + name) == Some(name),
        path::parent_is_spec("changelog.d"@ + seq!['/'] + name, "changelog.d"@),
{
    reveal_strlit("changelog.d");
    let dir = "changelog.d"@;
    path_laws::law_file_name(dir, name);
    path_laws::law_parent(dir, name, dir);
}

/// Where no added file can fail, the check of them comes out well; where one can only fail, it does
/// not.
pub proof fn law_files_decide<R: Fn(&str) -> Result<String, String>, P: Fn(&str) -> Parsed>(
    read: R,
    parse: P,
    paths: Seq<Seq<char>>,
    outcome: Outcome,
)
    requires
        check::paths_outcome(read, parse, paths, outcome),
    ensures
        (forall|i: int, o: Outcome|
            0 <= i < paths.len() && #[trigger] check::path_outcome(read, parse, paths[i], o) ==> o
                is Ok) ==> outcome == Outcome::Ok(()),
        (exists|i: int|
            0 <= i < paths.len() && !#[trigger] check::path_outcome(
                read,
                parse,
                paths[i],
                Ok(()),
            )) ==> outcome is Err,
{
    if outcome is Ok {
        assert(outcome->Ok_0 == ());
    }
}

/// A file that stands anywhere else is passed over where it is a README; else it is refused,
/// whatever it is called and whatever it holds.
#[verifier::spinoff_prover]
#[verifier::rlimit(60)]
pub proof fn law_misplaced_file<R: Fn(&str) -> Result<String, String>, P: Fn(&str) -> Parsed>(
    read: R,
    parse: P,
    names: Seq<Seq<char>>,
    outcome: Outcome,
)
    requires
        names.len() > 0,
        forall|i: int|
            0 <= i < names.len() ==> {
                let name = #[trigger] names[i];
                name.len() > 0 && !name.contains('/') && name != seq!['.']
            },
        names.len() != 2 || names[0] != "changelog.d"@,
        check::path_outcome(read, parse, text::join(names, seq!['/']), outcome),
    ensures
        outcome == if names.last() == seq!['.', '.'] {
            Outcome::Err(CheckError::UnexpectedPath { path: text::join(names, seq!['/']) })
        } else if names.last() == "README.md"@ {
            Outcome::Ok(())
        } else {
            Outcome::Err(CheckError::NotDirectlyInside { path: text::join(names, seq!['/']) })
        },
{
    reveal_strlit("changelog.d");
    reveal_strlit("README.md");
    reveal_strlit("/");
    reveal_strlit(".");
    reveal_strlit("..");
    assert("/"@ =~= seq!['/']);
    assert("."@ =~= seq!['.']);
    assert(".."@ =~= seq!['.', '.']);
    let dir = "changelog.d"@;
    let last = names.last();
    assert(last == names[names.len() - 1]);
    assert(last != "/"@) by {
        if last == "/"@ {
            assert(last[0] == '/');
        }
    }
    path_laws::law_plain_path(names);
    assert(!dir.contains('/'));
    path_laws::law_one_more_component(seq![], dir);
    assert(names.drop_last() != seq![dir]) by {
        if names.drop_last() == seq![dir] {
            assert(names.drop_last()[0] == names[0]);
        }
    }
}

/// Where git lists a file that is no README and does not stand directly in the directory for
/// fragments, the check does not come out well.
#[verifier::spinoff_prover]
#[verifier::rlimit(60)]
pub proof fn law_misplaced_file_is_refused<
    G: Fn(&Vec<String>) -> Result<String, String>,
    R: Fn(&str) -> Result<String, String>,
    P: Fn(&str) -> Parsed,
>(
    cli: check::Cli,
    repo_root: Seq<char>,
    git: G,
    read: R,
    parse: P,
    before: Seq<Seq<char>>,
    names: Seq<Seq<char>>,
    after: Seq<Seq<char>>,
    outcome: Outcome,
)
    requires
        names.len() > 0,
        forall|i: int|
            0 <= i < names.len() ==> {
                let name = #[trigger] names[i];
                name.len() > 0 && !name.contains('/') && name != seq!['.']
            },
        names.len() != 2 || names[0] != "changelog.d"@,
        names.last() != "README.md"@,
        ({
            let listed = before + seq![text::join(names, seq!['/'])] + after;
            &&& forall|i: int|
                0 <= i < listed.len() ==> {
                    let path = #[trigger] listed[i];
                    &&& !path.contains('\n') && !path.contains('\r')
                    &&& exists|j: int|
                        0 <= j < path.len() && !text::is_white_space(#[trigger] path[j])
                }
            &&& forall|args: &Vec<String>, reply: Result<String, String>| #[trigger]
                call_ensures(git, (args,), reply) ==> (reply matches Ok(listing) && listing@
                    == text::join(listed, seq!['\n']) + seq!['\n'])
        }),
        check::exec_outcome(cli, repo_root, true, git, read, parse, outcome),
    ensures
        outcome is Err,
{
    let path = text::join(names, seq!['/']);
    let listed = before + seq![path] + after;
    law_listed_paths(listed);
    law_git_is_asked(cli, repo_root, true, git, read, parse, outcome);
    if outcome is Ok {
        assert(outcome->Ok_0 == ());
        assert(check::paths_outcome(read, parse, listed, outcome));
        assert(listed[before.len() as int] == path);
        assert(check::path_outcome(read, parse, path, Ok(())));
        law_misplaced_file(read, parse, names, Ok(()));
    }
}

} // verus!
