//! Checking the changelog fragments that a branch adds.

use vstd::prelude::*;

use crate::error;
use crate::error::FragmentError;
use crate::fragment;
use crate::fragment::{validate_contents, validate_filename, Parsed, Verdict};
use crate::path;
use crate::path::{file_name, parent_is};
use crate::text;
use crate::text::{decimal_text, same_text, split_lines, trim};

verus! {

/// The directory that holds the fragments.
pub const CHANGELOG_DIR: &'static str = "changelog.d";

/// How many fragments a branch may add unless told otherwise.
pub const DEFAULT_MAX_FRAGMENTS: usize = 1000;

/// Why a check fails. `T` is how text is held: a `String`, or the characters alone in contracts.
#[derive(Debug)]
pub enum CheckError<T = String> {
    /// The repository has no directory for fragments.
    NoChangelogDir { repo_root: T },
    /// The added files could not be listed.
    Git { cause: T },
    /// The branch adds no fragment.
    NoFragments,
    /// The branch adds more fragments than it may.
    TooManyFragments { found: usize, max: usize },
    /// The path of an added file does not end in a file name.
    UnexpectedPath { path: T },
    /// An added file does not stand directly in the directory for fragments.
    NotDirectlyInside { path: T },
    /// A fragment could not be read.
    Unreadable { cause: T },
    /// A fragment is not as it has to be.
    Fragment(FragmentError<T>),
}

impl View for CheckError<String> {
    type V = CheckError<Seq<char>>;

    open spec fn view(&self) -> CheckError<Seq<char>> {
        match *self {
            CheckError::NoChangelogDir { repo_root } => CheckError::NoChangelogDir {
                repo_root: repo_root@,
            },
            CheckError::Git { cause } => CheckError::Git { cause: cause@ },
            CheckError::NoFragments => CheckError::NoFragments,
            CheckError::TooManyFragments { found, max } => CheckError::TooManyFragments {
                found,
                max,
            },
            CheckError::UnexpectedPath { path } => CheckError::UnexpectedPath { path: path@ },
            CheckError::NotDirectlyInside { path } => CheckError::NotDirectlyInside { path: path@ },
            CheckError::Unreadable { cause } => CheckError::Unreadable { cause: cause@ },
            CheckError::Fragment(error) => CheckError::Fragment(error@),
        }
    }
}

/// What a check comes to, as contracts speak of it.
pub type Outcome = Result<(), CheckError<Seq<char>>>;

/// The characters of what a check comes to.
pub open spec fn outcome_view(result: Result<(), CheckError<String>>) -> Outcome {
    match result {
        Ok(()) => Ok(()),
        Err(error) => Err(error@),
    }
}

/// The characters of a text, or of the reason why there is none.
pub open spec fn text_view(result: Result<String, String>) -> Result<Seq<char>, Seq<char>> {
    match result {
        Ok(found) => Ok(found@),
        Err(cause) => Err(cause@),
    }
}

/// The message about an error.
pub open spec fn check_message_spec(error: CheckError<Seq<char>>) -> Seq<char> {
    match error {
        CheckError::NoChangelogDir { repo_root } => "No changelog.d/ directory at "@ + repo_root
            + ". Run this from the Vector repo root."@,
        CheckError::Git { cause } => cause,
        CheckError::NoFragments =>
            "No changelog fragments detected. If no changes necessitate user-facing explanations, add the 'no-changelog' label. Otherwise, add fragments to changelog.d/ (see changelog.d/README.md)."@,
        CheckError::TooManyFragments { found, max } => "Too many changelog fragments ("@
            + text::decimal(found as nat) + " > "@ + text::decimal(max as nat) + ")."@,
        CheckError::UnexpectedPath { path } => "Unexpected fragment path: "@ + path,
        CheckError::NotDirectlyInside { path } => "invalid fragment path '"@ + path
            + "': fragments must live directly under changelog.d/, not in a subdirectory."@,
        CheckError::Unreadable { cause } => cause,
        CheckError::Fragment(error) => error::message_spec(error),
    }
}

impl CheckError<String> {
    /// The message about the error.
    pub fn message(&self) -> (message: String)
        ensures
            message@ == check_message_spec(self@),
    {
        match self {
            CheckError::NoChangelogDir { repo_root } => {
                let mut message = "No changelog.d/ directory at ".to_owned();
                message.append(repo_root.as_str());
                message.append(". Run this from the Vector repo root.");
                message
            },
            CheckError::Git { cause } => cause.as_str().to_owned(),
            CheckError::NoFragments =>
                "No changelog fragments detected. If no changes necessitate user-facing explanations, add the 'no-changelog' label. Otherwise, add fragments to changelog.d/ (see changelog.d/README.md).".to_owned(),
            CheckError::TooManyFragments { found, max } => {
                let mut message = "Too many changelog fragments (".to_owned();
                message.append(decimal_text(*found).as_str());
                message.append(" > ");
                message.append(decimal_text(*max).as_str());
                message.append(").");
                message
            },
            CheckError::UnexpectedPath { path } => {
                let mut message = "Unexpected fragment path: ".to_owned();
                message.append(path.as_str());
                message
            },
            CheckError::NotDirectlyInside { path } => {
                let mut message = "invalid fragment path '".to_owned();
                message.append(path.as_str());
                message.append(
                    "': fragments must live directly under changelog.d/, not in a subdirectory.",
                );
                message
            },
            CheckError::Unreadable { cause } => cause.as_str().to_owned(),
            CheckError::Fragment(error) => error.message(),
        }
    }
}

// ---------------------------------------------------------------------------------------------
// The added files
// ---------------------------------------------------------------------------------------------
/// The arguments with which git lists the files that a branch adds to the directory for
/// fragments.
pub open spec fn diff_args_spec(merge_base: Seq<char>) -> Seq<Seq<char>> {
    seq![
        "diff"@,
        "--name-only"@,
        "--diff-filter=A"@,
        "--merge-base"@,
        merge_base,
        CHANGELOG_DIR@,
    ]
}

/// The paths that a listing holds: its lines, without those that are blank.
pub open spec fn listed_spec(listing: Seq<char>) -> Seq<Seq<char>> {
    text::lines(listing).filter(|line: Seq<char>| !text::is_blank(line))
}

/// `git` can return `out` when it is given the arguments `args`.
pub open spec fn git_gives<G: Fn(&Vec<String>) -> Result<String, String>>(
    git: G,
    args: Seq<Seq<char>>,
    out: Result<Seq<char>, Seq<char>>,
) -> bool {
    exists|a: &Vec<String>, r: Result<String, String>|
        text::owned_texts(a@) == args && #[trigger] call_ensures(git, (a,), r) && text_view(r)
            == out
}

/// The paths that a listing holds.
pub fn listed(listing: &str) -> (paths: Vec<String>)
    ensures
        text::owned_texts(paths@) == listed_spec(listing@),
{
    let all = split_lines(listing);
    let ghost ls = text::texts(all@);
    let ghost keep = |line: Seq<char>| !text::is_blank(line);
    let mut paths: Vec<String> = Vec::new();
    let mut i: usize = 0;
    assert(ls.take(0).filter(keep) =~= seq![]) by {
        reveal(Seq::filter);
    }
    while i < all.len()
        invariant
            i <= all@.len(),
            ls == text::texts(all@),
            keep == (|line: Seq<char>| !text::is_blank(line)),
            text::owned_texts(paths@) == ls.take(i as int).filter(keep),
        decreases all@.len() - i,
    {
        let line = all[i];
        let ghost before = text::owned_texts(paths@);
        proof {
            reveal(Seq::filter);
            assert(ls.take(i + 1).drop_last() == ls.take(i as int));
            assert(ls.take(i + 1).last() == line@);
            text::lemma_trimmed_blank(line@);
        }
        if !trim(line).is_empty() {
            paths.push(line.to_owned());
            assert(text::owned_texts(paths@) == before.push(line@));
        }
        i = i + 1;
    }
    assert(ls.take(i as int) == ls);
    paths
}

/// The arguments with which git lists the added files.
fn diff_args(merge_base: &str) -> (args: Vec<String>)
    ensures
        text::owned_texts(args@) == diff_args_spec(merge_base@),
{
    let args = vec![
        "diff".to_owned(),
        "--name-only".to_owned(),
        "--diff-filter=A".to_owned(),
        "--merge-base".to_owned(),
        merge_base.to_owned(),
        CHANGELOG_DIR.to_owned(),
    ];
    assert(text::owned_texts(args@) =~= diff_args_spec(merge_base@));
    args
}

/// What can come of listing the added files.
pub open spec fn added_outcome<G: Fn(&Vec<String>) -> Result<String, String>>(
    git: G,
    merge_base: Seq<char>,
    result: Result<Seq<Seq<char>>, Seq<char>>,
) -> bool {
    exists|out: Result<Seq<char>, Seq<char>>| #[trigger]
        git_gives(git, diff_args_spec(merge_base), out) && result == match out {
            Ok(listing) => Ok::<_, Seq<char>>(listed_spec(listing)),
            Err(cause) => Err(cause),
        }
}

/// The characters of the listed paths, or of the reason why there are none.
pub open spec fn added_view(result: Result<Vec<String>, String>) -> Result<
    Seq<Seq<char>>,
    Seq<char>,
> {
    match result {
        Ok(paths) => Ok(text::owned_texts(paths@)),
        Err(cause) => Err(cause@),
    }
}

/// The files that a branch adds to the directory for fragments. `git` runs git and returns what
/// it prints.
pub fn added_fragments<G: Fn(&Vec<String>) -> Result<String, String>>(
    merge_base: &str,
    git: &G,
) -> (result: Result<Vec<String>, String>)
    requires
        forall|args: &Vec<String>| call_requires(*git, (args,)),
    ensures
        added_outcome(*git, merge_base@, added_view(result)),
{
    let args = diff_args(merge_base);
    let out = git(&args);
    assert(git_gives(*git, diff_args_spec(merge_base@), text_view(out)));
    match out {
        Ok(listing) => Ok(listed(listing.as_str())),
        Err(cause) => Err(cause),
    }
}

// ---------------------------------------------------------------------------------------------
// One added file
// ---------------------------------------------------------------------------------------------
/// `read` can return `out` when it is given the path `path`.
pub open spec fn read_gives<R: Fn(&str) -> Result<String, String>>(
    read: R,
    path: Seq<char>,
    out: Result<Seq<char>, Seq<char>>,
) -> bool {
    exists|p: &str, r: Result<String, String>|
        p@ == path && #[trigger] call_ensures(read, (p,), r) && text_view(r) == out
}

/// The verdict on the file named so, as what a check comes to.
pub open spec fn verdict_outcome(filename: Seq<char>, verdict: Verdict) -> Outcome {
    match verdict {
        Ok(()) => Ok(()),
        Err(problem) => Err(CheckError::Fragment(FragmentError { filename, problem })),
    }
}

/// What the check of a file with these contents can come to.
pub open spec fn content_outcome<P: Fn(&str) -> Parsed>(
    parse: P,
    content: Seq<char>,
    filename: Seq<char>,
    fragment_type: Seq<char>,
    outcome: Outcome,
) -> bool {
    exists|verdict: Verdict| #[trigger]
        fragment::contents_outcome(parse, content, fragment_type, verdict) && outcome
            == verdict_outcome(filename, verdict)
}

/// What the check of a file can come to after it was read, or could not be read.
pub open spec fn read_outcome<P: Fn(&str) -> Parsed>(
    parse: P,
    out: Result<Seq<char>, Seq<char>>,
    filename: Seq<char>,
    fragment_type: Seq<char>,
    outcome: Outcome,
) -> bool {
    match out {
        Err(cause) => outcome == Outcome::Err(CheckError::Unreadable { cause }),
        Ok(content) => content_outcome(parse, content, filename, fragment_type, outcome),
    }
}

/// What the check of a file can come to whose name tells a fragment type.
pub open spec fn named_outcome<R: Fn(&str) -> Result<String, String>, P: Fn(&str) -> Parsed>(
    read: R,
    parse: P,
    path: Seq<char>,
    filename: Seq<char>,
    fragment_type: Seq<char>,
    outcome: Outcome,
) -> bool {
    exists|out: Result<Seq<char>, Seq<char>>| #[trigger]
        read_gives(read, path, out) && read_outcome(parse, out, filename, fragment_type, outcome)
}

/// What the check of an added file can come to. A file named `README.md` is no fragment and is
/// passed over.
pub open spec fn path_outcome<R: Fn(&str) -> Result<String, String>, P: Fn(&str) -> Parsed>(
    read: R,
    parse: P,
    path: Seq<char>,
    outcome: Outcome,
) -> bool {
    match path::file_name_spec(path) {
        None => outcome == Outcome::Err(CheckError::UnexpectedPath { path }),
        Some(name) => if name == "README.md"@ {
            outcome == Outcome::Ok(())
        } else if !path::parent_is_spec(path, CHANGELOG_DIR@) {
            outcome == Outcome::Err(CheckError::NotDirectlyInside { path })
        } else {
            match fragment::filename_verdict(name) {
                Err(problem) => outcome == verdict_outcome(name, Err(problem)),
                Ok(fragment_type) => named_outcome(read, parse, path, name, fragment_type, outcome),
            }
        },
    }
}

/// Checks one added file. `read` reads a file of the repository and `parse` the YAML of its
/// frontmatter.
pub fn check_path<R: Fn(&str) -> Result<String, String>, P: Fn(&str) -> Parsed>(
    path: &str,
    read: &R,
    parse: &P,
) -> (result: Result<(), CheckError<String>>)
    requires
        forall|p: &str| call_requires(*read, (p,)),
        forall|yaml: &str| call_requires(*parse, (yaml,)),
    ensures
        path_outcome(*read, *parse, path@, outcome_view(result)),
{
    let name = match file_name(path) {
        Some(name) => name,
        None => {
            return Err(CheckError::UnexpectedPath { path: path.to_owned() });
        },
    };
    if same_text(name, "README.md") {
        return Ok(());
    }
    if !parent_is(path, CHANGELOG_DIR) {
        return Err(CheckError::NotDirectlyInside { path: path.to_owned() });
    }
    let fragment_type = match validate_filename(name) {
        Ok(fragment_type) => fragment_type,
        Err(error) => {
            return Err(CheckError::Fragment(error));
        },
    };
    let out = read(path);
    let ghost seen = text_view(out);
    assert(read_gives(*read, path@, seen));
    let result = match out {
        Err(cause) => Err(CheckError::Unreadable { cause }),
        Ok(content) => {
            let found = validate_contents(content.as_str(), name, fragment_type, parse);
            let ghost verdict = choose|verdict: Verdict| #[trigger]
                fragment::contents_outcome(*parse, content@, fragment_type@, verdict)
                    && fragment::reports(found, name@, verdict);
            let result = match found {
                Ok(()) => Ok(()),
                Err(error) => Err(CheckError::Fragment(error)),
            };
            assert(fragment::contents_outcome(*parse, content@, fragment_type@, verdict));
            assert(outcome_view(result) == verdict_outcome(name@, verdict));
            assert(content_outcome(
                *parse,
                content@,
                name@,
                fragment_type@,
                outcome_view(result),
            ));
            result
        },
    };
    assert(read_outcome(*parse, seen, name@, fragment_type@, outcome_view(result)));
    assert(named_outcome(*read, *parse, path@, name@, fragment_type@, outcome_view(result)));
    result
}

// ---------------------------------------------------------------------------------------------
// All added files
// ---------------------------------------------------------------------------------------------
/// What the check of the added files, one after the other, can come to: all is well with every
/// one of them, or this is wrong with one and all is well with those before it.
pub open spec fn paths_outcome<R: Fn(&str) -> Result<String, String>, P: Fn(&str) -> Parsed>(
    read: R,
    parse: P,
    paths: Seq<Seq<char>>,
    outcome: Outcome,
) -> bool {
    match outcome {
        Ok(()) => passed_before(read, parse, paths, paths.len() as int),
        Err(error) => exists|k: int|
            0 <= k < paths.len() && #[trigger] passed_before(read, parse, paths, k) && path_outcome(
                read,
                parse,
                paths[k],
                outcome,
            ),
    }
}

/// The check can find all well with the first `k` of the added files.
pub open spec fn passed_before<R: Fn(&str) -> Result<String, String>, P: Fn(&str) -> Parsed>(
    read: R,
    parse: P,
    paths: Seq<Seq<char>>,
    k: int,
) -> bool {
    forall|i: int| 0 <= i < k ==> path_outcome(read, parse, #[trigger] paths[i], Ok(()))
}

/// What a check can come to once the added files are listed, or could not be listed.
pub open spec fn listing_outcome<R: Fn(&str) -> Result<String, String>, P: Fn(&str) -> Parsed>(
    max_fragments: usize,
    read: R,
    parse: P,
    added: Result<Seq<Seq<char>>, Seq<char>>,
    outcome: Outcome,
) -> bool {
    match added {
        Err(cause) => outcome == Outcome::Err(CheckError::Git { cause }),
        Ok(paths) => if paths.len() == 0 {
            outcome == Outcome::Err(CheckError::NoFragments)
        } else if paths.len() > max_fragments {
            outcome == Outcome::Err(
                CheckError::TooManyFragments { found: paths.len() as usize, max: max_fragments },
            )
        } else {
            paths_outcome(read, parse, paths, outcome)
        },
    }
}

/// Validates the changelog fragments that a branch adds.
#[derive(Debug)]
pub struct Cli {
    /// Merge base to diff against.
    pub merge_base: String,
    /// Maximum number of fragments accepted on one branch.
    pub max_fragments: usize,
}

/// What a check can come to.
pub open spec fn exec_outcome<
    G: Fn(&Vec<String>) -> Result<String, String>,
    R: Fn(&str) -> Result<String, String>,
    P: Fn(&str) -> Parsed,
>(
    cli: Cli,
    repo_root: Seq<char>,
    has_changelog_dir: bool,
    git: G,
    read: R,
    parse: P,
    outcome: Outcome,
) -> bool {
    if !has_changelog_dir {
        outcome == Outcome::Err(CheckError::NoChangelogDir { repo_root })
    } else {
        exists|added: Result<Seq<Seq<char>>, Seq<char>>| #[trigger]
            added_outcome(git, cli.merge_base@, added) && listing_outcome(
                cli.max_fragments,
                read,
                parse,
                added,
                outcome,
            )
    }
}

impl Cli {
    /// Runs the check. `has_changelog_dir` tells whether the directory for fragments is there,
    /// `git` runs git in the repository and returns what it prints, `read` reads a file of the
    /// repository, and `parse` the YAML of frontmatter.
    pub fn exec<
        G: Fn(&Vec<String>) -> Result<String, String>,
        R: Fn(&str) -> Result<String, String>,
        P: Fn(&str) -> Parsed,
    >(self, repo_root: &str, has_changelog_dir: bool, git: &G, read: &R, parse: &P) -> (result:
        Result<(), CheckError<String>>)
        requires
            forall|args: &Vec<String>| call_requires(*git, (args,)),
            forall|p: &str| call_requires(*read, (p,)),
            forall|yaml: &str| call_requires(*parse, (yaml,)),
        ensures
            exec_outcome(
                self,
                repo_root@,
                has_changelog_dir,
                *git,
                *read,
                *parse,
                outcome_view(result),
            ),
    {
        if !has_changelog_dir {
            return Err(CheckError::NoChangelogDir { repo_root: repo_root.to_owned() });
        }
        let added = added_fragments(self.merge_base.as_str(), git);
        let ghost seen = added_view(added);
        assert(added_outcome(*git, self.merge_base@, seen));
        let paths = match added {
            Ok(paths) => paths,
            Err(cause) => {
                let result = Err(CheckError::Git { cause });
                assert(listing_outcome(
                    self.max_fragments,
                    *read,
                    *parse,
                    seen,
                    outcome_view(result),
                ));
                return result;
            },
        };
        let ghost all = text::owned_texts(paths@);
        if paths.len() == 0 {
            let result = Err(CheckError::NoFragments);
            assert(listing_outcome(self.max_fragments, *read, *parse, seen, outcome_view(result)));
            return result;
        }
        if paths.len() > self.max_fragments {
            let result = Err(
                CheckError::TooManyFragments { found: paths.len(), max: self.max_fragments },
            );
            assert(listing_outcome(self.max_fragments, *read, *parse, seen, outcome_view(result)));
            return result;
        }
        let mut i: usize = 0;
        while i < paths.len()
            invariant
                i <= paths@.len(),
                0 < paths@.len() <= self.max_fragments,
                all == text::owned_texts(paths@),
                seen == Ok::<_, Seq<char>>(all),
                added_outcome(*git, self.merge_base@, seen),
                has_changelog_dir,
                forall|p: &str| call_requires(*read, (p,)),
                forall|yaml: &str| call_requires(*parse, (yaml,)),
                passed_before(*read, *parse, all, i as int),
            decreases paths@.len() - i,
        {
            let result = check_path(paths[i].as_str(), read, parse);
            assert(all[i as int] == paths@[i as int]@);
            if let Err(error) = result {
                let ghost outcome: Outcome = Err(error@);
                assert(passed_before(*read, *parse, all, i as int) && path_outcome(
                    *read,
                    *parse,
                    all[i as int],
                    outcome,
                ));
                assert(paths_outcome(*read, *parse, all, outcome));
                assert(listing_outcome(self.max_fragments, *read, *parse, seen, outcome));
                return Err(error);
            }
            i = i + 1;
        }
        assert(listing_outcome(self.max_fragments, *read, *parse, seen, Ok(())));
        Ok(())
    }
}

} // verus!
