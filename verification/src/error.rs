//! What can be wrong with a fragment, and how that is told to its author.

use vstd::prelude::*;

use crate::text;
use crate::text::join_texts;

verus! {

/// What is wrong with a fragment. `T` is how text is held: a `String`, or the characters alone
/// where contracts speak of a problem.
#[derive(Debug)]
pub enum Problem<T = String> {
    /// The file name does not consist of three parts.
    FilenameShape,
    /// The second part of the file name is no fragment type.
    FragmentType,
    /// The third part of the file name is not `md`.
    Extension,
    /// The last line is no authors line.
    AuthorsLine,
    /// The authors line names nobody.
    NoAuthors,
    /// The authors line holds an `@`.
    AtSign,
    /// The authors line holds a comma.
    Comma,
    /// The authors line still names the scaffolder's placeholder.
    TodoHandle,
    /// The fragment does not begin with frontmatter.
    NoFrontmatter,
    /// The frontmatter is not closed.
    UnclosedFrontmatter,
    /// The frontmatter could not be read as YAML.
    Yaml { cause: T },
    /// The title is blank.
    EmptyTitle,
    /// The title still holds the scaffolder's placeholder.
    TodoTitle,
    /// The anchor is no slug.
    Anchor { anchor: T },
    /// There is no summary section.
    MissingSummary,
    /// There is no migration section.
    MissingMigration,
    /// The migration section comes before the summary section.
    SectionOrder,
    /// The summary section is blank.
    EmptySummary,
    /// The migration section is blank.
    EmptyMigration,
}

/// A problem, and the file that it was found in.
#[derive(Debug)]
pub struct FragmentError<T = String> {
    pub filename: T,
    pub problem: Problem<T>,
}

impl View for Problem<String> {
    type V = Problem<Seq<char>>;

    open spec fn view(&self) -> Problem<Seq<char>> {
        match *self {
            Problem::FilenameShape => Problem::FilenameShape,
            Problem::FragmentType => Problem::FragmentType,
            Problem::Extension => Problem::Extension,
            Problem::AuthorsLine => Problem::AuthorsLine,
            Problem::NoAuthors => Problem::NoAuthors,
            Problem::AtSign => Problem::AtSign,
            Problem::Comma => Problem::Comma,
            Problem::TodoHandle => Problem::TodoHandle,
            Problem::NoFrontmatter => Problem::NoFrontmatter,
            Problem::UnclosedFrontmatter => Problem::UnclosedFrontmatter,
            Problem::Yaml { cause } => Problem::Yaml { cause: cause@ },
            Problem::EmptyTitle => Problem::EmptyTitle,
            Problem::TodoTitle => Problem::TodoTitle,
            Problem::Anchor { anchor } => Problem::Anchor { anchor: anchor@ },
            Problem::MissingSummary => Problem::MissingSummary,
            Problem::MissingMigration => Problem::MissingMigration,
            Problem::SectionOrder => Problem::SectionOrder,
            Problem::EmptySummary => Problem::EmptySummary,
            Problem::EmptyMigration => Problem::EmptyMigration,
        }
    }
}

impl View for FragmentError<String> {
    type V = FragmentError<Seq<char>>;

    open spec fn view(&self) -> FragmentError<Seq<char>> {
        FragmentError { filename: self.filename@, problem: self.problem@ }
    }
}

/// The types that a fragment can have.
pub open spec fn fragment_types_spec() -> Seq<Seq<char>> {
    seq!["breaking"@, "security"@, "feature"@, "enhancement"@, "fix"@]
}

/// The types that a fragment can have.
pub fn fragment_types() -> (types: Vec<&'static str>)
    ensures
        text::texts(types@) == fragment_types_spec(),
{
    let types = vec!["breaking", "security", "feature", "enhancement", "fix"];
    assert(text::texts(types@) =~= fragment_types_spec());
    types
}

/// How the message about a problem begins, up to the file name.
pub open spec fn lead(problem: Problem<Seq<char>>) -> Seq<char> {
    match problem {
        Problem::FilenameShape
        | Problem::FragmentType
        | Problem::Extension => "invalid fragment filename '"@,
        Problem::AuthorsLine
        | Problem::NoAuthors
        | Problem::AtSign
        | Problem::Comma
        | Problem::TodoHandle => "invalid fragment contents for '"@,
        _ => "invalid breaking fragment '"@,
    }
}

/// What the message about a problem says after the file name.
pub open spec fn detail(problem: Problem<Seq<char>>) -> Seq<char> {
    match problem {
        Problem::FilenameShape => "expected '<unique_name>.<fragment_type>.md'"@,
        Problem::FragmentType => "fragment type must be one of ("@ + text::join(
            fragment_types_spec(),
            "|"@,
        ) + ")."@,
        Problem::Extension => "extension must be markdown (.md)."@,
        Problem::AuthorsLine =>
            "last line must be 'authors: <name> [<name> ...]' (no trailing blank lines)."@,
        Problem::NoAuthors => "authors line has no names."@,
        Problem::AtSign => "author names should not be prefixed with '@'."@,
        Problem::Comma => "authors should be space delimited, not comma delimited."@,
        Problem::TodoHandle =>
            "the scaffolder placeholder 'TODO_your_gh_handle' must be replaced with a real GitHub handle."@,
        Problem::NoFrontmatter =>
            "must begin with a YAML frontmatter block (see changelog.d/README.md)."@,
        Problem::UnclosedFrontmatter => "missing closing '---' for the frontmatter block."@,
        Problem::Yaml { cause } => "frontmatter YAML"@,
        Problem::EmptyTitle => "`title` must not be empty."@,
        Problem::TodoTitle => "`title` still contains the scaffolder placeholder 'TODO'."@,
        Problem::Anchor { anchor } =>
            "`anchor` must be a lowercase kebab-case slug (a-z, 0-9, hyphens); got '"@ + anchor
                + "'."@,
        Problem::MissingSummary => "missing `## Summary` section."@,
        Problem::MissingMigration => "missing `## Migration` section."@,
        Problem::SectionOrder => "`## Summary` must come before `## Migration`."@,
        Problem::EmptySummary => "`## Summary` section is empty."@,
        Problem::EmptyMigration =>
            "`## Migration` section is empty (use 'N/A' for informational breakers)."@,
    }
}

/// The message about an error.
pub open spec fn message_spec(error: FragmentError<Seq<char>>) -> Seq<char> {
    lead(error.problem) + error.filename + "': "@ + detail(error.problem)
}

impl FragmentError<String> {
    /// The message about the error.
    pub fn message(&self) -> (text: String)
        ensures
            text@ == message_spec(self@),
    {
        let lead_text: &'static str = match self.problem {
            Problem::FilenameShape
            | Problem::FragmentType
            | Problem::Extension => "invalid fragment filename '",
            Problem::AuthorsLine
            | Problem::NoAuthors
            | Problem::AtSign
            | Problem::Comma
            | Problem::TodoHandle => "invalid fragment contents for '",
            _ => "invalid breaking fragment '",
        };
        let mut text = lead_text.to_owned();
        text.append(self.filename.as_str());
        text.append("': ");
        let ghost head = text@;
        match &self.problem {
            Problem::FilenameShape => text.append("expected '<unique_name>.<fragment_type>.md'"),
            Problem::FragmentType => {
                let types = fragment_types();
                let joined = join_texts(&types, "|");
                text.append("fragment type must be one of (");
                text.append(joined.as_str());
                text.append(").");
            },
            Problem::Extension => text.append("extension must be markdown (.md)."),
            Problem::AuthorsLine => text.append(
                "last line must be 'authors: <name> [<name> ...]' (no trailing blank lines).",
            ),
            Problem::NoAuthors => text.append("authors line has no names."),
            Problem::AtSign => text.append("author names should not be prefixed with '@'."),
            Problem::Comma => text.append(
                "authors should be space delimited, not comma delimited.",
            ),
            Problem::TodoHandle => text.append(
                "the scaffolder placeholder 'TODO_your_gh_handle' must be replaced with a real GitHub handle.",
            ),
            Problem::NoFrontmatter => text.append(
                "must begin with a YAML frontmatter block (see changelog.d/README.md).",
            ),
            Problem::UnclosedFrontmatter => text.append(
                "missing closing '---' for the frontmatter block.",
            ),
            Problem::Yaml { cause: _ } => text.append("frontmatter YAML"),
            Problem::EmptyTitle => text.append("`title` must not be empty."),
            Problem::TodoTitle => text.append(
                "`title` still contains the scaffolder placeholder 'TODO'.",
            ),
            Problem::Anchor { anchor } => {
                text.append(
                    "`anchor` must be a lowercase kebab-case slug (a-z, 0-9, hyphens); got '",
                );
                text.append(anchor.as_str());
                text.append("'.");
            },
            Problem::MissingSummary => text.append("missing `## Summary` section."),
            Problem::MissingMigration => text.append("missing `## Migration` section."),
            Problem::SectionOrder => text.append("`## Summary` must come before `## Migration`."),
            Problem::EmptySummary => text.append("`## Summary` section is empty."),
            Problem::EmptyMigration => text.append(
                "`## Migration` section is empty (use 'N/A' for informational breakers).",
            ),
        }
        assert(text@ =~= head + detail(self.problem@));
        text
    }
}

} // verus!
