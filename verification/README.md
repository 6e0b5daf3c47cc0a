# changelog_fragments

A changelog fragment is a small markdown file, `changelog.d/<unique_name>.<fragment_type>.md`, that
tells one change and who made it. This project scaffolds new fragments and checks the ones that a
branch adds. Its rules are a library, verified with Verus; the command line around it is ordinary
Rust.

- `src/fragment.rs`: what a fragment has to look like: file name, authors line, frontmatter and
  sections.
- `src/check.rs`: the check of all the fragments that a branch adds.
- `src/scaffold.rs`: the contents, the author and the place of a new fragment.
- `src/error.rs`: what can be wrong with a fragment, and the messages about it.
- `src/text.rs`, `src/path.rs`: text and paths, as sequences of characters.
- `src/laws.rs`: what holds of the library as a whole.
- `app/`: the command line. It runs git, reads and writes files, parses the YAML of frontmatter and
  joins the paths of the machine, and hands these to the library as functions. The library claims nothing of what they return: its
  contracts say what comes of each reply.
- `tests/`: tests of the library as it runs.

Two functions of the standard library are trusted: `char::is_whitespace`, to hold of exactly the
characters with the Unicode property `White_Space`, and `String::from_utf8`, to give the text that
valid UTF-8 encodes and to refuse everything else.
