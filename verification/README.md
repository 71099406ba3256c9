# git_helper

A helper around git: it commits chosen byte ranges of files in place of the
whole files (`path[a..b]`, `path[a..=b]`), links a repository to GitHub, and
has a terminal viewer of the commit graph.

- `src/` is the library, verified with Verus:
  - `text.rs`: trimming, splitting, line splitting and decimal parsing of text;
  - `cli.rs`: the options and the argument parser;
  - `conditions.rs`: the flag letters of path conditions and the decisions
    taken on what the file system reports;
  - `workflow.rs`: git arguments, remote URL, `.gitignore` text, byte slices;
  - `strmap.rs`: a small map keyed by strings;
  - `graph.rs`: commits read from git's output, columns, colours, selection;
  - `view.rs`: the styled lines of the two panes and the screen layout.
- `app/` is the program: it reads the command line, the file system and
  git's output, draws with ratatui, and reads keys with crossterm.
- `tests/` holds the tests of the library.
