# bx

Build error extractor: wraps a build command, keeps only the errors (and, on
request, warnings), and shows them as a plain report or in an interactive
navigator with vim-style keys.

Layout:

- `src/` — the verified library (Verus):
  - `text.rs`: lines, trimming, decimal numbers, over `Seq<char>` views;
  - `matcher.rs`: the regular-expression engine (the `regex` crate) behind trusted items;
  - `classify.rs`: severities, the pattern table, line classification, location
    parsing and the grouping of lines into error blocks;
  - `classify_laws.rs`: what holds of every grouping;
  - `report.rs`: the plain report and the navigator's list entries;
  - `nav.rs`: the navigator's state machine (key bindings);
  - `cli.rs`: command-line options;
  - `saved.rs`: the saved-command file format;
  - `paths.rs`: where the saved command and the configuration file live;
  - `subprocess.rs`: progress-line detection.
- `app/` — the program: argument and config I/O, running the build, the terminal UI.
- `tests/` — tests of the library.
