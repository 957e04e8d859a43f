# postar

Rule-based filtering of e-mail on IMAP servers. Rules are written in a small
language (PTAR): folder definitions name mailbox folders, and each rule has a
matcher over the subject, sender, recipients and body of a message, and an
action (delete the message or move it to a folder).

## Layout

- `src/` is the library, verified with Verus:
  - `dsl/lexer.rs`: the tokens, the lexical grammar as a specification, and a
    lexer proved to follow it.
  - `dsl/parser.rs`: the grammar of rule files as a specification, and the
    parsers proved to follow it, with the errors they report.
  - `dsl/resolver.rs`: turning a parsed file into rules (folder references,
    regular expressions), with the errors it reports.
  - `dsl/error.rs`: the messages and reports shown for errors.
  - `dsl.rs`: a rule file, and the whole path from text to rules.
  - `process.rs`: matchers, actions and rules, and what it means for a message
    to match.
  - `inbox.rs`, `inbox/imap_inbox.rs`: folders, messages, the inbox interface,
    and the requests and decisions of an IMAP inbox.
  - `config.rs`, `cli.rs`: the configuration, the command-line arguments and
    the dry run.
- `tests/`: tests of the library.
- `app/`: the program: command-line parsing, reading files, the IMAP
  connection and its database, printing reports.
