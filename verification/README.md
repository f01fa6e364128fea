# rummage

A mail archive browser and MCP server over a notmuch-indexed maildir.
The parts that decide what is shown, such as parsing, conversion, ranking,
threading and the text of every answer, are a library whose behaviour is
stated in `requires`/`ensures` contracts and proved with Verus.

## Layout

- `src/`: the verified library.
  - `text.rs`: strings as character sequences (UTF-8 byte lengths, char
    boundaries, search, replace, split, trim).
  - `order.rs`: stable ordering by an integer key; lexicographic order of
    strings.
  - `mail/`: message parsing over mail-parser (`parser`), HTML to text and
    Markdown, entity decoding and truncation (`body`), sanitising, escaping
    and auto-linking (`html`).
  - `api/`: the reply tree of a thread, top senders, tags, statistics,
    search summaries and attachments.
  - `ui.rs`: what the web pages show: numbers, dates, sidebar rows, icons,
    attachment links, theme and the page document.
  - `mcp/`: the MCP tools' answers, snippets, fuzzy suggestions, related
    threads, prompts and resources.
  - `db.rs`, `config.rs`, `error.rs`: the database worker's decisions,
    configuration and errors.
- `tests/`: tests of the library on concrete values.
- `app/`: the program around the library: command line, the notmuch
  database worker, the HTTP server, the dioxus pages and the MCP server.

## Trust

Calls into outside crates (ammonia, chrono, html-escape, linkify,
mail-parser, mime_guess, urlencoding, base64) and a few std functions go
through small wrappers marked `#[verifier::external_body]`, each with a doc
comment saying what its contract claims of the outside function. Where an
outside result takes pages to describe, the contract names it with an
uninterpreted spec function, and the library's contracts speak of that name.

## Running

`verus` checks `src/`; the tests and `app/` build with cargo against the
same crate.
