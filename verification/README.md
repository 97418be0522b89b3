# mdblog

Turns markdown blog posts into HTML pages.

- `src/` is the library, with its contracts and proofs:
  - `text` — character-level operations (finding, trimming, splitting into
    lines and pieces, replacing) over `Seq<char>`.
  - `pattern` — the regular expressions that classify text, through the
    `regex` crate.
  - `parser` — cutting an inline image or link out of a line.
  - `span` — the chain of inline spans of a line, and parsing a line into it.
  - `block` — the blocks of a document, one per classified line.
  - `render` — an HTML tree, its text, and the rendering of spans and blocks.
  - `date` — calendar dates, read and written through `chrono`.
  - `blog` — a post's front matter and body, and the page that shows it.
- `app/` reads posts from files and writes their pages to files.
- `tests/` runs the library on concrete inputs.
