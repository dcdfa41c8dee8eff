# dmc_parser

Verified building blocks of an MDX / CommonMark parser and of the field
schemas of content entries, written in Verus.

## Layout

- `src/` — the verified library.
  - `ast` — the document tree, its model (`NodeV`) and deep clones.
  - `emphasis` — delimiter-run pairing into `Italic` / `Bold` nodes.
  - `tree` — post-processing of finished node lists: legacy emphasis,
    list-item shaping, hard-break cleanup, JSX child layout.
  - `inline`, `entity`, `autolink` — escapes, character references, link
    destinations and titles, e-mail autolinks.
  - `refs`, `slugger`, `table`, `fence` — link-reference tables, heading
    anchors, GFM table rows, block-quoted fenced code.
  - `schema` — validators and derived fields of content entries.
  - `render` — the indented tree view of a document.
  - `token`, `parser`, `diagnostic` — the token stream, the parser's cursor
    and state (options, the link-reference pre-pass), and what it reports.
  - `route`, `block`, `code`, `html`, `heading` — the block dispatch and
    the block productions that read whole tokens: front matter, ESM lines,
    thematic breaks, setext underlines, indented and fenced code (also
    inside block quotes), raw HTML and HTML comment blocks, block-quote
    markers, list continuation across blank lines, heading text trimming.
  - `inline_run` — the inline productions that read whole tokens: text
    (with GFM e-mail addresses), code spans, autolinks, delimiter runs and
    their flanking, hard breaks, inline raw HTML, footnote references,
    character references, strikethrough closers, the end tag of an open
    JSX element; also the link test of CommonMark 6.3 and ordered-list
    start numbers.
  - `link`, `jsx`, `table_scan` — inline link destinations and label
    resolution, JSX attributes and expressions, and GFM tables read from
    the token stream (alignments and raw cell text).
  - `pathtext` — paths written alike on every platform, and what
    `std::path` makes of them.
  - `display`, `text`, `assoc` — printer helpers, character-level text
    helpers, a small string-keyed map. The reference table, the slugger and
    the unique-value cache are keyed by strings; vstd's model of std's
    `HashMap` covers only key types it axiomatizes (integers, `bool`,
    `char` and the like), so these tables are an association list with
    distinct keys as its invariant.
- `tests/` — tests on concrete values.
- `app/` — what stays outside the verified library: serde copies of the AST,
  printing, JSON and file-system glue of the schemas.

Each public function states its result exactly over spec functions; the
`law_*` proof functions state properties across calls (first definition of
a link label wins, a slug or unique value is claimed once per bucket,
emphasis resolution only spends markers, legacy normalization leaves no
strong emphasis directly inside strong emphasis, stripping quote markers
keeps the line structure, and others).

Not in the library yet: the productions that assemble block and inline
content from the pieces above — the inline collection loop itself (with
its link and image arms, full and collapsed reference links, the bracket
depth bound and the re-parse of unresolved labels), paragraphs and setext
headings, lists and list items, block quotes (also with lists inside),
ATX headings, footnote definitions, the cells' inline content of tables,
JSX elements and fragments, and the top-level block loop. Lexing source
text into tokens is outside the library.
