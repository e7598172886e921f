# parfit

Paragraph fit: reflow the prose in code comments to a target width
with optimal-fit line breaking, leaving directives (`//go:generate`,
`// eslint-disable`, shebangs, …), code, Markdown structure and fenced
blocks untouched.

The library is written in Verus. Every text is modelled as the
sequence of its characters, and each public function states what it
returns over that model:

- `text` — whitespace, trimming, prefixes, substrings, the split into
  lines;
- `directives`, `prefix` — the built-in directive heuristics and
  comment-prefix detection;
- `lang` — the language table, extensions and names;
- `options` — reflow options, with user skip patterns (`regex`);
- `reflow` — the paragraph pipeline and its fence matcher; wrapping is
  done by `textwrap`;
- `source` — source mode: comment regions reflow, code is copied;
- `filter` — the glob filters of the file walker (`globset`);
- `cli` — the decisions behind the command line;
- `laws` — properties of reflow as a whole.

`app/` holds the `parfit` command: argument parsing (`clap`), standard
input and output, and the file-system walk (`ignore`).
