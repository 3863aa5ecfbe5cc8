# kite-lite

A light web engine for agents. It parses HTML into a tree of elements, lays
the tree out and draws it, lints it, runs isolated scripts on a snapshot of
it, and lets a client click, type and submit forms without running any script
of the page. It speaks a small part of the DevTools protocol, the Model
Context Protocol, and a control API over HTTP.

`src/` is the verified library, `kite_lite_core`. Each module states what its
functions return or change over mathematical models of the types; laws that
relate several functions stand beside them as proof functions whose names
begin with `law_`.

| Modules | Subject |
| --- | --- |
| `seqs`, `text`, `numbers`, `json` | sequences, texts, numbers and JSON values |
| `model`, `tree` | pages and elements, and finding elements by number or tag |
| `dom`, `html`, `links`, `cookies` | from a response to a page |
| `layout`, `render`, `raster` | boxes, SVG drawings, PNG and PDF files |
| `js` | scripts on a snapshot of a page |
| `forms`, `webmcp` | form submission, and forms declared as tools |
| `a11y`, `seo`, `social`, `report` | linters and their reports |
| `session`, `outer_html`, `cdp`, `mcp`, `http` | the decisions of the servers |

What the outside crates compute comes in through functions marked
`#[verifier::external_body]`; the comment above each says what is taken from
the crate without proof.

Lengths are whole tenths of a pixel. Where a page would be higher than such a
length can say, it gets no boxes and no drawing.

`app/` holds the two programs around the library. `kite-lite`, from `main.rs`,
has the command line, files, sockets and processes. `kite-lite-js`, from
`kite_lite_js.rs` and `wire.rs` alone, runs scripts in a process of its own and
holds no network code.
