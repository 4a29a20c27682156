# basemark-cli

A command-line client and MCP server for the Basemark wiki, with its core
written in Verus and proved against its contracts.

- `src/` is the verified library:
  - `json.rs`: the JSON value model used for Tiptap documents and request
    bodies, with its mathematical view.
  - `text.rs`: string helpers (trimming, line splitting, decimal numbers,
    first word of a code-block info string).
  - `markdown.rs`: Markdown to Tiptap JSON. pulldown-cmark parses the text;
    the fold from its events to the document tree is verified.
  - `render.rs`: Tiptap JSON to Markdown, proved equal to a recursive
    specification, with round-trip laws for plain paragraphs and headings.
  - `codec.rs`: JSON text in and out through serde_json: reading a reply
    (for `read`) and writing a request body or a converted document.
  - `config.rs`: the `url`/`token` configuration and the `config` command.
  - `api.rs`: the request each API operation sends, and the plans of the
    `collections` and `share` commands.
- `app/` is the program around it: argument parsing, the config file, HTTP,
  terminal output and the MCP server.
- `tests/` runs the library on concrete inputs.
