# wps_mcp_rust

A local stdio MCP server for `.docx`, `.xlsx` and plain-text files, and the verified
library it is built on. The server reads and writes files; every decision about their
content is made by the library, whose functions carry contracts proved with Verus.

## Layout

- `src/docs/` — the library.
  - `strings.rs`, `pathutil.rs`, `error.rs`: character-sequence helpers, path checks
    (existence, extension, where a write may go), and the error type with its messages.
  - `a1.rs`, `cell.rs`: A1 cell addresses and ranges; cell values and their CSV form.
  - `xml.rs`: the two passes over a Word document's XML events (text and tables;
    replacing the text of runs), over the events quick-xml reads.
  - `archive.rs`, `compound.rs`, `encoding.rs`: the calls into `zip`, `cfb`,
    `encoding_rs` and std's UTF-8 check, each behind a trusted wrapper whose contract
    says what the library relies on.
  - `docx.rs`, `xlsx.rs`, `embeddings.rs`, `text.rs`: the document operations. They take
    what the file system reports (`PathInfo`) and the file's bytes (a cell update takes
    the workbook as umya-spreadsheet read it from the file), and return the result
    together with any bytes or workbook to write. Reading a text file is a state machine
    (`begin_read`, `TextRead::action`, `feed`, `finish`) so that the caller can stream a
    large file line by line.
- `src/tools/`: the tools' parameters as plain values, and the defaults they apply.
- `tests/`: tests of the library; fixtures are built in memory.
- `app/`: the server program: protocol, JSON, file reads and writes.

## Laws

Proof functions named `law_*` state properties that span several calls, for example
that pages of a sheet read concatenate and all report the same row count, that a CSV
export holds one line per row, that an A1 address reads back as the cell it was written
for, that a created document's main part reads back as written, and that no write
replaces an existing file unless asked to.
