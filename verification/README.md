# aidms-core

The core of a desktop document-management assistant: import and parse files,
index them for keyword and semantic search, fuse the two rankings, answer
questions over retrieved passages, and keep secrets and requests safe.

The library under `src/` is written in Verus; every function in it carries a
contract that Verus proves. Calls into outside crates (zip, jieba-rs,
aes-gcm, argon2, rand, base64, url, serde_json) stand
behind small trusted wrappers whose doc comments say what is assumed of them.
The PDF parsers (lopdf, pdf-extract) can panic or exhaust the stack on
malformed files, so they are called only from `app/`, on a parse thread of
their own; the library decides the outcome from what they return.

Modules:

- `parse`: file-type detection, resource limits, text extraction (plain text,
  CSV, docx and xlsx with zip-bomb limits; the page limit and outcome of the
  PDF text layer).
- `search`, `fusion`, `tokenize`: query planning, snippets with highlighting,
  segmentation with `jieba-rs` and its bundled dictionary (the project's own
  jieba dictionary files are not part of this tree),
  merging of ranked lists, reciprocal-rank fusion with exact rational scores.
- `index`, `ingest`, `sql`, `entities`, `fields`: chunking, FTS content,
  document records, pending-reindex bookkeeping, SQL text and arguments.
- `rag`, `assistant`: context blocks, the isolated prompt, citations and the
  streamed-answer line protocol.
- `security`, `net`, `crypto`, `config`, `settings`: log redaction, path
  containment, endpoint building, restricted addresses, secret sealing.
- `commands`, `watch`, `ocr`, `export`: the decisions behind the application
  commands, the folder watcher's state, OCR page assembly, CSV export.
- `text`: character-sequence utilities shared by the others.

`app/` holds what the library does not: database access, file and network
I/O, the keyring, the folder watcher, and serde copies of library types.
`tests/` exercises the library with the real outside crates linked.
