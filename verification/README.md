# hayabusa-evtx (verified core)

Verus-verified pieces of an EVTX (Windows event log) parser and of its
`evtx_dump` command line tool.

- `src/cursor.rs`: a byte cursor with little-endian reads (via `byteorder`).
- `src/utf16.rs`: UTF-16 decoding up to the first NUL unit.
- `src/name.rs`: binary XML names: name links, name references (with the
  inline-name skip checked against the input's end) and cached names, with
  spec functions that state each read exactly, and laws relating them.
- `src/xml.rs`: `quick_xml` start and end tags named after a binary XML name.
- `src/ranges.rs`: the `--events` list parser and filter.
- `src/text.rs`: character-level helpers (equality, decimal writing).
- `src/dump.rs`: the option, record-output and output-file decisions of
  `evtx_dump`.
- `app/main.rs`: the command line program itself (argument parsing, files,
  prompts, and the record loop over the EVTX parser library `evtx`).
