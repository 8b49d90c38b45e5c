# ezpdb

Parses Microsoft PDB debug information into a model of types, symbols and
debug modules, and compares two parsers' reports of one PDB. The rules of the
model are written in Verus and proved.

## Layout

- `src/records.rs` — the records of a PDB's streams as plain values.
- `src/text.rs` — decimal, hexadecimal and quoted renderings.
- `src/decode.rs` — decoding the bytes of the type and symbol streams into
  those records with ms-pdb (one record at a time), gathering the fields of
  each field list chain (a chain that comes back to a list it has read ends
  there), and the parse of what was read of a file.
- `src/convert.rs` — conversion of TPI and IPI type records into the type
  arena of a `ParsedPdb`, with the two type maps kept apart, and when a
  conversion succeeds.
- `src/type_info.rs`, `src/type_size.rs` — the type model, sizes, and the
  completion of arrays once every type is known.
- `src/sections.rs`, `src/symbol_types.rs` — section headers, RVAs and the
  symbol model.
- `src/parse.rs` — the whole parse and its laws (every record that converts
  in index order is in its map; locations do not depend on the base address;
  the TPI map holds no IPI items).
- `src/new_pdb.rs`, `src/old_pdb.rs`, `src/compare.rs` — the reports that the
  comparison reads, and the comparison itself (each name that one report
  lacks is reported exactly once).
- `src/api_compat.rs` — the rules of the compatibility and offset checks.
- `app/` — the command line program: reading the streams of PDB files with
  `ms-pdb`, the `ezpdb_old` parser, and printing.
