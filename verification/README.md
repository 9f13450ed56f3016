# woff2

Decoding pieces of the WOFF2 font format, written in Verus and proved
against specifications of the format.

- `src/buffer.rs`: reads of big-endian integers, `UIntBase128` and
  `255UInt16` on byte slices (the `SafeBuf` and `BufExt` traits), and
  padding to four-byte words. The byte reads and writes go through the
  `bytes` crate.
- `src/brotli.rs`: the Brotli stage, through the `brotli` crate.
- `src/decode.rs`: the decoding error type, the WOFF2 signature test, the
  check of the font flavor, and the decompression of the table data with
  its two size checks against the header's compressed size.
- `src/glyf/`: reconstruction of the `glyf` and `loca` tables from the
  transformed `glyf` table: the header and streams (`parser.rs`), simple and
  composite glyphs (`simple.rs`, `composite.rs`), the triplet table
  (`triplet.rs`) and the glyph bitmaps (`bitmap.rs`). `decode_glyf_table`
  is proved to return exactly what `glyf_decode` says of its input;
  `law_loca_indexes_glyf` and `law_glyf_segments` prove that the `loca`
  table it builds indexes the `glyf` table, each segment being a glyph's
  bytes and its padding, and `law_simple_glyph_reads_back` that a TrueType
  reader gets back the contours, instructions and points of each simple
  glyph.
- `app/`: the error types with `Display` and `std::error::Error`, through
  `thiserror`.

Not part of this crate: the WOFF2 container around the tables (the file
header, the table directory, font collections, the rebuilt sfnt header and
its checksums), and with it a whole-file conversion from WOFF2 to TTF.
