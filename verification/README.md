# plumbline-core

The headless study core of Plumbline, a Bible-study reader, written in Verus:
every function in `src/` carries a contract that Verus proves.

## Layout

- `src/` — the verified library, one module per concern:
  the canon and verse references (`canon`, `reference`, `order`), the corpus
  and its caches (`corpus`), the AKJV overlay and its packed form (`akjv`),
  cross-references (`crossref`), the study panel's cards and its blocks
  (`cards`, `panel`), the interface catalogues (`i18n`), fonts (`font`),
  settings (`config`), the church share link (`church`), dates (`civil`),
  devotionals, the hymnal with its chords, memory verses, notes and export
  (`devotional`, `hymnal`, `memory`, `notes`, `export`), short glosses
  (`gloss`), the home directory layout (`home`) and shared text helpers
  (`text`).
- `tests/` — tests run against the compiled library.
- `app/` — the unverified edge: file and network I/O, serde wire types, and
  the few computations on floating point.

Calls into outside crates and into std functions that vstd does not specify
go through small trusted wrappers, each documented with what its contract
claims; `flate2` is the one outside crate the library itself calls.

The laws the library promises stand as public `lemma_*` proof functions
beside the code they speak of.
