# filelens

A Windows file-listing viewer whose logic is a library verified with Verus.

- `src/` — the verified library:
  - `wide.rs`: UTF-16 ("wide") strings for the Win32 API — encoding with
    two terminating NULs, decoding up to the first NUL, and the round-trip
    laws between the two.
  - `order.rs`: lexicographic order of byte strings (the order of `str`) and
    of sequences over any strict total order, with its laws.
  - `lens.rs`: the listing records (`FileEntry`, `DirEntry`), their order,
    their comparison, sizes for people to read, and a sort proved to keep
    every row, sort them, and give one order whatever the input order.
  - `decimal.rs`: decimal rendering of integers.
  - `listing.rs`: rows from a directory scan, the path used to stat long
    paths, and the generated sample listing.
  - `cache.rs`: a cache of wide strings keyed by text, with its laws.
  - `window.rs`: the decisions of the window procedure and message loop,
    including the reply to each message.
- `tests/` — tests of the library on concrete values.
- `app/` — the program: directory scanning, timing, and the Win32 window,
  which performs what `window.rs` decides.
