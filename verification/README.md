# aff4tools

Reading, verifying and writing AFF4 forensic containers, with the logic stated in
contracts and proved by Verus.

- `src/` is the library. Every function in it is verified but for the few that call
  outside code, named below. What a container holds, what a digest covers, how a stream is cut into bevies and chunks, how a map or a
  deduplicated file is stored, and what a report says are spec functions, and the
  executable functions are proved to compute them.
  - `stream`, `chunk_reader`: reading a stream from its beginning to its end, or a
    region of it on demand.
  - `verify`: recomputing recorded digests, and estimating the work beforehand.
  - `write`: streams, maps, deduplication, physical sources, logical acquisition.
    `write::round_trip` states what is read back of what was written.
  - `rules`: the requirements of the AFF4 documents and which of them are checked.
  - `version`, `storage_form`, `split_set`, `naming`, `arn`, `rdf`, `hash`, `codec`:
    the formats and names that the rest is built on.
- `app/` is ordinary Rust around the library: files, devices, directory walks.
- `tests/` runs the library with the codecs and digests it is linked against.

The compression codecs (`snap`, `lz4_flex`, `flate2`), the digests (`md-5`, `sha1`,
`sha2`) and the system's entropy (`getrandom`) come from outside, and so do a few
functions of the standard library that Verus has no contract for: whether bytes are
UTF-8, the lossy reading of UTF-8, how a text is quoted, and the appending of a
character. Each is called in one place, under a contract that is believed and not
proved. The comment there says what is taken on trust.
