# atrinik_client

The Atrinik client core as a verified library: the session reducer and
semantic actions, the UI and scene adapters, the protocol adapter, static
server discovery with its last-known-good cache, the platform lifecycle with
headless substitutes, and the authenticated resource boundary. Verus proves
the contract of every function in `src/` except three wrappers of outside
code, whose contracts are trusted: SHA-256 through `sha2`, HTTP-date parsing
through `httpdate`, and appending a character to a `String`. The traits that
callers implement (action sink, directory transport, cache and parser) state
their behaviour only for implementations that opt in through their
`obeys_*_spec` functions; the in-memory cache and the recording sink do.

## Layout

- `src/actions.rs`, `src/session.rs`, `src/testkit.rs`: semantic actions, the
  bounded action queue, and the revisioned session reducer.
- `src/ui_model.rs`, `src/scene.rs`, `src/protocol_adapter.rs`: read-only
  presentation models and the validated-message boundary.
- `src/directory_model.rs`: the client-owned directory model, installed-content
  compatibility, and conversion of parsed directories.
- `src/transport.rs`: the fixed directory request, header selection, and the
  decoded body bound.
- `src/directory.rs`: response acceptance, fallback to the last-known-good
  record, and connection planning.
- `src/directory_cache.rs`, `src/cache_laws.rs`: the cache record format,
  file names, candidate choice, the in-memory cache, and the laws of the format.
- `src/platform.rs`: input mapping, the window/device lifecycle, and headless
  clock, clipboard and audio.
- `src/config_cache.rs`: storage classes and resource verification.
- `src/text.rs`, `src/ordered_keys.rs`, `src/digest.rs`: decimal and hexadecimal
  renderings, ordered-key helpers, and SHA-256 through `sha2`.
- `app/`: the program around the library — arguments, the clock, HTTPS through
  `ureq`, the cache directory on disk, the native window through `sdl3`, and
  the canonical directory parser of `atrinik-protocol`.
