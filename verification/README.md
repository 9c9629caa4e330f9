# earl

Verified pieces of the `earl` command runner, checked with Verus.

- `src/secrets` — parsing of `op://vault/item/field` and
  `vault://mount/path#field` references, the path-segment and Azure vault
  name checks, the 1Password and Vault resolver decisions (authentication
  choice, item URL, status handling, field selection) and their error texts.
- `src/browser` — the URL-scheme guard, the step-run state machine,
  history navigation, screenshot naming and encoding, and the rebuilding of
  the accessibility tree from the flat node list.
- `src/template/cache.rs` — the catalog cache file and the normalization of
  its fingerprint (sorted by path, first entry of each path kept).
- `src/text.rs`, `src/split.rs` — shared text helpers.
- `app/` — environment variables, HTTP and Vault calls, the Chrome session
  and the file-system scan, around the library.
- `tests/` — tests of every module on concrete values.
