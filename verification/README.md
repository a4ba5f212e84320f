# sampo_core

The core of a release manager for multi-ecosystem monorepos (Cargo, npm,
PyPI, Packagist, Maven, and Hex where its sources allow): changesets, the
configuration, workspace discovery, manifest version updates, pre-releases
and the publish plan.

## Layout

- `src/` is the verified library, written with Verus. Every function there
  states what it returns in its `ensures`; the laws that relate several
  functions are public proof functions (`law_*`). Calls into outside crates
  (`toml`, `toml_edit`, `serde_json`, `serde_yaml`, `tree-sitter-xml`,
  `semver`, `changesets`, `url`) go through small trusted wrappers whose
  results are named by uninterpreted spec functions: `src/parse.rs` reads
  TOML, JSON and YAML documents. Where the values a version update rewrites
  stand in a manifest's text is worked out by verified code over what the
  parsers report: `src/toml_layout.rs` over the `toml_edit` document,
  `src/json_layout.rs` over the members `serde_json` reads,
  `src/xml_layout.rs` over the `tree-sitter-xml` syntax tree, with
  `src/offsets.rs` turning byte offsets into character positions.
  `src/reactor.rs` decides the walk over a Maven reactor's POMs;
  `src/glob.rs` proves that wildcard matching is membership in the
  pattern's language.
- `tests/` runs the library on concrete inputs.
- `app/` is the ordinary Rust around it: file and network I/O, `git`, the
  commands that publish, and the error types with `Display`.
