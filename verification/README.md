# oakum

A release tool that derives dependent version bumps from the dependency graph,
across npm and Cargo workspaces. This crate is its decision core, written in
Verus. Every function in `src/` carries a contract that Verus proves, except
the `#[verifier::external_body]` functions: the wrappers around `semver`,
`git_conventional`, `serde_json`, `toml`, `toml_edit` and four std calls,
whose contracts are trusted, each stating what the outside function's source
shows, and the converters that hand a parsed `serde_json`, `toml` or
`toml_edit` value over as this crate's plain document and key trees,
variant for variant. Which keys a `toml_edit` tree holds, and where, is
walked in verified code over that plain tree.

## Layout

- `src/` — the verified library.
  - `config`, `key_path`, `documents` — reading `_config.toml` and the other
    documents oakum looks at (JSON and TOML text read into one document
    type), naming the key a refusal is about, and the JSON Schema written
    beside the config as `_schema.json`.
  - `json_text` — documents printed as pretty JSON.
  - `commits`, `plan`, `versions`, `order` — conventional-commit intent,
    aggregated bumps, versions and their ordering.
  - `tags`, `tag_shape`, `release`, `release_steps`, `release_state`,
    `render` — tag grouping and shape derivation, the release decisions and
    their reports, and the status and pull-request renders.
  - `migrate`, `migrate_config`, `migrate_source_plan`, `migrate_output`,
    `owned_files` — moving a repository from another release tool: what is
    carried, which bump files are rewritten, the steps of a run, and what
    is said.
  - `install_pin` — the oakum versions a repository pins, and whether they
    agree.
  - `preconditions`, `verdict`, `outcome` — which looks a check runs (the
    remote-tags look among them), how their reports fold into one verdict,
    and the exit code it carries.
  - `write_set`, `version_plan` — the planned writes of `version`, the rule
    that it writes only the files it owns, and the steps that commit a write
    set and undo it.
  - `owned_files` also holds the `upgrade` step: which of the two owned
    files it writes and the lines it prints. `release` holds the refusals
    a release run gives before it looks up any tag.
  - `text`, `views` — strings as character sequences, and the lemmas that
    relate them.
- `tests/` — tests on concrete values, run against the compiled library.
- `app/` — the command line: reading files, running git, reading
  `_config.toml` into its wire shape, and printing. Every decision it prints
  is the library's.
