# omnius_generator

A library that generates service projects from a catalog of modules and profiles and keeps them
managed: it plans additions, removals, profile changes and updates, seals a plan together with the
lockfile that Cargo resolves, and applies it through a durable transaction journal. The library is
written in Verus: what each function returns or changes stands in its contract and is proved.

## Layout

- `src/`: the verified library.
  - Text, sets and digests: `text`, `ordered`, `sorting`, `digest`, `paths`, `wildcard`,
    `file_map`, `findings`.
  - Documents: `toml_text`, `yaml_text`, `templates`.
  - Releases: `revision`, `release`, `build_support`.
  - Catalogs: `requirements`, `modules`, `module_checks`, `configuration_checks`,
    `dependency_checks`, `selection`, `module_catalog`, `module_resolution`, `removal_laws`,
    `catalog_extension`, `catalog`, `application_templates`.
  - Cargo graphs and resolution: `cargo_graph`, `cargo_metadata`, `cargo_framework`,
    `cargo_difference`, `cargo_resolver`.
  - Provenance of dependencies: `provenance`, `provenance_project`, `provenance_laws`,
    `thin_service`.
  - Project state and managed regions: `state`, `region`, `region_laws`.
  - Rendering: `rendering`, `compose`, `reference_config`, `derived`, `render`, `render_profile`,
    `render_course`.
  - Planning: `management`, `snapshot`, `diagnosis`, `plan_selection`, `plan_files`,
    `plan_regions`, `plan_derived`, `planning`, `plan_laws`, `plan_settled`, `plan_effect`,
    `diff_laws`, `listing_laws`, `profile_laws`, `sealing`, `lifecycle`.
  - Transactions: `journal`, `transaction`, `recovery`, `applicator`, `applicator_laws`,
    `restorer`, `restorer_laws`, `recovery_course`.
  - The command: `cargo_service`, `service_run`.
- `app/`: the `cargo service` program around the library: arguments, files, locks, Cargo and the
  wire forms of catalogs, states, plans and journals. It reads its catalogs and templates from the
  directory that `OMNIUS_BUNDLE_ROOT` names, or from `bundle` beside the executable.
- `tests/`: tests of the library.

## What is believed without proof

Calls into other crates stand behind small functions whose contracts are believed: SHA-256 (`sha2`),
version parsing (`semver`), TOML and YAML documents (`toml`, `serde_yaml`), quoted strings
(`serde_json`) and templates (`minijinja`), and from the standard library `String::push`,
`str::trim` and the `Debug` form of strings. Each of them says in its comment what it calls and what
is claimed of it.
