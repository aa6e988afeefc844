# gas_config

The configuration layer of a game built on a gameplay ability system: binary
table decoding, table preparation, authoring validation, compilation plans for
effects, targeting pipelines and abilities, inspection reports, owner-local
ability grants, and package manifests with BLAKE3 fingerprints.

Everything under `src/` is verified with Verus, except the bodies of the
wrappers through which it calls std and the outside crates, whose contracts
Verus takes on trust:

- `text::push_char`: `String::push`.
- `decoding::values::utf8_text`: `std::str::from_utf8`.
- `text::debug_text`: the `Debug` form of a string, named `str_debug`.
- `package::hashes::blake3_digest`: `blake3::hash`, named `blake3_hash`.
- `package::json::parse_json` and `package::json::pretty_json`:
  `serde_json::from_slice` and `serde_json::to_vec_pretty`, named
  `json_document` and `json_pretty`, with the conversions `model_of` and
  `value_of` between `serde_json::Value` and the library's `JsonValue`;
  `pretty_json` also states that, for a document nesting at most
  `JSON_NESTING_LIMIT` deep without repeated keys, the written text reads back
  as the document's content in `json_normal` form (members in ascending key
  order, `null` for a number without an unsigned value).

Each public function states in its contract what it returns for every input,
over spec functions of the tables' mathematical views, errors with their kind,
location and message; the laws that span several functions are public
proof functions:

- `compiler::compilability::lemma_validated_tables_compile`: prepared tables that
  pass authoring validation compile with no row failing.
- `compiler::registration::lemma_registration_order`: tags register in strictly
  ascending order, every parent before its children.
- `compiler::preparation::lemma_prepare_ignores_child_row_order` and
  `generated::lemma_row_with_key_permuted`: preparation follows the authored
  reference lists, whatever the order of the task, cost and modifier rows;
  `inspection::report::lemma_report_ignores_child_row_order` carries this to
  reports, and `compiler::validation::lemma_validation_ignores_child_row_order`
  with `inspection::report::lemma_describe_ignores_child_row_order` to whether
  validation and describing succeed, and to what describing gives wherever the
  tables validate or fail to prepare.
- `inspection::report::lemma_report_level_only_in_heading`: only a report's
  heading depends on the level.
- `compiler::preparation::lemma_prepare_failure_kind` and
  `compiler::validation::lemma_validation_failure_kind`: the kinds of failure
  that preparation and validation report, each with its message.
- `inspection::report::lemma_describe_fails_as_validation`,
  `lemma_describe_error_is_validation_error` and
  `lemma_describe_error_is_determined`, with `error::lemma_reports_determine_error`:
  describing fails with validation's own error wherever validation fails, and
  the default level describes as level one does.
- `compiler::preparation::lemma_order_actions` and
  `compiler::abilities::lemma_prepared_task_batches`: timelines are ordered by
  tick then authored position, and task batches hold exactly those actions.
- `catalog::grants::lemma_grant_then_revoke` and
  `catalog::grants::lemma_bound_blocks_grant`: grants and revokes of bindings.
- `package::manifest::lemma_written_manifest_checks` and
  `package::manifest::lemma_written_file_accepted`: a written manifest document,
  in any member order, and the files it lists check as what was written;
  `package::json::lemma_written_manifest_reads_back` with
  `lemma_manifest_document_writable`: the manifest text written for that document
  checks back as its records, resting on `pretty_json`'s stated read-back fact;
  `lemma_sort_records`: the checked file list is ordered by name and holds
  exactly the listed records.

Layout:

- `src/config/decoding`, `src/config/generated`, `src/config/loading.rs`: the
  binary table protocol and the generated tables.
- `src/config/compiler`: preparation, validation, registration orders and the
  compilation plans.
- `src/config/inspection`: ability reports.
- `src/config/catalog`: ability identifiers and owner-local bindings.
- `src/config/package`: package size limits, fingerprints and manifests.
- `app/`: the command-line tool and the game, which run the plans on the
  ability system's runtime types and read and write the files.
- `tests/`: tests of the library on concrete tables, packages and manifests.
