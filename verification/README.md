# skills_manager

Skill bundles for the Skills Manager: a bundle is a reusable task workflow whose
stages tell an agent which skills to read, in which order and under which
condition. This crate verifies, with Verus, the logic behind bundles and the
web front end that drives them.

- `src/text.rs` – slugs, blank text, string equality, duplicates, decimal text.
- `src/graph.rs` – depth-first cycle search over successor lists.
- `src/bundle.rs` – manifests, their structural rules (`validate_structure`),
  stage readiness (`ready_stage`) and error messages.
- `src/laws.rs` – run orders of valid manifests and properties of readiness.
- `src/json.rs` – the JSON the CLI prints, read with `serde_json` (trusted wrappers).
- `src/commands.rs`, `src/web.rs` – CLI command lines, request routing, field
  checks, access and binding rules of the web server.
- `app/` – the HTTP server (axum) and the YAML/JSON forms of manifests.
