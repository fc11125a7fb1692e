# pd_guard

A service that finds personal data in text sent to language models, masks it before the
request leaves, keeps the mapping from masks to originals in an encrypted store, and puts the
originals back into the answer.

The library (`src/`) is written in Verus: every function states what it computes in its
`requires`/`ensures`, and the verifier checks the bodies against those contracts.

- `src/domain` — documents with their normalized text and offset map, candidates and
  entities, the numbering of masked values, per-type maps.
- `src/service/detect` — the detectors (cards, tax numbers, passports, phones, dates,
  addresses, names, configured patterns…), their checksums and context scoring.
- `src/service` — the detection step and the end of the masking of a line (`detection`,
  `line`), relevance filters, conflict resolution, co-occurrence rules, maskers, the masking
  pass, demasking, JSON paths, token counting, the masking/demasking decisions.
- `src/config` — the configuration model, its validation and compilation, and the policy in
  force for a system and route.
- `src/controller` — routing, authentication, the admin token check, and the request/answer
  decisions.
- `src/adapter` — the circuit breaker and the meaning of a recognition service's answer.
- `src/infra` — hashing, keyed tokens, encryption of mappings, patterns.

`app/` is the program around the library: reading the configuration and its files, the HTTP
server, the mapping store, calls to the recognition service and the upstream models, and the
Prometheus metrics (the `metrics` and `metrics-exporter-prometheus` crates).

The detector of dates written in words (`NumeralDateDetector`) is not part of this crate: the
module of number words it is built on was not available, so it was dropped.

Run `cargo test` for the tests under `tests/`.
