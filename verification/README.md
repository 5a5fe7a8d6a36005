# pan_registrar

The registrar of Personal Agent Naming (PAN): handles of the form
`<name>.<email>` claimed under a verified email, bound to agents by email
proof or by agent-key pairing, resolved to public cards, with every action
appended to an owner-scoped, hash-chained history log. Sessions carry
their provenance (`email`, or `delegated:<partner>` when a partner vouched
for the address): the card shows it as `claimed_via`, the log records it,
and a delegated session may not release a handle. A connector harvests
AgentMesh registry manifests into catalog listings and follows node presence.

Layout:

- `src/` — the verified library. `registrar` holds the rules (email and
  name validation, handle keys, codes, pairing, check-in canonical strings,
  the log's chained hash); `flows` turns each registrar action into a step
  machine whose requests a storage driver performs; `views` and `web` state
  the documents and HTTP decisions (cards, WebFinger, error bodies, client
  address choice lives in `netaddr`); `mesh` holds the connector's settings,
  harvest rules, presence mapping and backoff; `dial` the schedule by which
  the database is dialled at startup; `json`, `order`, `text`,
  `numeric` and `codec` are the supporting pieces (canonical JSON, string
  order, trimming and case folding, decimals, and the thin calls into
  base64, sha2, uuid, chrono and pulldown-cmark).
- `tests/` — tests of the library on concrete values.
- `app/` — the service around it: axum routes, sqlx storage, the embedded
  PostgreSQL bootstrap, email delivery and the AgentMesh session.
