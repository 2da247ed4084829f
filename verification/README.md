# domain_router

The routing, sitemap and catalog logic of a Cloudflare Worker that serves several Pages
projects under one domain, with the host tools that assemble, validate and deploy its route
catalog. The logic is written in Verus and proved against contracts stated over sequences of
characters; the Worker runtime, the file system and the network stay outside.

## Layout

- `src/` — the verified library.
  - `router/matcher.rs`: which route serves a path (`match_route`), the prefix rewrite and the
    upstream URL; the longest prefix wins on a built route table.
  - `router/proxy.rs`, `router.rs`: what the proxy forwards, and the `<base>` tag given to
    routed HTML.
  - `routes.rs`: checking route definitions and building the ordered route table.
  - `fetch.rs`: the decision the request handler acts on (`dispatch`).
  - `sitemap.rs`, `xml.rs`: the sitemap index, child-sitemap paths, and rewriting `<loc>`
    URLs onto the domain through `quick-xml`.
  - `catalog.rs`, `assemble.rs`, `validation.rs`, `origins.rs`, `tools.rs`: the catalog's
    route shape, command-line flags, assembly of route definitions, catalog validation, the
    origin resolver's checks, and the uptime monitor's endpoints.
  - `versions.rs`, `bump.rs`: which (app, environment) versions changed between two catalog
    snapshots, and pinning a new version by editing exactly one line.
  - `urls.rs`: URLs parsed with the `url` crate, carried with their serialization.
  - `text.rs`: character-sequence helpers and their specifications.
- `tests/` — tests of the library on concrete values.
- `app/` — the Worker's request handler and the host tools' entry points: environment
  bindings, fetches, file and network I/O, and the serde forms of the catalog.
