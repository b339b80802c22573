# proxy_elev

A verified library for a proxy printing service for Netrunner cards: the card
catalogue of each print group, the print list, the published image catalogues
and the validated public card feed.

- `src/` is the library, written in Verus and verified; its public functions
  state what they return in their contracts.  Legacy image URLs use the
  default image root; a build-time override of that root is not read.
  - `library.rs`: card identities, libraries, local image overrides, published
    images and image URL resolution, print slots.
  - `print_file.rs`: the print list, with automatic rotation through variants.
  - `published.rs`: the general asset catalogue.
  - `proxy_consumer.rs`: validation of the public card feed.
  - `runtime_library.rs`: merging the feed into the bundled library and
    assembling the state in use.
  - `client.rs`: the front end's decisions (search, sheet and export layouts,
    deck list imports).
  - `print_config.rs`: print settings.
  - `laws.rs`: properties that span operations.
  - `assoc.rs`, `scan.rs`, `text.rs`: finite maps and sets, left-to-right
    scans, and text helpers.
- `app/` holds what stays outside the proofs: JSON and RON forms of the types,
  network loading, and the page geometry in floating point.
- `tests/` exercises the library on concrete values.
