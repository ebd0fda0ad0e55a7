# openbiz

The verified core of OpenBiz, a self-hosted taxonomy, ontology and thesaurus manager. Every
function under `src/` carries a contract. Verus proves each of them, except the two small
wrappers around standard-library calls (`String::push` and `{:?}` formatting), whose contracts it
takes on trust.

## Layout

- `src/discovery.rs`, `src/local.rs`: discovery of existing concepts before a new one is minted —
  asking every source, ranking what comes back, bounding the listing, and recording which sources
  answered and which could not be reached.
- `src/accept.rs`: ranking the media ranges of an `Accept` header, given what each stated weight
  reads as; `app/accept.rs` reads each weight as a single-precision float, which the library does
  not hold.
- `src/config.rs`: merging the built-in defaults, the configuration file and the environment,
  with the provenance of every value.
- `src/cli.rs`: the command line.
- `src/export.rs`: the download filename and header value of an export.
- `src/skos.rs`: the parts of the SKOS model discovery works with.
- `src/api.rs`, `src/owl.rs`, `src/git.rs`: the API's shapes, the reasoner interface, and
  vocabulary-as-code types.
- `src/inspect.rs`: the report `openbiz inspect` writes, from the counts and names it reads off a
  vocabulary.
- `src/paths.rs`: the report of the routes up a hierarchy — the routes, where they stop, and the
  loops.
- `src/mint.rs`, `src/policy.rs`: what a mint reports (what discovery found under the label, where
  the pattern came from, how the local name was made, the justification filed) and what the
  minting policy of a vocabulary is.
- `src/deprecate.rs`, `src/reinstate.rs`: what a retirement strands, and what is still retired
  around a reinstated concept.
- `src/merge.rs`, `src/integrity.rs`, `src/search.rs`, `src/justifications.rs`: the phrases the
  other command reports are written in, and a recorded justification read back.
- `src/local.rs` also chooses which parts of the store a search reads, and in what order.
- `src/text.rs`: decimal numerals and the string building the reports share.
- `app/`: the binary — arguments, environment, files, logging, the HTTP listener, and reading
  `Accept` weights as floats.
- `tests/`: the tests, run against the compiled library.

The laws the library keeps are public proof functions beside the functions they are about, such as
`accept::lemma_preferences_are_ranked`, `discovery::lemma_ranked_is_a_sorted_permutation`,
`discovery::lemma_merged_record`, `discovery::lemma_merged_record_sums`,
`paths::lemma_midway_named_once`, `export::lemma_download_name_is_safe` and
`export::lemma_escaping_round_trips`.
