# recipes

A self-hosted Cooklang recipe viewer with per-recipe version history and
bulk shopping lists, whose logic is written in Verus and proved against its
contracts.

## Layout

- `src/` — the verified library.
  - `text.rs`, `search.rs`, `paths.rs`: character-level string helpers,
    first-match search, path components.
  - `index/`: file-name grammar (`<base>[-v<MAJOR>[-<MINOR>]].cook`) and slugs,
    the index built from the files a walk found (`assemble.rs`), category and
    title ordering (`listing.rs`), which file events call for a rebuild
    (`watch.rs`), and how a rebuild replaces the index (`refresh.rs`).
  - `recipe/`: the parsed-recipe model over the `cooklang` parser, and metric
    unit normalisation in millionths of grams, millilitres and pieces.
  - `shopping/`: aggregation of selected recipes into a list (`mod.rs`,
    `bins.rs`), aisle grouping over `aisle.conf` (`aisle.rs`), stable
    ordering (`order.rs`), text and HTML output (`render.rs`).
  - `diff.rs`: line diffs of two versions (by `similar`) with Cooklang
    highlighting.
  - `server/`: HTML pages, the stored-list cache (an `lru` cache of 256
    lists living one hour), and the route handlers as functions from
    request data to replies.
  - `commands/`: the `validate`, `list`, `versions` and `shopping` reports.
- `app/` — the program: command line (`clap`), directory walks and file
  reads, the `axum` server and the `notify` watcher.
- `tests/` — behaviour on concrete inputs.

Laws of the library are public proof functions beside the code they speak
of, e.g. `lemma_version_text_round_trip`, `lemma_current_is_highest`,
`lemma_get_after_put`, `lemma_add_to_bins`, `lemma_lines_distinct`,
`lemma_aggregated_unique`, `lemma_warning_iff_mixed`, `lemma_lines_mass_floor`,
`lemma_override_wins_list`, `lemma_unknown_slug_list`,
`lemma_selection_adds_source`, `lemma_list_in_key_order`,
`lemma_duplicate_versions_fail`, `lemma_errors_reported`,
`lemma_highlight_keeps_text`, `lemma_kept_families`,
`lemma_normalize_idempotent`, `lemma_diff_page_layout`,
`lemma_history_newest_first`, `lemma_changelog_on_older`.

The parser's grouped ingredient list is known up to the order of each
group's quantities: quantities in units the converter does not know come
out of a hash map, so only their multiset is stated.
