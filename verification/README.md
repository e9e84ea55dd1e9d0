# indexref

An indexer of saved web content (Telegram chat exports, SingleFileZ pages,
Scrapbooks and OneTab exports): a sync service keeps a database and an
OpenSearch index in line with the configured source directories, and a
server answers the GUI with the node tree and the data of each node.

## Layout

- `src/` — the verified library (Verus):
  - `node_tree` — the node tree served at `/nodes`, built from the rows of
    the node query; exact contract, and no node placed twice.
  - `diff_files` — which indexed files to delete and which found files to
    add, with the laws that applying the diff leaves the index holding
    exactly the files on disk, and that an up-to-date index gives an empty
    diff.
  - `file_finder` — which walked paths are source files of which kind.
  - `telegram`, `onetab`, `single_file_z`, `scrapbook` — the nodes each
    importer builds from a parsed source file, the dates and redirects read
    with their regular expressions, and the Scrapbook folder links.
  - `presentation`, `http` — a node as presented, the status and envelope of
    the JSON answers, the static asset forwarding address.
  - `watcher` — the watched-directory set (paths compared by their
    components) and its update plan, with its laws, the filters
    of file events, and the decisions of the sync service.
  - `types`, `datetime`, `text`, `record`, `config`,
    `env_config`, `sources_config`, `result_ext` — shared types and helpers.
  - `paths`, `pattern`, `html`, `urls`, and the parser call in `datetime` —
    the calls into `std::path`, `regex`, `scraper`, `url` and `chrono`, with
    the contracts that
    the proofs rely on.
- `tests/` — tests of the library on concrete values.
- `app/` — the two programs (`serve`, `sync`): configuration, database,
  HTTP, file system watching and OpenSearch requests around the library.
