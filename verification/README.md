# babelcomics

The core of a personal comic library organiser, written in Verus: the rules
that decide what the library does are stated as contracts and proved.

- `src/` — the verified library. Each module states its model with spec
  functions and proves its functions against it:
  - `scanner`, `scan`, `extractor`, `natural`, `pathutil`: which files are
    comics, how pages are listed and ordered, path handling;
  - `cover_hash`, `suggestions`: the perceptual cover hash, its distance and
    the selection of the closest catalogue matches;
  - `organizer`: file names, target folders and duplicate handling when the
    library is reorganised;
  - `comicvine`, `cv_search`, `downloads`, `download_run`, `publisher_import`:
    requests to ComicVine, grouping of search results, the download queue and
    the walk over a volume's issues;
  - `background_jobs`, `job_rows`, `extraction_registry`: the job registry,
    its page and the reader's extraction folders;
  - `paths`, `thumbnail`: where thumbnails live, card sizes and filters;
  - `grid`, `reader`, `tabs`, `preferences`, `page_texts`, `comic_view`,
    `clip_report`: the decisions and texts behind the user interface;
  - `topology`, `demo_images`: connected components and holes of binary
    images, and synthetic test images;
  - `models`, `search`, `text`: data types, search queries and text helpers.
- `tests/` — tests on concrete values.
- `app/` — a small command-line program around the library: file and archive
  access (ZIP, 7-Zip, RAR, PDF), thumbnail generation, the job registry clock and the JSON registry.

Verify with Verus on `src/lib.rs`; the tests run with `cargo test`.
