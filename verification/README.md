# pdf-ocr

`pdf-ocr` turns a PDF into Markdown by rendering each page, sending it to an
OCR server with an OpenAI-compatible (or older `/ocr`) HTTP interface, and
assembling the answers into one document with YAML front matter and a table
of contents. Finished pages are cached by the SHA-256 of their image; an
interrupted run writes what it has to a `~partial` file.

The library in `src/` states and proves the behaviour of each part:

- `text` — blanks, trimming, line splitting and joining, decimal numerals.
- `markdown` — cleaning OCR output (code fences, grounding artefacts,
  run-together bullets, blank lines), slugs, YAML quoting, the table of
  contents, the front matter and the assembled document.
- `server` — the endpoint's URLs, the health-check steps, the request for a
  page, and the reading of an answer (status, JSON text, Markdown fields).
- `pdf` — document metadata and pages, page boxes, the `pdftoppm` call and
  its outcome, the rendered file and its PNG decoding, Base64 transport
  encodings.
- `pipeline` — the states of a page task, the collection of finished pages
  in page order, the end of a run and its partial output path, page hashes.
- `cache` — where the cache keeps each page and what a read means.
- `error`, `cli` — the errors with their messages, and the run options.

`app/` holds the program around it: argument parsing, file and process I/O,
PDF loading, image encoding, HTTP, concurrency and the progress display.
