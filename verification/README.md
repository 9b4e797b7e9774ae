# receipt_annotator

A service for dating scanned receipts. Images are uploaded, an OCR model
is asked for the date on each one, users correct or reject the dates, and
the images can be listed by date or exported under their dates.

- `src/` is the verified library (Verus):
  - `text` — character helpers: case folding, lexicographic order, decimal
    rendering and parsing, trimming.
  - `paths` — file names, extensions, MIME types, where uploads are stored,
    which directory entries are receipt images.
  - `annotations` — the per-image records and every change to them
    (sync with the upload directory, OCR results, corrections, deletion,
    progress, export names), with the laws that relate these operations.
  - `dates` — reading a date out of OCR text, grouping images by date in
    calendar order.
  - `job` — the OCR batch job and the worker state machine that drives it.
  - `ocr` — the request sent to the OCR service and reading its reply.
  - `upload` — checking upload requests and choosing which files to keep.
- `app/` is the HTTP server (axum, tokio, reqwest, serde): it does the
  file, network and clock work and hands plain values to the library.
- `tests/` exercises the library on concrete values.
