# pdf_editor_backend

The verified core of a backend that uploads, edits and downloads PDF files.

- `src/` is the library, verified with Verus:
  - `text`: UTF-16BE encoding of text shown with `Identity-H` fonts;
  - `cmap`: the ToUnicode CMap of the overlay fonts;
  - `truetype`: CIDToGIDMap streams and glyph advances read with `ttf-parser`;
  - `pdf`: a model of `lopdf` documents and the `lopdf` operations used;
  - `font`, `font_info`, `font_laws`: the page's font resources and the
    embedded Type0 fonts, with what they leave in the document;
  - `renderer`: the font and bytes of a text draw;
  - `storage`: object names, storage URLs, answers of the storage service,
    the choice of storage, upload checks and the clean-up of old files;
  - `strings`, `order`, `error`: helpers and the error type.
- `app/` is the HTTP server (axum, tokio, reqwest, pdfium): routes, file and
  network I/O, reading font files, and the floating-point parts (glyph width
  scaling and text positioning).
- `tests/` exercises the library on concrete inputs.
