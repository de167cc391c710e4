# rnote_recognition

The verified core of handwriting recognition and document search for a
note-taking canvas, written in Verus.

- `src/` is the library, verified by Verus:
  - `text` — case-insensitive matching (Unicode lowercasing, blank queries,
    substring search);
  - `text_line`, `page`, `search` — recognized lines, per-page lookups by text
    and position, and the document-wide search over typed and handwritten text;
  - `recognition` — reuse of lines recognized before (by the set of their
    strokes), greedy decoding of the recognizer's best path, and the
    bookkeeping of a recognition pass;
  - `raster` — Bresenham rasterisation of stroke segments into the
    recognizer's three input planes;
  - `search_panel` — what the search panel shows for a query;
  - `laws` — properties that span several functions;
  - `geometry` — the boxes and points of the geometry crate, carried as
    opaque values.
- `app/` holds what the library cannot: floating-point geometry (line
  segmentation, deskewing, tensor scaling), the ONNX model runtime, the
  debounced background task, serialisation and the GTK user interface.
- `tests/` exercises the library on concrete values.
