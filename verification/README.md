# GIFSennin

A desktop editor for GIF and animated WebP with frame-level editing
(delete, reorder, reverse, durations, crop, resize, rotate, flip, loop
setting, snapshot undo/redo) and export to GIF, animated WebP or a zip of
PNG frames.

## Layout

| Path            | What it holds                                                                 |
| --------------- | ----------------------------------------------------------------------------- |
| `src/model`     | The document model, every edit, undo/redo, playback and the `Action` → state + `Effect` transition, with contracts and laws proved by Verus |
| `src/codec`     | GIF / WebP / still-image decoding and GIF / PNG-zip encoding, plus the checks and timing of WebP export; outside codecs are called through trusted wrappers |
| `src/render`    | What the views decide without drawing: crop-draft geometry, frame-list moves and drops, thumbnail LRU, export-estimate debounce, the resize aspect lock, labels and tooltips |
| `src/text.rs`   | Decimal formatting used in messages and file names, and `{name}` placeholder filling |
| `app/`          | The egui program: window, panels, worker threads, file dialogs, file I/O, fonts, translation lookup, the WebP animation decoder call (it may not return on a corrupt frame), and the floating-point parts (WebP encoder quality, pointer mapping, byte-size display) |
| `tests/`        | Concrete cases of the contracts and round trips through the real codecs       |
