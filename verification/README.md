# pictrim

The rules of a batch image and PDF processor, verified with Verus.

- `src/` is the verified library: path handling, the classification of files into work items
  and their output paths, settings validation and migration, the preview listings, the batch
  totals and progress reports, and the rules for images embedded in PDF documents (acceptance,
  memory limits, sample unpacking, palette expansion, mask bookkeeping, extracted file names).
  Public proof functions state the properties that hold across calls, such as the idempotence of
  settings migration, the recognition of temporary outputs and the tiling of preview pages.
- `tests/` runs the library on concrete inputs.
- `app/` is the desktop application around it: Tauri commands, file system probes, libvips and
  QPDF calls, and the threaded batch runner.
