# porch_camera

A camera that watches a porch. Frames are captured by a schedule, kept where
they differ enough from the frame kept before, stored as files with what is
known of them, labeled, and served page by page over HTTP.

- `src/` holds the decisions, verified with Verus: how frames are named, listed,
  stored, labeled and shown, which of them are kept, which stream format is
  used, and what the camera task and a capture do next.
- `app/` is the program around it: the camera (libuvc, OpenCV), the models
  (ONNX Runtime), files, the web server and the command line.
- `tests/` runs the library on concrete values.

What is claimed of other crates, and not proved, stands in the items marked
`external_body`: `chrono` writes an instant in a format, `hamming` counts the
bits in which two hashes differ, `cron` reads a schedule, and the standard
library replaces the extension of a path.
