# gallerynet

The core of a self-hosted photo and video gallery server, written in Verus.

- `src/` is the verified library: password sessions and signed tokens, login
  rate limiting, paging and the SQL statements that list media, upload and
  download rules (allowed extensions, safe file names, zip splitting), EXIF
  date parsing, perceptual-hash bookkeeping, face and media grouping over a
  verified union-find, and tag-training rules. Calls into outside crates
  (hmac, sha2, hex, rand, image, image_hasher, base64, chrono, uuid,
  kamadak-exif, mime_guess) go through small trusted wrappers whose contracts
  are stated in their doc comments.
- `tests/` runs the library with the real outside crates linked.
- `app/` is the server around the library: HTTP handlers, SQLite storage,
  the ONNX models, ffmpeg and the background tasks.
