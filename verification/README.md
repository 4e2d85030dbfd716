# scan_engine

The core of a duplicate-photo finder, written in Verus and proved against
its contracts.

A scan walks a folder, decides which files to fingerprint (pairing camera
RAW files with the JPEG or TIFF next to them), and groups the photos that
are duplicates of each other: equal content, visually similar images, and
bursts of shots from one camera a few seconds apart. The user then keeps
some photos of each group and moves the rest to the trash.

Layout:

- `src/` — the verified library: scan planning and RAW pairing (`raw`,
  `plan_laws`), clustering (`cluster`, `unionfind`, `unionfind_laws`, `connectivity`,
  `cluster_laws`, `cluster_shape`, `cluster_disjoint`), fingerprints, metadata
  and thumbnail sizes (`hash`, `imaging`, `thumbnail`, `exif`), path rules (`paths`), sessions, configuration,
  the scan loop's decisions (`scan`), the trash step (`review`) and the
  stored forms of states and times (`types`, `schema`, `timestamps`).
- `app/` — ordinary Rust around it: the SQLite index, reading files from
  disk, decoding images (a panic in a decoder becomes an error), the
  threaded scan loop and the operations a user
  interface calls.
- `tests/` — tests of the library on concrete values.
