# pfm

The core of a private file manager that keeps files as chunks inside a few
large store files and catalogues them in SQLite, written in Verus with its
behaviour stated in contracts and proved.

- `src/` is the verified library: the folder tree (lookups, listings, the
  path from the root, move checks that keep the tree free of cycles), the
  registry of known databases, storage planning (chunk sizes, the chunk
  cursor, the catalogue record of an import, reuse of free space, derived
  file names), SQL text (name checks, search patterns, store-file names,
  SQL literals for exports), integrity reports, host directory listings,
  human-readable sizes, image thumbnails (through the `image` crate), and
  the choices of the repair tool.
- `tests/` runs the library on concrete values.
- `app/` is the program around it: the SQLite catalogue, reading and writing
  store files, video thumbnails, the registry file, the desktop commands and the
  interactive repair tool.
