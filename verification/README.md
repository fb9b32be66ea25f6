# cargo_killer

Finds Cargo and npm projects in a directory tree and measures their build and
cache directories (`target`, `node_modules`, framework caches, and `.git` when
asked for).

- `src/` is the verified library: which kinds of project a directory is, its
  candidate and existing target directories, which subdirectories the scan
  continues into, and the size and newest modification time of the targets,
  computed from a tree that describes what was read on disk.
- `app/` walks the file system with worker threads, reads each directory and
  each target into the library's types, and collects the results.
- `tests/` runs the library on concrete directory snapshots and trees.
