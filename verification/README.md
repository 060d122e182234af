# forkme

A tool for keeping a fork of a large project as a set of patches, one
record per changed file, stored under `patches/` by the file's path:

- `patches/<file>.patch`: a unified diff from the upstream text to the fork's;
- `patches/<file>`: a copy of a binary file;
- `patches/<file>.deleted`: a marker for a file the fork removes.

## Layout

- `src/` is the library, written in Verus and verified: where each record
  lives and how its path leads back to its file, what a sync records for
  each changed file, what applying a record makes of a file, the
  statistics over the store, the order in which emptied directories are
  removed, and the small text formats of the project. The unified diffs
  themselves are made and applied by the `diffy` crate, behind a few
  functions whose contracts are trusted.
- `app/` is the command-line program around it: argument parsing (`clap`),
  the configuration file (`serde`, `toml`), the repository (`git2`) and the
  file system (`walkdir`, `std::fs`).
- `tests/` runs the library on concrete values, together with a real
  repository built with `git2`.

## Commands

```
forkme init --url <upstream> [--branch main] [--depth N]
forkme sync      # record the checkout's changes as patches
forkme apply     # reset the checkout to upstream and apply the patches
forkme update    # fetch upstream and rebase the fork's branch
forkme status
forkme stats
```
