# filebrowser

The file browser of [Sicompass](https://github.com/friendlyflow/sicompass): the
disk as a list of lists.

- `src/` is the library, written in Verus. It decides: what a folder shows and
  in which order, how a line reads, what an edit or a command asks for, what a
  delete records so that it can be undone, and how a search and a copy go
  through folders. Every function has a contract, and the laws that span several
  functions are proof functions beside them.
- `app/` is the plugin around it, in ordinary Rust. It reads the disk, asks the
  host, and does what the library decided.
- `tests/` runs the library on concrete values.

What the library takes on trust is marked in the doc comments of the functions
that call other crates: the natural order of names (`natord`), the markup of
lines and the snapshots of deleted items (`sicompass-sdk`), the blob of a record
(`sicompass-pdk`) and `base64`.
