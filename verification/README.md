# simdnbt

A reader and writer for NBT (Named Binary Tag), the big-endian tree format
used by Minecraft, with its behaviour stated and proved with Verus.

NBT data can be read three ways:

- `owned`: into an owned tree (`Nbt`, `CompoundTag`, `ListTag`, `Tag`) that
  can be changed and written back;
- `borrow`: into a tape that points into the original bytes, viewed through
  `NbtTag`, `NbtCompound` and `NbtList`;
- `validate`: only checking that the data is well-formed, with an explicit
  stack instead of recursion.

All three are specified against one model of the format (`model`): spec
functions that say how bytes parse into tags and how tags are written. The
owned reader counts nesting depth its own way, so `owned::format` states its
parse on top of the shared one. Each reader returns exactly what its model
parses, or the model's error; each writer produces exactly the model's bytes.
`roundtrip`, `owned::roundtrip` and `reparse` prove that writing a tag and
reading it back gives the same tag, and that anything that was read can be
written and read again unchanged.

Layout:

- `src/`: the verified library.
- `tests/`: tests run against the compiled library.
- `app/`: the unverified rim: reading from `std::io::Cursor`, floating-point
  accessors, serde support and `std::error::Error` for the errors.
