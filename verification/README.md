# pyro

The logic of an OS-image flasher, verified with Verus: block-map parsing,
write and readback bookkeeping (syncing, direct-I/O alignment, block-map
skipping, checksums), compression detection, drive listings parsed from
`lsblk` and `diskutil` output, boot-partition discovery and mounting as a
state machine, filesystem-creation commands, elevation scripts, the
boot-file editor's path guard and listing order, recent-URL history and the
naming and inspection of source images.

Layout:

- `src/` — the verified library. Each module states its behaviour in
  `requires`/`ensures` over spec functions; the few calls into outside
  crates (`sha2`, `base64`, `std::path`, Unicode case mapping) stand behind
  small trusted wrappers whose doc comments say what they claim.
- `tests/` — tests that run the library on concrete values.
- `app/` — the unverified program around it: the privileged helper's
  device I/O, decompression and process spawning, run from its `main`, and
  the desktop commands as plain functions. The window framework (tauri)
  that would register those commands is not a dependency, so nothing here
  calls them. `app/` performs the I/O and hands the library plain values.
