# vaultwyr

Vaultwyr encrypts a file or a whole folder into one vault file with a
password, and restores it. Every file is cut into chunks that are encrypted
with AES-256-GCM under a key made from the password; the vault holds a main
header (the vault's path, the algorithm and an encrypted validation block
that tells a right password from a wrong one), then a header per file (its
path and the SHA-256 digest of its contents) followed by its chunks.

## Layout

- `src/` is the verified library (Verus):
  - `encryption_utils` — keys from passwords, AES-256-GCM chunks;
  - `file_traversal` — file hashes;
  - `parser` — reading a vault: records, the linker that groups chunks
    under their file headers, opening a vault;
  - `crypto_files` — writing a vault, decrypting it, and what is deleted
    afterwards;
  - `vault_roundtrip` — the proofs that a written vault reads back and that
    encrypting then decrypting gives the files back;
  - `encryption_options` — a file locked on its own;
  - `simple_vault` — a vault layout without a validation block;
  - `behaviour` — what to do on errors;
  - `dialog_lib` — dialog windows as state machines;
  - `application_settings`, `commands`, `text`, `paths`.
- `tests/` runs the library on concrete values.
- `app/` is the application around it: files and folders on disk, stored
  settings, the eframe windows and the tauri commands.
