# lscopy

A clipboard history that synchronises with other devices in the local network
and sends files to them. The rules of the program are a library that is verified
with Verus; the program around it does the input and output.

- `src/` holds the library. `text`, `numbers`, `url`, `strmap`, `ranking`, `json`,
  `imaging` and `hashing` are its foundations. `clips`, `store`, `watcher`, `dib`, `config`,
  `hotkey` and `panel` are the clipboard history. `http`, `lan`, `server`,
  `client`, `discovery`, `listing`, `pairing`, `sync` and `transfer` are the
  local network.
- `tests/` runs the library with the crates that it calls.
- `app/` holds the windows, the clipboard, the database, the files and the sockets.

What the library takes on trust stands in `text`, `json` and `imaging`: a few
functions of the standard library, of `serde_json`, of `image` and of `base64`,
each with what is claimed of it.
