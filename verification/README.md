# zen_tab

The logic of `zen-tab`, a launcher that lists the open tabs of the Zen
browser, and saved targets, as desktop entries, verified with Verus.

- `src/` is the verified library: configuration rules (`config`), web
  addresses (`web_url`), digests (`digest`), paths (`paths`), the text of
  desktop entries (`entry`), which entries are wanted and what changes in the
  entries directory (`launcher`), favicons (`favicon`), JSON values
  (`json`), native messaging frames (`native`), the socket bridge between
  command line and host (`bridge`), the command line (`command`) and random
  names (`ids`).
  Calls into `url`, `sha2`, `base64`, `serde_json` and `uuid` stand behind a
  few trusted functions whose contracts name what those crates compute (the
  random UUID only by its shape).
- `app/` is the program around it: environment, files, processes, sockets,
  threads and the JSON shapes of the configuration file and the extension.
- `tests/` runs the library with the real crates linked.
