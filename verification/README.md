# launcher

The decision logic of an Arma 3 dedicated-server launcher, verified with
Verus: reading its configuration from the environment, reading the
`key = value` lines of the server's config, building the command lines of
the server and its headless clients, choosing the workshop mods of a preset
to download, and patching a downloaded mod's metadata.

- `src/text.rs`: character-level text operations (trimming, splitting,
  replacing, numerals) stated over `Seq<char>`.
- `src/config.rs`: the configuration, its Creator DLC depots.
- `src/launch.rs`: the config reader and the launch command lines.
- `src/local_mods.rs`, `src/workshop.rs`: local and workshop mods.
- `app/`: the program around the library (environment, files, processes,
  Steam and HTTP), which is not verified.
- `tests/`: tests of the library, several of them against the `regex`
  crate on generated inputs.
