# wallctl

`wallctl` is a macOS wallpaper profile controller: it captures the current
wallpaper property list as a reusable profile, groups profiles into collections
(static, dynamic, or scheduled by hour), and applies or activates them.

## Layout

- `src/` — the library, verified with Verus. It holds the decisions and the data
  handling: slugs and profile names, schedules and the slot in effect, the
  property-list tree and its dictionary rules, profile analysis, fingerprints and
  the merge of a profile into the live wallpaper, asset references and their
  rewriting, the LaunchAgent property list, live-wallpaper settings, the preview
  catalog with Apple's Aerial manifest and wallpaper-extension manifests read from
  JSON, the collection listing and inspection, the plan of an apply, and the text of
  the interactive menu. Calls into
  `plist`, `serde_json`, `base64`, `sha2`, `anyhow` and `chrono` go through
  small trusted wrappers whose contracts name what the outside crate computes.
- `tests/` — tests of the library on concrete values.
- `app/` — the program around the library: command-line parsing (`clap`),
  prompts (`inquire`), files (`toml`, JSON output, property-list files),
  `launchctl`, `killall` and the Swift helper that writes HEIC files.

The laws the library proves stand in `src/` as `law_*` proof functions, for
example `config::law_slug_fixed_point`, `schedule::law_one_slot_in_effect`,
`activation::law_activation_loads_every_slot`,
`live::law_assignment_is_read_back`, `live::law_imported_video_is_managed` and
`profile_laws::law_timestamp_values_do_not_count`.
