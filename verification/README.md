# nuke

Quit every running macOS app from the command line, or from a menu bar item,
leaving alone Finder, the terminal it was started from, and the apps named in
`~/.config/quitall/config.toml`.

- `src/` is the verified library (Verus):
  - `text.rs`: character-level helpers (ASCII case folding, Unicode
    whitespace trimming, decimal numbers, padding, lexicographic order);
  - `apps.rs`: the apps as plain values, name cleaning, matching, the stable
    sort by name, the walk up the parent-process chain;
  - `plan.rs`: which apps a run quits, with the laws that protect this
    process, its ancestors, Finder and the keep list;
  - `config.rs`: the settings, keep keys, and rewriting one key of the
    config file's text through `toml_edit`;
  - `menu.rs`: the menu bar app's state: ticking apps, rebuilding the menu;
  - `cli.rs`: the command-line run's decisions and messages.
- `app/` is the program around it: flags (clap), the config file on disk
  (serde, toml), AppKit (objc2) and the kernel (libc). It builds on macOS.
- `tests/` runs the library on concrete values.
