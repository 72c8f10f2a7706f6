# breadpaper

Wallpaper setter for the bread desktop: `awww` sets the wallpaper, pywal
(`wal`) makes the palette, `bread-theme` reloads the themes, and the last
path per output is kept in `~/.config/breadpaper/current.json`.

The library (`src/`) is verified with Verus. It holds the logic:

- `text`, `path`: strings and Unix paths as character sequences, with the
  meaning `str` and `std::path` give them (trimming, lines, components,
  file name, stem, extension, join, order).
- `config`: the library directories (config file list, the
  `BREADPAPER_LIBRARY_DIRS` override, defaults, `~` expansion).
- `current`: the wallpaper saved per output, kept in key order.
- `image`: which files are wallpapers, and the check of a path being set.
- `library`, `sort`: the library scan as a step-by-step walk, and its
  ordering.
- `awww`: the output names in `awww query`'s output.
- `flow`, `setting`, `restore`, `command`: `set`, `set_on`, `apply_saved`
  and the handling of `bread.command.paper.*` as state machines that name
  each outside step (`Request`) and take what came of it (`Reply`).
- `saved`, `picker`: reading back a saved wallpaper; the picker's texts.

`app/` is the `breadpaper` program: command-line arguments, the files,
the outside programs, Hyprland, breadd and the GTK picker. It carries out
the requests of the library's state machines.

The tests under `tests/` run the library on concrete values.
