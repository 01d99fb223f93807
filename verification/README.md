# cosmic-world-clock

A world clock panel applet for the COSMIC desktop. On a horizontal panel it
shows the world clock locations of GNOME Clocks, each city with its current
time (`Tokyo 18:43`), ordered by UTC offset; the list is read again once a
minute. On a vertical panel it shows the local time, split into its parts.

- `src/` is the library, verified with Verus:
  - `text`: the `split` semantics of strings as spec functions, and searches
    over windows of characters;
  - `world_clocks`: reading the `world-clocks` setting of GNOME Clocks, the
    stable ordering of the clocks by the current UTC offset of each clock's
    own time zone, and the clock labels;
  - `zones`: time zones, offsets and readings of the clock from `jiff`, each
    carrying the zone or name it stands for;
  - `applet`: the applet's clock state and messages (the state keeps the
    time zone it was told of, with the name it was found under), the tick
    timer, the layout numbers, and the time formatted by ICU4X and split
    into its parts;
  - `locale`: choosing the locale from `LC_TIME`, `LC_ALL` and `LANG`.
- `app/` is the applet around it: running `gsettings`, turning coordinates
  into time zones with `tzf-rs`, reading the environment, D-Bus and drawing
  with libcosmic.
- `tests/` runs the library against the real outside crates.
