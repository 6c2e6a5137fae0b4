# duifene

A watch on the courses of a class platform: it finds check-ins as they are opened and makes
them, by code, by scan or by place.

- `src/` is the library, verified with Verus. It decides and never waits, sends or reads the
  clock: the engine's rounds (`engine`, `round`, `laws`, `reports`), which rows of a list are open
  (`filter`, `clock`), what is asked of the service and what its answers mean (`requests`,
  `transport`, `cookies`, `html`, `replies`, `courses`, `live`, `triangulation`), the settings
  (`storage`, `json`), the command line (`cli`), and what the window shows (`monitor`, `stats`).
- `tests/` runs the library.
- `app/` is the two programs around it. `app/main.rs` is the command line `dfe`;
  `app/window/main.rs` is the monitor window, which also needs the window toolkit `gpui_kit`,
  the crate `image`, and the picture `assets/pen.svg`. Both send the requests, sleep, read and
  write the settings file, and compute with coordinates as floating-point numbers.

The engine talks to the service through the trait `api::Client`. Nothing is presumed of the
answers; that every question goes on record is what the contracts rest on. `round::round` says what
one round does with whatever answers come, and `laws` and `reports` what follows from it, in one
round and over many.
