# camembert

A disk usage analyzer for the terminal. This crate holds its logic as a verified
library: what the browser shows, what its keys and clicks do, what a deletion is
told to free, and what the command line prints. Every function carries a contract,
and Verus proves it. The exceptions are the calls into other crates and into the
standard library (`read_toml`, `split`, `display_width`, `quote`, `lossy`,
`from_utf8`, `String::push`, `char::from_u32`): their contracts are believed, and
say above each what is claimed.

## Layout

- `src/` is the library.
  - `text`, `order`, `paths`, `double`, `size`, `fmt`: texts, orders, paths and
    exact arithmetic on rounded numbers.
  - `model`, `state`, `keymap`, `palette`, `session`, `mouse`, `cockpit`: the
    browser's state and what each event does to it.
  - `caps`, `theme`, `config`, `osc11`, `luminance`, `anim`, `toast`: how the
    screen looks and what decides it.
  - `lines`, `layout`, `gauge`, `panels`, `table_view`, `wheel`, `wheel_view`,
    `modals`, `overlays`, `flatview`, `filterview`, `freeable_panel`: what is
    drawn, cell by cell and line by line.
  - `nlink_rt`, `holders_rt`, `floor_rt`, `oracle`, `oracle_job`, `oracle_rt`,
    `recycle_rt`: questions to the system that are answered in the background.
  - `history`, `clipboard`, `reveal_in`, `report`: the history file, terminal
    sequences, the file manager and the reports of the command line.
- `app/` is the program around it: the command line, files, the terminal, threads,
  floating-point easing and the scanning engine.
- `tests/` runs the library.

Proof functions named `law_..` state what holds across several functions.
