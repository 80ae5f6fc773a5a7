# sysng

A terminal system monitor. The library (`src/`) holds the verified core:

- `process`: a process of the snapshot and the filter that hides kernel threads;
- `ordering`: stable ordering of indices by a rank, largest first;
- `rows`: the process table in tree, flat and search layouts (the tree is
  walked through a map from each parent id to its children);
- `tree_laws`: what the tree layout guarantees when process ids are
  distinct (each process at most once, depth equals distance from the top,
  collapsing only affects what follows) and that the table then never has
  more rows than the snapshot has processes;
- `monitor`: the interactive state and its key and mouse transitions, with
  the law that the monitor only quits after a confirmed request;
- `metrics`: periodic work, the 45-second usage history and which history
  each graph tab shows;
- `view`, `layout`, `signals`, `text`: screen texts, popup placement (the
  cells that ratatui's percentage split gives), the signal menu and
  character-level helpers such as white-space trimming.

`app/main.rs` is the terminal program: it reads processes with `sysinfo`,
draws with `ratatui`, reads keys with `crossterm` and sends signals with `nix`.
