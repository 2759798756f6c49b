# gol_core

A generic cellular-automaton engine (Conway's Game of Life and its
relatives) whose logic is verified with Verus.

## Layout

- `src/` — the verified library:
  - `index`, `grid_util`, `space`: grid points in one to N dimensions, grid
    sizes centred on the origin, the cells of a grid;
  - `neighbors`: neighbourhood rules (Moore, wrapped Moore, triangles, a
    box of any margin, a wrapped box);
  - `state`, `strategy`: cell states and evolution rules (binary life-like
    rules, Conway's rule, rules with decay);
  - `board_states`, `board`: sparse state storage and the board that
    advances one generation at a time;
  - `callback`, `control`, `replay`, `config`, `predefined`: keeping the
    latest generation, keyboard decisions, replaying a recording, the
    neighbour counts of a configuration, and starting patterns;
  - `interval`: time spans of seconds and nanoseconds, doubled and halved
    as the keyboard speeds a run up or slows it down;
  - `persistence`: batching and framing recorded generations, the names of
    batch files, finding an item in its batch, and a cache that loads
    batches ahead of the requests it predicts.
- `tests/` — tests of the library.
- `app/` — the command line program: reading configurations, running and
  recording boards, replaying recordings, and the keyboard.
