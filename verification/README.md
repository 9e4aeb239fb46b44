# speedscope_tui

A terminal viewer for speedscope profiles (as written by `py-spy`), with its
logic verified by Verus.

- `src/speedscope.rs`: the file format and the profiles built from it;
  resolving samples into stacks, filtering frames by source file, and the
  name-to-profile map of a file.
- `src/scrollbar.rs`: the scrollbar state.
- `src/app.rs`: the view state, its well-formedness, the moves between stacks
  and frames, and the viewer's answer to an event.
- `src/control.rs`: input events and the action each one calls for.
- `src/ui.rs`: the text drawn on screen, as lines of coloured pieces.
- `app/`: the program around the library: command line, terminal, reading and
  parsing the JSON file, reading source files, drawing with ratatui.
