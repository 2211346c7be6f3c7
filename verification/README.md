# sfont_manager

A terminal browser for a library of sound-font folders (every folder that
holds a `config.ini`): select fonts, order them into a profile, save and load
profiles as TOML, compare two profiles, and export a profile as numbered
folders (`1-NAME`, `2-NAME`, …).

- `src/` is the verified library, checked by Verus:
  - `text.rs`: characters of strings, code-point order, decimal digits, trimming;
  - `sorting.rs`: stable sorting by character keys and sorted listings;
  - `paths.rs`: file-system paths, carried through the library unchanged;
  - `library.rs`: the font listing, human-readable sizes, the export plan;
  - `profile.rs`: profiles, their totals against the library, comparisons;
  - `app.rs`: the browser state and its abstract view, with one spec
    function per operation;
  - `actions.rs`: key handling as a state machine that returns the file work
    to do, and the methods that take the outcome of that work;
  - `display.rs`: texts the screens show;
  - `laws.rs`: properties of the operations taken together.
- `app/` is the program around it: the terminal, the event loop, walking
  directories, reading and writing files.
- `tests/` runs the library on concrete values.
