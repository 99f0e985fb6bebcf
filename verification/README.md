# gdsfx

A verified library for browsing Geometry Dash's sound-effect and music libraries, with a small
command-line front end.

- `src/` is the library, written in Verus and proved against its contracts: reading the
  library files (`sfx`, `music`, `records`, `text`), indexing and querying the sound-effect
  library, sorting and searching (`search`, `matching`, `music_filters`), sound-effect file names (`files`),
  favorites and settings bookkeeping (`favorites`, `settings`), content-server addresses
  (`cdn`), theme names and colours (`themes`), and small display helpers (`stats`,
  `progress`, `i18n`, `konami`).
- `app/` is the command-line program around it: file and network access, JSON files, and the
  choice of what to load.
- `tests/` runs the library on concrete inputs.
