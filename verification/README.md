# Land Survey

Survey points, surfaces, coordinate geometry and transformations for a CAD host,
and the same on the command line. The library under `src/` is verified with Verus;
`app/` is the ordinary Rust around it.

## The library

| Module | What it holds |
|--------|---------------|
| `text`, `lists`, `number` | Characters, words and pieces of texts; lists without repetitions; which texts a finite double can be read from |
| `pnezd`, `point_laws` | Point files: columns, delimiters, decimal commas; what holds of every file |
| `console`, `dispatch`, `requests`, `command_laws` | The `LS_` commands: which one a line calls and what it asks for |
| `layers`, `records`, `entities` | Layer names, the records on entities, and the entities of a drawing |
| `import`, `plan` | What an import of points or of a plan draws and says |
| `surfaces`, `surface_laws` | Surfaces as meshes and edges, and how they are found again by name |
| `drawing`, `reports`, `adjust` | What the commands draw and report |
| `cli`, `plans`, `results` | The command-line program: its arguments, what each subcommand is asked, what it prints |

Coordinates are decimal texts in the library. A point in a drawing is an opaque
value of `acadrust`, which the library carries but does not compute with.

## Around it

`app/` reads and writes files, talks to the host, and computes in floating point
through an engine. A host, a session and an engine are given as traits.
