# treeshark

A command-line hunter for the biggest files on a disk: it scans directory trees
in parallel, keeps what it finds in SQLite with a history of scans, and lets you
list, delete, stage and restore files.

The decisions of the tool live in a library verified with Verus (`src/`); the
command line, the file system, the database and the terminal live in `app/`.

## The library

| module    | what it holds |
|-----------|---------------|
| `size`    | size thresholds such as `"2.5GB"`: the text is trimmed and upper-cased, then its unit and number are read exactly, with saturation; laws on whole units and on ASCII letter case |
| `config`  | the configuration, its defaults, overrides, thread count and resolved scan paths |
| `paths`   | joining paths, scope prefixes (`/usr` never takes in `/usr2`), directory and name of a file, the root of a staging folder |
| `query`   | the SQL that ranks the biggest files in a scope and marks vanished files missing, with its bound values; a scope is an exact prefix of the path |
| `resume`  | the JSON path lists a scan records and the plan of a resumed scan |
| `scan`    | what the walk does with each entry, which files it keeps, when it reports progress |
| `status`  | file statuses, file rows and the database summary |
| `paint`   | text in colour through the `colored` crate |
| `format`  | thousands separators, byte sizes, colours by size, picker items, shortened paths, labels |
| `listing` | the scope, status filter and title of a listing |
| `tally`   | the counts of scan, delete, move, restore and purge runs, and the step after a rename |
| `mover`   | extension filters, staging destinations, `__<ext>__` folders and their order |
| `text`    | character-level helpers: trimming, decimal numbers, padding |

Calls into outside crates (`num_cpus`, `serde_json`, `bytesize`, `colored`) and the
few `std` functions (`String::push`, `str::to_lowercase`, `str::to_uppercase`, `Path::parent`) without a specification in `vstd` go through small trusted
wrappers whose contracts state what the crates' sources show.

## Layout

- `src/` the verified library
- `app/` the program around it (`clap`, `rusqlite`, `rayon`, `dialoguer`, `indicatif`, ...)
- `tests/` tests of the library on concrete values
