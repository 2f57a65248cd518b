# disk_cleaner

The logic of a disk cleaner for macOS, written in Verus: what is scanned, what can be
cleaned, how it is deleted, and how cold files are archived. Everything that touches
the file system, Docker, the network or the terminal stays in the program around the
library; it hands in what it found and is told what to do.

## The library (`src/`)

- `text`, `path`, `time`, `order`: texts, paths compared by their components, points in
  time and dates, and sorting by weight.
- `target`: the groups, the target IDs and the cache locations.
- `config`: the saved configuration and the commands on its excluded paths.
- `scan`: what counts when a directory is walked through, and what a scan comes to.
- `docker`: where Docker is reached and what its commands print.
- `clean`, `select`, `cleanup`: what can be cleaned, what of it is selected, and the
  course of a run.
- `delete`, `delete_laws`: deleting step by step, and what every deletion keeps to.
- `scan_laws`: a scan foretells what a deletion frees.
- `report`, `table`: what went wrong, and the tables that are shown.
- `archive`, `archive_run`, `remote`: policies, keys, the archiving of one file step by
  step, and the requests to the object storage.
- `outside`: the calls into other crates that are taken on trust.

Public proof functions whose names start with `law_` state what holds of the library as
a whole: excluded paths are never touched, a category that must be kept is never
cleaned, a file is removed from disk only after its archived object was verified.

## The program (`app/`)

`app/main.rs` parses the command line, walks directories, runs Docker and the AWS CLI,
and carries out the actions that the library asks for.
