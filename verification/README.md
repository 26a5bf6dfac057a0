# stmo-cli

A command-line tool that keeps Redash queries under version control: it
fetches queries into `queries/{id}-{slug}.sql` and `queries/{id}-{slug}.yaml`,
deploys local changes back (the changed ones according to `git status`, or all
of them), lists the caller's queries, scaffolds a repository for them, and
checks for newer releases of itself.

## Layout

- `src/` is the library, verified with Verus. It holds every decision the
  tool takes: the slug and file names of a query and how ids are read back
  from file names and from `git status --porcelain` output, which queries a
  deploy or a fetch selects and in which order, the checks on metadata files,
  what is done with each visualization (a new query takes over the
  visualizations Redash made for it), the metadata written back after a
  deploy with its visualizations in order of id, the URLs of the Redash API, when paging and
  polling stop, the scaffold plan of `init` (which items it creates when some
  are already there) and its messages, and the update
  check. Contracts state each function's result exactly; proof functions
  state the properties that span functions, such as that the id written into
  a file name is the id read back from it.
- `app/` is the program around it: argument parsing, HTTP, files, processes,
  prompts, and the `serde` forms of the records.
- `tests/` runs the library on concrete values.
