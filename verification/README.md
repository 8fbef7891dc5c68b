# cmk_helm

A terminal interface for browsing the Checkmk download server, picking a
version and an edition, and installing it with a site (`cmk-dev-install`,
`cmk-dev-site`, `omd`).

The logic is a Verus library, proved against its contracts:

- `src/text.rs`: character-level helpers on strings (splitting, trimming,
  words, decimal numbers) with their specifications.
- `src/api.rs`: versions and editions, the directory-listing grammar of the
  download server, grouping of versions by base version newest first, and
  the credentials file.
- `src/installer.rs`: the command lines of the install tools, what `omd`
  reports about installed versions and sites, the steps of an install job,
  and the cleaning of terminal output.
- `src/ui.rs`: the interface's state machine: keys, focus, panes, jobs, and
  the outside work each key asks for.
- `src/render.rs`: what the panes show, computed from the state.

`app/` is the program around it: the HTTP fetch, the subprocesses, the
event loop and the drawing. `tests/` runs the library on concrete values.
