# aube

The planning and decision logic of a package installer, verified with Verus.

- `src/hoisted` plans a hoisted `node_modules`: where each copy of a package goes, which version
  gets the root's slot, and what is done for each node of the plan.
- `src/state` records an install and decides whether another one is needed. The check asks for one
  fact about the disk at a time, so nothing is read that sizes and times already settle. What is
  recorded of a file is its size and time from before its contents were read.
- `src/install` holds the stages of an install and which of them a run goes through, the choice of
  packages that are linked, and the bookkeeping of a fetch that runs beside resolution.
- `src/fetch` keeps track of metadata fetches and decides how each is answered.
- `src/lockfile_policy.rs` holds locked packages to a minimum age.
- `src/libc.rs` tells which C library a Linux host runs.

The remaining modules are the containers and texts that these are stated over. Paths are Unix
paths of Unicode text, held by their components. `app/` performs the file access, the tasks and the network requests around the library.
