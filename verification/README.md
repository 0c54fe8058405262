# patch_hub

A terminal front end for patches on a Lore mailing-list archive: it runs a
`lei` query, lists the threads it returns latest first, opens a thread as
an indented tree, downloads a chosen message and applies it to a local
kernel tree with `git am`.

- `src/` is the verified library: every decision the screens make, as
  state machines over views with exact contracts, and the proofs of what
  holds across updates.
  - `action.rs`: the actions the components exchange.
  - `text.rs`: string order, trimming, line splitting, path joining.
  - `components/ktree.rs`: applying and aborting, and the notice.
  - `components/lei.rs`: fetching, and the three status panels.
  - `components/patchsets/`: building the thread list (`index.rs`),
    walking threads and deciding that walks end (`walk.rs`), the
    component itself (`mod.rs`) and its laws (`laws.rs`).
- `app/` is the program around it: command line, event loop, terminal
  drawing, and the processes (`lei`, `curl`, `git`) it runs.
- `tests/` exercise the library on concrete values.
