# dm_vm

The core of a deterministic virtual machine for Dream Maker programs, written in
Verus. What the machine does to its heap, its frames, its map, its clients and
its scheduler is stated in contracts and proved; `app/` is the ordinary Rust
around it.

## Layout

- `src/` is the library.
  - Values and storage: `value`, `number`, `text`, `symbols`, `table`, `maps`,
    `arena`, `list`, `heap`, `inline`.
  - Types: `catalog`, `intervals`, `types`, `typelists`.
  - Programs and frames: `program`, `fault`, `frame`, `activation`, `arguments`,
    `soundness`.
  - Instructions: `reading`, `literals`, `operands`, `storing`, `updating`,
    `members`, `globals`, `iteration`, `bitwise`, `builtins`, `natives`,
    `making`, `filters`, `mirrors`, `signals`, `savefiles`, `calling`,
    `dispatching`, `routing`, `logins`, `constructing`, `unwinding`, gathered in `dispatch`.
  - Running: `interpreter` takes one step, `running` takes many, `slicing` says
    what cutting a run into slices leaves as it is, `quickening` counts field
    reads, `scheduling`, `tasks` and `delays` decide which continuation runs when.
  - Collection: `marks`, `collector`, `roots`, `root_sets`, `retention`,
    `heap_gc`.
  - The map: `coordinates`, `world_index`, `world`, `geometry`, `resizing`,
    `preparing`, `visibility`.
  - Clients: `clients`, `guests`, `skins`, `commands`, `verbs`, `inventory`,
    `prompts`, `answers`, `pointers`, `appearance`, `snapshot`.
  - Host services: `services`, `jobs`, `sidecar`, `metrics`, `messages`.
- `app/` runs the clock, the files, the worker thread and the built-in
  procedures of the engine.
- `tests/` runs the library on concrete values.

## What is trusted

`inline` keeps small vectors of the `smallvec` crate behind functions whose
contracts restate what that crate documents, and `text` makes a `String` from
its characters. Everything else is proved.
