# facial

The core of a desktop program for culling and curating photographs and videos, verified with Verus.

`src/` is the library. It decides; it does not touch files, windows or networks. Paths are texts
with an explicit style, the contents of a database are tables in memory with a list of changes, and
what the outside world says comes in as an argument.

- `api`, `cli`, `dispatch`, `intents`, `queue`, `media_commands`: commands, their flags, where they
  go, and the receipts that answer them.
- `media_db`, `color_labels`, `media_keys`, `media_inventory`: notes, tags, labels, favorites,
  settings, and the inventories of media roots.
- `media_io`, `media_io_runs`: who may use a disk or a share, and when; what holds over any run of
  calls.
- `media_explorer`, `media_input`, `gamepad`, `folder_picker`, `media_fs`: the rules of browsing, of
  keys and controllers, and of moving files.
- `media_clip`, `identity`, `landmarks`: tokens, stored embeddings, and the choices around neural
  networks.
- `lanes`, `config`, `debug`, `guard`, `replacing`: lanes and their claims, configuration, events,
  path checks, and the replacement of files.
- `text`, `number`, `order`, `paths`, `table`, `cancel`: what the rest is built from.
- `outside`: what is taken from other crates.

`app/` is ordinary Rust around it: the command line, the files of the protocol, the databases, the
window, and everything that computes with floating point.

`tests/` runs the library.
