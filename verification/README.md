# symphony_model

The list models of a container-engine desktop client, verified with Verus.

- `src/index_map.rs` — the insertion-ordered map (`indexmap::IndexMap`) both
  lists are built on, seen as a sequence of key/value entries; the trusted
  wrappers of its methods and the laws of keyed entries.
- `src/image.rs`, `src/image_list.rs` — the image list: sizes and unused
  images, removal, and the refresh that reconciles the list with a listing of
  image ids and then puts inspected images in.
- `src/container.rs`, `src/container_list.rs` — containers, what the container
  list knows of each through its reference (its last state, or nothing once it
  is gone), and the list with its per-state counts.
- `src/info_panel.rs` — the rows shown for the engine's version report.
- `src/list_model.rs`, `src/text.rs` — change reports, property values and
  string comparison.
- `app/` — the GTK objects that hold these lists, emit their signals and drive
  the asynchronous engine calls.
