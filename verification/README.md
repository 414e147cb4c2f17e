# niri_switch

The decision logic of a window switcher overlay for the niri compositor,
written in Verus and proved against its contracts.

- `src/selection.rs`: moving a selection through a list with wrap-around, and
  the laws of those moves (inverse moves, `k` moves land on `k mod n`).
- `src/window_list.rs`: the overlay's list of windows with its selection, the
  confirmation that waits for the list to load, the shortcut presses that are
  replayed once it has loaded, and the rule that a showing confirms one window.
- `src/window_cache.rs`: the most-recently-used order of window ids, and the
  display order it gives to the reported windows.
- `src/windows.rs`: what the overlay reads of a window and of its application.
- `src/overlay.rs`: reactions to keys, modifier changes, client requests and
  loaded windows, each returning what the caller has to do.
- `app/`: the GTK 4 layer-shell overlay, the D-Bus service and the niri IPC
  calls around the library.
- `tests/`: tests of the library on concrete values.
