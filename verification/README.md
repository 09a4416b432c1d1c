# tui90

A hand-made text UI in the style of the CA-Clipper screens of the nineties:
solid blocks, hard shadows, hotkey labels, a save/restore screen stack, and
one-call controls (menus, lists, dialogs, forms, tables, calendar, charts).

Layout:

* `src/` is the library, verified with Verus. Every drawing function states
  the grid it leaves as a spec function over the grid it was given; every
  key handler states its result and the new state; the laws (round trips,
  invariants kept, what stays inside what) are public proof functions next
  to the code they speak of.
  * `engine`: cells, colours, rectangles, the buffer and its diff, the
    screen with its stack of photos, themes, the backend trait.
  * `prim`: labels with hotkeys, buttons, windows, shadows, bars, icons,
    the braille canvas.
  * `widgets`: the controls and their pure key handling.
  * `app`: events, focus stack, desktop layout, function-key bar, `App`.
  * `text`: character widths and the text helpers the rest builds on.
* `app/` is the terminal side: the crossterm backend and key mapping, the
  directory reads of the file dialog, and the floating-point parts of the
  charts and shading.
* `tests/` exercises the library on concrete values.
