# maverick

The decision core of the Maverick window manager's X11 backend, written in Verus:
a scrolling, columnar tiling window manager with floating windows, overlays
(fullscreen and maximized windows), docks, a status bar and a compositor.

`src/` is the verified library. It holds no connection and does no I/O: it is
handed what the server said (property words, geometry, key codes, events) and
returns what to do about it. Every function states exactly what it returns and how
the state changes, over the mathematical views of the state; what holds of several
operations together is stated in public proof functions beside them.

* `geom`, `seqs`, `text`, `xproto`: rectangles, lists of windows, texts, and the
  numbers of the X protocol.
* `model`, `workspace`, `state`: clients, columns and workspaces, monitors.
* `props`, `manage`, `lifecycle`: from a window's properties to a managed client,
  and out again.
* `focus`, `pointer`, `drag`, `events`, `keyboard`, `dispatch`, `actions`: input,
  focus and what the server reports.
* `overlay`, `transient`, `fullscreen`, `floats`, `arrange`, `reconciler`: what
  is shown, where, and in what order.
* `monitors`, `docks`, `ewmh`, `atoms`, `config`, `bar`, `dialog`, `runloop`:
  hotplugging, reserved edges, what the desktop publishes, the baseline
  configuration, the bar, the quit dialog and the main loop's decisions.
* `compositor`, `stacking`, `damage`, `scene`, `present`, `framesched`: tracked
  windows, the stacking order, damage, what a frame draws, and when.

`app/` talks to the X server. It leaves the layout's springs, the GPU and the
control socket to the program that embeds it, as traits.

`tests/` runs the library on concrete values.
