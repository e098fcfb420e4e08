# glimmer

Decorates i3 (or sway) windows when they get focused: a transparent GTK popup
is drawn over the focused window, styled by a user CSS file, and taken down
again two seconds after the last event for that window.

Layout:

- `src/` is the verified library:
  - `ipc.rs`: the window managers' reply types as the decorations read them,
    and the pre-order model of a layout tree;
  - `actors/i3_ipc.rs`: the searches of i3 and sway layout trees by container id, and the
    message built from a window event;
  - `actors/glimmer_manager.rs`: what a window event says in i3's terms, and
    the registry of one instance per window;
  - `actors/glimmer_instance.rs`: how an instance answers a window event
    (which request goes to GTK, which dismount is cancelled and re-armed);
  - `actors/glint_*.rs`: the older decoration actors' state;
  - `gtk_utils.rs`: the table of decorations kept by the GTK main loop.
- `app/` is the program around it: command line, GTK calls, the actix actors
  that carry the library's state, and the IPC subscriptions.
- `tests/` exercises the library on concrete values.
