# gitgpui_view

The view logic of a git client, verified with Verus: conflict resolution, diff layout and
navigation, word highlights, text selection, the history graph and its rows, the branch
sidebar, context menus, toasts, tooltips, and the caches that keep all of these in step with the
application state.

- `src/` is the library. Every function states what it returns or changes in `ensures`
  over spec functions and views, and Verus proves it; the public `law_*` proof functions
  state properties that span several functions.
- `tests/` runs the library on concrete values.
- `app/` holds what the library leaves to its caller: reading files, the environment,
  wall-clock time, hashing, and everything measured in floating-point pixels.

Some results come from the repository layer rather than from this library (the
side-by-side rows of a file diff, line-level conflict splits, history merges,
regex-assisted picks); the library takes them as arguments and states exactly what it
does with them.
