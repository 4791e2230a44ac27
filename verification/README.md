# lsal

The core of an `ls -al` style terminal file browser, verified with Verus.

- `src/` is the library: listings (`listing`, `format`, `calendar`, `order`),
  paths (`path`), the browser state and its operations (`app`), key bindings
  (`keys`), the text of the screen and the slide animations (`screen`), and
  properties that span several operations (`laws`).
- `app/` is the terminal program around it: it reads directories, copies,
  moves and removes files, runs a shell, reads keys and draws with ratatui.
- `tests/` runs the library on concrete values.
