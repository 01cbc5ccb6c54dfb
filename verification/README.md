# fastpaste

A snippet and clipboard manager whose rules are proved with Verus.

`src/` is the library. Verus checks all of it. Its functions state what they do in contracts, but
for methods of traits that backends outside implement:

- `item`, `table`, `database`, `tree_laws`: the stored items, the operations on them, and what
  every operation keeps (ids stay distinct, the items stay a tree).
- `crypto`, `opening`, `context`: the steps that open, convert and start, and what may follow what.
- `clipboard`, `clipboard_history`, `devices`, `paste_keys`, `uinput`, `paster`: which clipboard
  changes count as copies, what is remembered of them, and the paste sequence.
- `x11`, `grabs`, `grab_laws`, `reader`, `replay`, `windows_hotkey`, `key_names`, `hotkey`, `take_once`:
  global hotkeys on both systems.
- `settings`, `options`, `i18n`, `secret_store`: settings, the options dialog, languages, secrets.
- `tree_builder`, `tree_view`, `tree_view_laws`, `tree_closing_laws`, `editor`, `paste_dialog`,
  `main_window`, `ui_state`: what the windows show and do.
- `text`, `ordering`: texts and sorted lists.

`app/` is the program around it: files, devices, threads, the display connection and a console.

What Verus is told without proof is marked `external_body`, `assume_specification` or
`external_type_specification`, with a comment on what is claimed.
