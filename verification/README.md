# herdr Mission Control

On a shortcut, a full-screen popup shows every pane of the current herdr
workspace as a tile (preview and agent status), grouped by tab; selecting a
tile switches the focus to that pane.

The logic is a Verus library under `src/`:

- `ansi`: the SGR parser for pane previews, specified as a state machine over
  characters (other escape sequences are dropped whole); `ansi_laws` proves
  that it keeps every visible character and never makes an empty span,
  `ansi_style_laws` and `ansi_fold_laws` that each character's style is the
  left fold of the SGR sequences before it, and `sgr_laws` that codes compose
  left to right, that `38`/`48` take their color arguments, and that a last
  0 resets whenever it is not a color argument.
- `layout`: the grid plan (shrink to fit, 60x15 floor, then scroll), the
  persistent scroll offset and the canvas rows the viewport shows;
  `layout_laws` proves that the plan fills the screen when it does not
  scroll, respects the floor, stacks rows without gaps, deals every tile to
  one row and keeps the selection in view.
- `scene`: what to draw where for the rows in view; `scene_laws` proves that
  a tile's jump number is the key that selects it, and that its title shows
  that number exactly when it is a digit key.
- `app`: sections, tiles, the selection, what each key does, the step
  after a close and the live refresh; `app_laws` proves the jump keys, the
  navigation round trip and that a refresh keeps the grid's structure.
- `herdr`: the socket API's data, requests and response envelope.
- `render`: tile titles, headers, the footer and the preview window.
- `style`, `text`: colors, modifiers and small string helpers.

`app/` holds the program: the socket connection, JSON, the terminal loop and
the drawing.
