# terminal_stickers

Sticker packs, text animations and a small chat screen for the terminal,
written in Verus with the logic proved against its contracts.

- `src/` is the verified library:
  - `animation`: the typewriter, wipe, glitch and burst frames of a text;
  - `manifest`: pack manifests and stickers, sticker search;
  - `packs`: all stickers of a set of packs, resolving a query, the listing,
    pack ids (slugs), sorting packs by name, new pack manifests;
  - `render`: choosing a renderer from the environment, decoding image bytes
    and drawing the picture with Unicode half blocks;
  - `tui`: the chat screen as a state machine (keys, sending, animation ticks);
  - `cli`: the commands and their arguments;
  - `text`: character-level string helpers.
- `app/` is the `terminal-stickers` program: argument parsing, files and
  paths, TOML, the terminal and the event loop.
- `tests/` exercises the library on concrete values.
