# ascii_screensaver

A procedural terminal screensaver. It renders into an in-memory cell
buffer, emits only the cells that changed, and wraps each frame in
synchronized terminal output.

## Layout

- `src/` is the verified library:
  - `canvas.rs`: the cell grid with clipping writes and depth-tested plots;
  - `terminal.rs`: the frame encoder (`Renderer`) that turns canvases into
    escape sequences, redrawing everything only when it must;
  - `frame_text.rs`: what a frame shows as text once its escape sequences
    are taken out: the glyphs of the cells it draws, row by row;
  - `config.rs`: command-line parsing;
  - `effects.rs`, `profile.rs`: the animation families, the profiles that
    group them, the clock label, and the random-number calls;
  - `font.rs`: the 5x7 glyphs and the centred point layout of a text;
  - `app.rs`: the scene rotation, the key bindings, the help box and the
    frame schedule;
  - `solids.rs`: the integer parts of the wireframe solids (edge lists and
    segment glyphs);
  - `encoding.rs`: decimal and UTF-8 encoding, string comparison and
    unsigned integer parsing.
- `app/` is the program around it: the terminal session, the frame loop and
  the animations, which compute in floating point.
- `tests/` exercises the library.

## Controls

```text
Space / Right  next scene      r  regenerate scene
p              pause           m  toggle monochrome
?              toggle help     q/Esc/Ctrl-C  quit
```
