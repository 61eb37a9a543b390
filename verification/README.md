# Godotty

The logic of a terminal emulator for the Godot editor, written in Rust and
verified with Verus.

- `src/` is the verified library: box drawing and braille geometry, the
  recording of the terminal grid, keyboard and mouse translation, frames and
  resizing, the shell's command and its buffers, palettes, font fallbacks, tabs
  and docks, and the rules by which the editor follows external edits.
- `tests/` runs the library on concrete values.
- `app/` is the editor extension around it: engine classes, drawing, processes,
  files, and the floating point arithmetic of curves and colors. It embeds the
  fonts from a `fonts/` directory beside it and links the terminal engine
  libghostty-vt, which builds with Zig.

Sizes and positions are fixed-point pixels, times nanoseconds. What the library
needs to know of the editor, the disk or the system comes in as arguments, and
what is to be done goes out as a result.
