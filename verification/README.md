# terminologyyyy

A small GPU terminal emulator whose terminal model is verified with Verus.

- `src/screen.rs` — the screen buffer (lines of text, a colour per cell, a
  cursor, at most 5000 lines of history) and the mathematical view its
  contracts are stated over.
- `src/csi.rs` — parsing the numeric parameters of a CSI control sequence.
- `src/terminal.rs` — the escape-sequence state machine that applies a
  shell's output to the screen and gathers the replies the shell asks for.
- `src/keys.rs` — what a key press sends to the shell.
- `src/scroll.rs` — how far the view is scrolled back and which lines it shows.
- `src/strings.rs` — the one trusted std call (`String::push`).
- `app/` — the window (winit), the GPU text rendering (wgpu, glyphon) and the
  pseudo terminal (portable-pty); it feeds the shell's output to the
  verified `Terminal`, sends key presses and replies back, turns mouse-wheel
  movement into scrolling and window sizes into the shell's rows and columns.

