//! The terminal model behind a small GPU terminal emulator: a screen buffer of
//! coloured text lines with a cursor and a bounded history, the ANSI/CSI
//! escape-sequence state machine that drives it from a shell's output, the
//! window onto the history that scrolling moves, and the mapping of key
//! presses to the bytes that are sent back to the shell.
pub mod strings;
pub mod screen;
pub mod csi;
pub mod terminal;
pub mod keys;
pub mod scroll;
