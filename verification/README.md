# rtrack

A terminal music tracker: songs of patterns, an order list, playback with tracker
effects, MIDI file import and export, samples, and a keyboard-driven editor.

`src/` is the library, written in Verus: every function carries a contract and is
proved against it.

- `pattern`, `song`: cells, notes, patterns and songs, with their views.
- `edit`, `editor`: editing the song (cells, rows, blocks, clipboard, transposition,
  interpolation, the order list and pattern matrix, undo and redo).
- `keys`, `dialog`, `browser`: what each key does in the editor, its dialogs and
  the file browser.
- `playback`, `clock`: the player's row and tick decisions, effect processing,
  the render traversal, and following an external MIDI clock.
- `midi_file`, `midi_out`: standard MIDI file bytes, both ways, and the note
  bookkeeping of the MIDI output; `midi_readback` proves that an exported file
  reads back with its division, its tempo and every column's events.
- `sample`, `synth`: sample banks, AIFF parsing and PCM decoding, note routing,
  voice allocation, synth patches, waveform and filter stepping.
- `config`, `paths`, `text`: settings precedence, paths, small text helpers.

`app/` is the command-line program around it: file and audio I/O, rendering to
WAV, and the floating-point synthesis that the library does not hold.
