# midiasm

Reading and writing Standard MIDI Files, and a line-based textual ("assembly") form of them,
verified with Verus.

- `src/midi/model.rs`: the data model (small integers `U3`, `U4`, `U7`, `U14`, controllers, meta
  types, events, tracks, files), each with its mathematical view.
- `src/midi/rw_smf.rs`: variable-length quantities, decoding and encoding of the binary format,
  and the proof that decoding an encoded file gives the file back.
- `src/midi/rw_asm.rs`: the textual form: whitespace folding, number parsing, the reader and the
  writer.
- `src/midi/asm_roundtrip.rs`: the proof that reading the text that the writer writes gives the
  file back, for files with at least one track and without channel pressure, song select or
  raw SysEx with data (which the reader and the writer of the textual form disagree on).
- `app/`: the command-line program (`midi2json`, `json2midi`, `disas`, `asm`), which does the
  file I/O and the JSON conversion around the library.
- `tests/`: tests on concrete values.
