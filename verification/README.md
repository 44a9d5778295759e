# synthesis

The control logic of a modular software synthesizer, verified with Verus,
and the program around it.

- `src/` is the verified library: MIDI parsing and state tracking
  (`midi`), voice allocation, module routing and the note events MIDI messages carry (`engine`), the step
  sequencer position and the modulation routing table (`modulation`), the
  preset catalogue and file names (`preset`), when two spellings of a path
  name the same place (`path`), delay-line heads (`effects`),
  and the text helpers they share (`text`). Each public function states in
  its `ensures` what it returns or changes; the `lemma_*` proof functions
  state the laws that hold across calls.
- `app/` is the command-line synthesizer: audio output (cpal), MIDI input
  (midir), preset files (serde), and all floating-point signal processing
  (oscillators, filters, envelopes, LFOs, effects), which drives the
  library's allocators, trackers and catalogue.
- `tests/` runs the library on concrete values.
