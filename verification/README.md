# ml10x

A verified codec and command-line tool for the Morningstar ML10X loop
switcher: SysEx framing, preset and controller encode/decode, inbound
message classification, preset validation and comparison, and the YAML
document model that the tool reads and writes.

## Layout

- `src/` — the library, verified with Verus. Each public function states
  what it returns in its `ensures`; the laws that relate several functions
  (decode undoes encode, a parsed frame gives back its header, a YAML
  document round-trips, reordering hops makes no difference, ...) are
  public proof functions, mostly in `src/roundtrip.rs`.
  - `device`, `presets`: the device profile and the preset/controller model.
  - `sysex`: checksums, headers, frames and segments.
  - `encode`, `decode`, `inbound`, `handshake`: the wire protocol.
  - `validate`, `diff`: semantic checks and comparison of presets.
  - `yaml_io`: the document model of preset and controller files.
  - `commands`, `midi_io`, `config`, `output`, `exit_codes`: the decisions
    the command-line tool takes (which reply acknowledges a save, which
    presets a listing shows, how a port name is matched, ...).
- `tests/` — tests of the library on concrete values.
- `app/` — the command-line program around the library: argument
  parsing, MIDI ports (`midir`), files, YAML and JSON text (`serde`),
  the configuration file and terminal output.

The library calls one outside function itself: Unicode decomposition
(`unicode-normalization`) when folding connector names to ASCII. Its
result is named, not restated, except for the fact that plain ASCII text
comes back unchanged; the folding that follows is verified for every value
of it.
