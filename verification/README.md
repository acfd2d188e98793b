# lattice_core

The verified core of a creative-coding control framework, written in Verus.

`src/` is the library. Every function in it has a contract that Verus
proves, but one: `text::string_from_chars`, which builds a `String` from
characters with std's `String::from_iter`. Verus takes its contract (the
string holds exactly the given characters, in order) on trust, since vstd
specifies no way to build a string character by character. It covers:

- `framework::dep_order`, `control_hub::dep_graph` and
  `control_script::dep_graph`: the evaluation order of parameters that refer
  to other controls (`$name`). A dependency always comes before the nodes
  that depend on it, and an order exists exactly when there is no cycle.
- `control::eval_cache` and `control_script::eval_cache`: per-frame caches
  of evaluated values.
- `control_script::hot_params`, `keypath` and `script_index`: finding
  references in a configuration, including inside lists under key paths
  such as `breakpoints.2.value`, and planning how a control is read
  (aliases, bypasses, dependencies, modulators).
- `control_script::script_state`: loading (and reloading) a control
  script: which controls exist and in what order, which keep their value
  across a reload, and what a configuration that cannot be read leaves
  loaded.
- `disabled`: parsing and evaluating the `disabled` expressions of UI
  controls.
- `control::midi_controls`, `midi`, `animation::timing`: decoding MIDI
  control changes (7-bit, and 14-bit MSB/LSB pairs), MIDI clock with song
  position pointers, MIDI time code, and the OSC transport.
- `frame_controller`: frame pacing against a monotonic clock.
- `osc`, `osc_receiver`, `control::osc_controls`: OSC addresses and
  callback routing.
- `serialization`: restoring saved control values and the values of a
  saved snapshot.
- Names and defaults of the configuration format (`control::config`,
  `control_script::config`, `animate`, `easing`, `effects`,
  `control::ui_controls`), decimal numerals (`decimal`), and the MIDI port
  settings (`global`).

Laws that span several calls are public proof functions named `law_*`.

Collections keyed by control names (`named_map::NamedMap` and the
dependency graphs) are vectors of entries with the invariant that no name
occurs twice, and they keep insertion order. Verus specifies hashing and
equality of `String` keys too little for a hash map to carry these
contracts.

`tests/` runs the library on concrete values. `app/` is the command-line
front end: MIDI and OSC I/O, the YAML parser, the clock, and the
floating-point scaling of control values.
