# gcode

A G-code parser and interpreter whose behaviour is stated in `requires` / `ensures` contracts
and proved with Verus.

Every parser reads a slice of `char`s from a position and returns the position after what it
read together with the value, or a `Fail` that says where and why it stopped. Each one has a
spec function that says exactly what it returns; numbers are kept as the text they were written
with.

- `src/gcode_parser`: words, modal groups, coordinates, comments, tokens, blocks and whole
  programs with their error messages; `laws.rs` holds properties of the grammar.
- `src/gcode_parser_old`: a coordinate parser that tries at most nine axis words.
- `src/clean_slate`: words with a fixed letter and number, literals, spanned words, blocks and
  programs.
- `src/streaming`: spindle and motion groups, parameters, values, comments and parameter
  assignments.
- `src/shunting_yard`: bracketed expressions of numbers, operators and parameters.
- `src/gcode_interpreter`, `src/path_viewer`: stepping through a program's blocks, tracking the
  motion mode and the position, and the tool path between the states.
- `src/validator`: program-wide rules (the program end rule, which accepts a program with or
  without `M2`).
- `src/interpreter`: a queue of machine commands and the modal state they set.
- `app/`: floating point motion planning, conversions of numbers to floats and durations, and
  display of errors.
