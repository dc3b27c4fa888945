# rds

A library for DrumSynth (`.ds`) percussion instruments, with its core
proved correct by Verus.

- `src/` — the verified library:
  - `envelope`, `point_list`: the envelope text format (`time,value` pairs
    joined by spaces), reader and writer, with `envelope_laws` proving that
    writing then reading gives the envelope back and that reading then
    writing reaches a fixed point;
  - `sections`: the integer-only sections and the integer form of switches;
  - `mutate`, `variant`, `composite`: the databases of values seen in a
    corpus of instruments (for every integer width, booleans, field-less
    enums and the records of an instrument), and the mutation of a value:
    a random copy of it in the database, moved by a shift that the caller's
    `ShiftSource` gives;
  - `history`: the undo history of an instrument being edited;
  - `random`, `text`: the calls into `rand` and `std` that the rest uses.
- `app/` — the serde form of whole instruments (which hold floating-point
  fields), loading and saving, and the mutation of whole instruments.
- `tests/` — tests of the library on concrete values.
