# exactulator

An arbitrary-precision calculator focused on exact rational arithmetic, with
its logic verified by Verus.

- `src/natural.rs`, `src/rational.rs`: natural numbers as base 2^32 limbs and
  rationals in lowest terms; the arithmetic itself is done by the `num` crate.
  `rational.rs` also proves that the arithmetic is exact (adding then
  subtracting, or multiplying then dividing, gives back the starting value).
- `src/decimal.rs`: decimal notation as `big_rational_str` parses and writes it.
- `src/format.rs`: display rendering with a digit budget, repetends in
  parentheses and rounding half away from zero.
- `src/engine.rs`: operators, their application, decimal input and a bounded
  history.
- `src/gui.rs`: the calculator window's state machine: every key press, the
  keyboard shortcuts, and laws such as "after an error only Clear is heeded".
- `app/`: the Iced window (layout, colours, keyboard events).
