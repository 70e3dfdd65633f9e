# scaled_int

Fixed-scale decimals backed by 32-bit integers, with every operation
specified over mathematical integers and proved by Verus.

`Decimal32<S>` stores an `i32` and `UDecimal32<S>` a `u32`; the raw integer is
the value multiplied by `10^S` (`S <= 9`). `Decimal64<S>` and `UDecimal64<S>`
are their 64-bit siblings (`S <= 18`), reached through `widen()` and left
through `narrow()`.

## Layout

- `src/math.rs` — powers of ten, truncating and floor division, the rounding
  modes (`round_div`), scaled multiplication/division and rescaling, and the
  laws about them.
- `src/rounding.rs` — rounding division on `i64`/`u64`/`i128`/`u128`, proved
  equal to `round_div`.
- `src/grammar.rs` — the decimal grammar and the outcome of parsing bytes
  (`parse_signed`, `parse_unsigned`).
- `src/parse32.rs`, `src/parse_unsigned32.rs` — the parsers, proved against
  the grammar.
- `src/text.rs` — the text the formatting methods produce, and the verified
  routines that build it (the integer part of signed values goes through
  `itoa`).
- `src/round_trip.rs` — printing and parsing are inverse.
- `src/order.rs` — `==` and `<` on each type, which follow the raw value.
- `src/message.rs` — the text of each parse error.
- `src/decimal32.rs`, `src/udecimal32.rs`, `src/decimal64.rs`,
  `src/udecimal64.rs` — the four types.
- `app/lib.rs` — `f64` conversions, and a parse error that implements
  `Display` and `std::error::Error` by way of `ParseError::message`.
- `tests/` — behaviour on concrete values.
