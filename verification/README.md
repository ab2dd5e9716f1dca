# firefly_binary

Bit-level pattern matching over binaries and bitstrings, verified with Verus.

- `src/bits.rs`: the model: the bits of a byte slice, and bytes packed back
  from bits (a final partial byte padded with zero bits).
- `src/selection.rs`: `Selection`, a window of bits over a byte slice, viewed
  as a `Seq<bool>`.
- `src/endian.rs`: byte orders, big- and little-endian values, and the
  `FromEndianBytes` trait with its integer implementations.
- `src/unicode.rs`: UTF-8 and UTF-16 decoding helpers.
- `src/bigint.rs`: the calls into `num-bigint` that build big integers.
- `src/matcher.rs`: `Matcher`, which reads and matches numbers, chars and
  sub-selections from the front of a selection.
- `src/laws.rs`: properties that span functions: byte and number round trips,
  UTF-8/16/32 round trips, splitting a selection.
- `app/lib.rs`: floating-point reads, which stay outside the verified library.
