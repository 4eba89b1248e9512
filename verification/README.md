# demoparser

Verified pieces of a CS2 demo parser, written in Verus.

- `src/bitstream.rs`, `src/bit_source.rs`: the model of a bit stream (bits of a
  byte slice, least significant first) and the contracts of the `bitter`
  reader calls the library makes.
- `src/varint.rs`, `src/read_bits.rs`: frame and message size limits, the
  byte-slice varint decoder, and `Bitreader` with its bit-field, varint,
  `UBitVar` and byte-block readers. A reader that needs its whole field in
  the stream has a `has_*` test that leaves the position where it is
  (`has_varint`, `has_u_bit_var`, `has_ubit_var_fp`, `has_bit_coord`), or a
  checked form (`read_varint_u_64_checked`).
- `src/parser_state.rs`, `src/actors.rs`, `src/other_netmessages.rs`: the
  second-pass state (entities, players, property names, retained-data
  budget), world actor identities, and the recording of item drops and
  end-of-match data.
- `src/text.rs`: decimal renderings and the messages built from them.
- `app/`: protobuf decoding of net messages, the floating-point coordinate
  reader, and the error type's `Display` impl.
