# serverx

The bookkeeping of a game server, written in Verus: its wire formats, its
entity-component storage and its chunk store, each function with a contract
that Verus proves.

- `src/protocol`: value codecs of the network protocol (fixed-width integers,
  variable-length integers, positions, strings, identifiers, sequences, JSON
  text), the packets of protocol version 765 sent to clients, and packet
  framing under a size limit.
- `src/nbt`: the named binary tag data model and its decoder, with limits on
  memory and nesting.
- `src/ecs`: entities, sorting of type ids, columns and tables of component
  bytes, archetypes, the registry that finds archetypes by their types,
  message channels, event groups, and the plan that splits an iteration over
  the registry into tasks of a bounded number of rows, and the order in
  which a pipeline runs its iterations over batches of rows.
- `src/game`: the chunk store, in groups of four by four chunks, and the
  layers of flat worlds.
- `src/io.rs`, `src/bytes.rs`, `src/text.rs`: in-memory readers and writers,
  big-endian byte arithmetic and identifier rules.
- `app/`: what the verified library does not hold: async reading and writing
  of frames, user-facing error messages, and conversions to and from
  floating-point numbers and UUIDs.

Component values are held as bytes and component types as 64-bit numbers;
floating-point payloads are held as their bits.
