# pg_wire

A verified decoder of the messages that a PostgreSQL client sends to a server, written in
[Verus](https://github.com/verus-lang/verus).

`MessageDecoder` is a state machine without input or output. Its caller reads the bytes that
it requests (`Status::Requesting`) and hands them in, until it gives out a message
(`Status::Done`) or an error. The caller also hands in a catalogue of types, which the decoder
asks about the object identifiers of `Parse` messages.

* `src/wire.rs`: the layout of fields and messages, as functions on sequences of bytes
* `src/cursor.rs`: reading the fields of a buffer
* `src/message_decoder.rs`: the state machine and the reading of payloads
* `src/frontend.rs`, `src/formats.rs`, `src/catalogue.rs`, `src/errors.rs`: messages, formats of
  values, catalogues of types, errors
* `src/laws.rs`: what holds of the protocol as a whole
* `app/`: the decoder together with the catalogue of types of `pg_wire_payload`
