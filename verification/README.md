# koe_asr

Realtime speech recognition with the OpenAI and Azure OpenAI transcription
services. The logic of a session is written in Rust and verified with Verus.

- `src/` is the verified library. It never touches the socket: where something
  is to be read or sent, its functions return that as a step and take the
  outcome as an argument.
- `app/` opens, reads, writes and closes the socket, and asks the library what
  to do.
- `tests/` runs the library on concrete values, with the crates it calls.

The contracts of `src/json.rs`, `src/wire.rs`, `src/request.rs` and
`src/text.rs` that are marked `external_body` or `assume_specification` describe
functions of other crates and of the standard library. They are taken on trust;
everything else is proved from them.
