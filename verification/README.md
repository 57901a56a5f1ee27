# harmonydesk

The verified core of the HarmonyDesk remote-desktop controller for
HarmonyOS, written in Verus.

`src/` is the library. Its functions are verified, except six small
trusted wrappers around outside calls (`Sha256::digest`,
`String::from_utf8_lossy`, `String::push`, and `SystemTime::now`,
`SystemTime::duration_since` and `Duration::as_millis` for the clock),
whose contracts are assumed:

- `wire`, `messages`: the protobuf wire format and the RustDesk messages the
  controller sends, with the length-prefixed framing.
- `rendezvous`, `connect`: reading what the rendezvous server, the relay and
  the peer answer, and the decisions of a connection (waiting for the
  punch-hole answer, choosing a route, the login exchange).
- `session`: the state the native bridge keeps between calls: the video
  packet queue for the decoder, the outgoing message queue, the status.
- `endpoint`, `text`, `base64`, `crypto`: normalising user input, text
  helpers, base64, and the login proof over `sha2`.
- `protocol`, `video`, `log_collector`, `rustdesk`: the legacy UDP packet
  format, the stand-in decoder and frame buffer, the log collector, and
  the steps of a legacy connection (what each awaited step's outcome
  leads to).

`app/` holds what cannot be verified: the C entry points and the ArkTS
module, sockets and threads, the tokio stack that drives the connection
steps, and the floating-point pixel work. `tests/` runs
the library on concrete values.
