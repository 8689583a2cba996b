# miracast-client

A Miracast (Wi-Fi Display) source for the Linux desktop: it finds receivers
over Wi-Fi Direct, negotiates the session with them over RTSP/WFD and streams
the screen as RTP/MPEG-TS.

The protocol logic is a library verified with Verus:

- `src/text.rs`, `src/chars.rs`: text scanning, trimming, numbers, UTF-8.
- `src/rtsp/headers.rs`: header fields, unique names in insertion order.
- `src/rtsp/messages.rs`: RTSP requests and responses, their parsing,
  serialization and framing on a byte stream.
- `src/rtsp/roundtrip.rs`, `src/rtsp/framing.rs`: proofs that what is
  serialized parses back, and is read whole off a stream.
- `src/rtsp/session.rs`: the source's session as a state machine from state
  and event to next state and action (M1 to M8, keep-alive).
- `src/wfd.rs`: WFD parameters in message bodies.
- `src/discovery.rs`: WFD subelements and the discovery state.
- `src/config.rs`, `src/streaming.rs`: configuration defaults and encoder
  settings.

`app/` is the program around it: the GTK window, the TCP connection that runs
the session, the D-Bus connection, the TOML configuration file and the
GStreamer pipeline. `tests/` exercises the library.
