# chiyocore

The logic of a MeshCore node firmware for ESP32 boards, as a Rust library
whose behaviour is stated in `requires`/`ensures` contracts and proved with
Verus.

- `src/` is the verified library: the companion protocol (requests,
  responses, framing), the flash store's keys and directory records, the
  contact and channel tables, message de-duplication, retry and radio
  timing rules, and the bots' text commands.
- `tests/` runs the library on concrete values.
- `app/` is a host-side companion server around the library: it accepts a
  companion app over TCP and answers it from the node's state.

The radio, Wi-Fi and flash drivers are hardware- or board-specific and stay
outside the library. The mesh packet codec (the `meshcore` crate, which
encrypts, signs and frames packets) is not among the crates this build can
use, so the library decides what to send and what a received packet is for,
but does not encode or decode packets itself.
