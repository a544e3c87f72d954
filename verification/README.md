# forestair_ir

Infrared controller for ForestAir air conditioners, built around a library
verified with Verus.

- `src/` — the verified library
  - `ir_protocol.rs`: the 35-bit payload (`pack_ir_payload`) and the
    pulse-distance frame (`encode_ir`), with proofs that every setting can be
    read back from the payload and that the frame carries the payload LSB first.
  - `text.rs`: scanning and formatting of the flat JSON text (substring search,
    Unicode whitespace trimming, `u8`/`bool` parsing, decimal output).
  - `ac_state.rs`: the commanded state, its conversion to frame settings, its
    JSON form, the proof that reading back the JSON of a state gives the state,
    and the proof that the order of the members of a JSON object does not
    change the state read from it.
  - `command.rs`: the decisions of the `POST /command` handler.
- `app/` — the ESP32 firmware around the library: Wi-Fi provisioning, the HTTP
  server and mDNS record, and the RMT transmitter. The `/` handler serves the
  minified control page, which the firmware expects at `web/ac.min.html`; that
  page is built from the web UI sources, which are not part of this crate.
- `tests/` — tests of the library on concrete values.
