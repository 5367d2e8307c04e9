# rusty_collars

The firmware logic of a 433 MHz collar transmitter, written in Rust and proved with Verus.

- `src/` is the verified library. It knows no clock, socket, pin or flash: it takes what was read and
  returns what is to be done.
  - `protocol`, `validation`, `scheduling`, `preview`, `random`: collars, presets and their schedules.
  - `rf`, `rf_timing`: the radio signal of a command, and the receiver that reads it back.
  - `control`, `worker`, `services`, `repository`, `state`: messages of clients and what they change.
  - `transmission`, `session`: who may use the transmitter, and when.
  - `remote_url`, `remote_session`: the link to a remote control server.
  - `mqtt`: the link to Home Assistant over an MQTT broker.
  - `net`, `wifi`, `status`, `time_sync`, `ota`, `device_id`, `startup`: the device itself.
  - `http`, `quality`, `clients`, `events`, `local_session`: the web page and its browsers.
- `tests/` runs the library on concrete values.
- `app/` is the firmware around it: threads, sockets, JSON, and the ESP-IDF board (`app/esp.rs`).

Laws of the library stand as public proof functions next to the functions that they speak of.
Functions of other crates that the proofs rest on are wrapped in `text`, `remote_url`,
`remote_session`, `random` and `device_id`, each with a comment that says what is believed of it.
