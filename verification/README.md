# MAVLink Extras

Utilities for using MAVLink asynchronously, with the logic verified by Verus.

- `src/` is the verified library. It reads no clock but to order messages, and it does not wait,
  send or receive: it says what to do next and takes what came of it.
  - `message`, `raw`: frames, messages of a message set, and messages that are known by their bytes.
  - `codec`, `buffer`: reading frames from byte buffers and writing them, in both versions of the
    protocol.
  - `mailbox`: the most recent messages of each type, in the order of their arrival.
  - `exchange`: sending a message until it is answered.
  - `mission`, `command`, `dialect`: the mission and command protocols over the common message set.
  - `mavconn`: sequence numbers, heartbeats, and what becomes of incoming frames.
  - `echo`: the options of the tool in `app/`.
  - The `laws` modules state what holds across calls.
- `app/` connects the library to `tokio`: connections over TCP, UDP and serial ports, and a tool
  that prints the messages of a connection.
- `tests/` runs the library with the crates that it calls.
