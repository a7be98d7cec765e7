# kook_onebot

A bridge that serves the OneBot 11 protocol for a KOOK bot: OneBot clients
connect over HTTP or WebSocket (forward or reverse), the bridge turns their
API calls into KOOK API requests, and KOOK's gateway events into OneBot
events.

- `src/` is the verified library (Verus): CQ-code encoding and parsing,
  KOOK markdown escaping, message-number bookkeeping (CRC-32), JSON shapes
  of requests, replies and events, the configuration file, HTTP parameter
  and authentication rules, the sender cache and the client registry. Each
  public function states what it returns; the `law_*` proof functions state
  what holds across calls.
- `tests/` runs the library on concrete values.
- `app/` is the program around it: configuration file I/O, the HTTP and
  WebSocket servers and clients, and the KOOK connection.
