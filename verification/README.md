# easy2send

A LAN file-transfer tool: devices find each other over mDNS, send files and
folders over a small TCP protocol, and a phone can upload through a paired
web page.

- `src/` is the verified library (Verus). It holds the wire protocol with
  its round-trip laws, task ids, lexical path normalisation and the joining
  of untrusted relative paths under a save directory (stated exactly for
  paths written from names, `.` and `..` with `/` between them; of other
  texts, whose parsing differs between platforms, the library states that
  the result is a verified join without `.` or `..`), the registry of
  discovered devices, the decisions of discovery (start, register, rename,
  browse events, heartbeat), address filters, the planning of sends and
  receives, and the pairing tokens, sessions and request checks of phone
  uploads.
- `app/` is the program around it: sockets, files, the mDNS daemon, the
  HTTP server, notifications and the command line. It prints its events as
  JSON lines.
- `tests/` exercise the library on concrete values.
