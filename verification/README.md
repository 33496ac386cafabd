# beam

A self-hosted file drop: a PIN-protected web service that takes chunked
uploads, lists and serves what was uploaded, and cleans up stale uploads.

- `src/` is the verified library (Verus). It holds the decisions of the
  service: configuration parsing, PIN checks and lockouts, rate limiting,
  client addresses behind proxies, filename and path sanitising, content
  types and download headers, upload validation and chunk planning, batch
  expiry, listing and size formatting, and the decisions of the web client
  (PIN pad, notifications, upload queue, chunk retries, rename dialog).
- `tests/` exercises the library on concrete values.
- `app/` is the HTTP server around the library: routing, file system work,
  the network and notifications.
