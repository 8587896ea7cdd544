# als_engine

The log engine of Android Logcat Studio: it reads `adb logcat -v threadtime`
lines, keeps the newest million entries of each device in a ring buffer, filters and
searches them, counts errors and warnings, tracks the devices that adb reports, and
answers the user interface over a local WebSocket.

- `src/` is the library, written in Verus: the line grammar and its parser, the filter
  language, the ring buffer, the statistics, the pid cache, the adb output parsers, the
  per-device state, the device manager and the request handling, each with its
  contract, and the laws that tie them together (for instance, `threadtime.rs` proves
  that a formatted entry parses back to itself).
- `app/` is the program around it: the WebSocket server, the adb and logcat
  processes, the clock, and the files for recording and exports.
- `tests/` holds the tests of the library.
