# Throttle

A per-process bandwidth monitor and limiter for Windows. It shows live download
and upload rates per process and lets you cap or block any process's network
traffic. What it decides and computes is verified with Verus.

## Layout

- `src/`: the library, verified but for two calls into the standard library that
  `text.rs` trusts: `str::to_lowercase` and `String::from_utf16_lossy`.
  - `backend/flows.rs`: which process a flow or a port belongs to, and the byte
    counters behind the once-a-second report.
  - `backend/engine.rs`: packet parsing, token buckets, and the verdict on each
    packet. `backend/metering.rs` states what limits and blocks come to.
  - `backend/sockets.rs`: decoding the kernel's socket tables, and the paths that
    PIDs stand for.
  - `backend/rules.rs`, `backend/mod.rs`: the rule set, and the state that the
    threads share.
  - `gui/`: texts, sort order, dialogs and commands of the window.
  - `icon.rs`, `cli.rs`: the icon, pixel by pixel, and the command line.
  - `table.rs`, `text.rs`, `addr.rs`, `types.rs`: what the rest is built on.
- `app/`: the program around it: WinDivert capture, Win32 queries, threads, files
  and drawing.
- `tests/`: the library as its callers see it.

Times are nanoseconds, and a bucket's tokens are billionths of a byte, so that
metering is exact.
