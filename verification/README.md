# NetTamer core

NetTamer is a per-process network monitor for Windows: it shows each
process's upload and download rates, raises alerts when a process exceeds a
threshold, throttles processes with token buckets and isolates them from the
network.

This crate (`nettamer`) is the verified core, written in Verus:

- `matcher`: process-name patterns (exact, `.exe`-insensitive, `*` wildcards).
- `firewall`, `throttle`, `rate_limiter`: rule and policy tables, token buckets
  and the per-packet throttle verdict.
- `alert`: rule evaluation with per-process cooldowns.
- `etw`, `packet`, `aggregator`: decoding of kernel network events and
  captured IPv4 packets, socket-to-process attribution, byte counters and
  sorted process lists.
- `process`, `exe_paths`, `icons`, `codec`: process naming and
  classification, executable search, icon cache, BMP and Base64 encoding.
- `isolation`: bookkeeping of blocked executables and their firewall
  command lines.
- `settings`, `store`, `state`, `overlay`, `speed_icon`: configuration
  decisions, the alert-history query, shared state, the taskbar overlay's
  decisions and the tray speed icon renderer.
- `text`, `fmt`, `keyed`, `clock`: strings, decimal rendering, keyed tables
  and clock readings.

`app/` is the Windows desktop shell (Tauri, Win32, ETW, WinDivert, WFP,
SQLite) that calls into the core; floating-point rate smoothing and
formatting live there too.
