# mobinogi_timer

An awakening timer for Mabinogi Mobile. It watches the game's TCP stream, finds the
emblem awakenings of the player's own character and runs the effect/cooldown timer.

The library (`src/`) is verified with Verus:

- `frame`: markers, TCP payload extraction, little-endian reads, data-block entries.
- `capture`: the capture state machine (candidates from self-damage entries, the queue of
  emblem buffs, stream reassembly into blocks) and its laws.
- `emblem`: the emblem table and the Blind Seer cooldowns.
- `duration`: the effect duration a packet carries (32-bit float seconds, by its bits)
  in integer nanoseconds.
- `timer`: the effect/cooldown timer in integer nanoseconds, with its laws.
- `update`: choosing the update offered by the releases listing.
- `device`: choosing the default capture interface.
- `text`: the hexadecimal dump and the printable-ASCII scan used for diagnostics.
- `settings`: the setting defaults.
- `first`: the first element of a sequence that satisfies a predicate.

`app/` is the Tauri application around it: settings on disk, windows and commands, the
pcap capture thread, the HTTP request for the releases listing, and the overlay's
floating-point values.
