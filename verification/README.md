# hyperkeyd

`hyperkeyd` turns a dedicated Hyper key into a personal command dispatcher:
while Hyper is held, each press of an alphanumeric key launches the matching
executable script, such as `~/.hyper/a.sh`. Key-repeat events never dispatch,
so holding a command key launches it once.

The decisions of the daemon live in a library verified with Verus (`src/`);
the program around it (`app/`) reads evdev devices, inspects files, launches
scripts and logs.

## Layout

- `src/dispatch.rs` — the idle/armed state machine, script inspection
  results, dispatch plans and the script environment.
- `src/laws.rs` — properties of the dispatcher and of the enrollment
  verification over single events and whole event sequences.
- `src/keys.rs` — command keys, parsing of the `--hyper-key` argument
  (including the kernel `KEY_MACRO1`..`KEY_MACRO30` names), and the key names
  written during enrollment, which parse back to the same key.
- `src/paths.rs` — extension normalization and Unix path joining.
- `src/enroll.rs` — enrollment: requested presses, stable alias selection,
  and the guided Hyper+A verification (hold Hyper, press and release `A`,
  release Hyper; an early release restarts it).
- `src/config_file.rs` — the machine configuration text written by setup.
- `src/devices.rs` — device names and the device listing.
- `src/order.rs`, `src/text.rs`, `src/numeral.rs` — text order and sorting,
  character-level text helpers, decimal numerals.
- `app/` — `main`, the command line, device threads, `setup` (which writes
  `~/.config/hyperkeyd/config.toml` through a temporary file and a rename).

Run `hyperkeyd --help` for the command line.
