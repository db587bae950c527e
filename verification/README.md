# system_monitor

The verified core of a desktop system monitor.

- `src/window.rs` — fixed-length sliding sample windows (`VecDeque`) and rows of them.
- `src/monitor.rs` — `SystemMonitor<T>`: per-core, memory, per-GPU and per-interface
  windows spanning sixty seconds at the poll rate; polling, rate changes and the GPU
  and network records handed to the UI.
- `src/names.rs` — character-wise ordering of names and the sort that fixes the
  index of each network interface.
- `src/text.rs` — decimal numbers, `#rrggbb` colour codes, SVG path commands, joins.
- `src/color.rs` — colour codes to and from Slint colours and brushes.
- `src/host.rs` — disk totals and the static host description.
- `app/` — the layer that reads the machine through `sysinfo`, NVML and
  `default-net` and formats floating-point figures.

`app/` names `default-net` for the default network interface, as the program it
serves does; that crate is not listed in `Cargo.toml` because its sources, next to
the others, exceed the size this build accepts, so `app/` does not type-check here
on that one call.
