# vhdx_manager

A manager for a workspace of Windows VHDX disks: base disks created from a
WIM/ESD image, differencing disks stacked on them, their boot entries, and the
SQLite record of the tree they form.

- `src/` is the verified library (Verus). It holds the workspace path rules,
  the scripts handed to diskpart, DISM and PowerShell, the parsers of what
  those tools print, the parent locator of differencing disks, the decisions
  of a workspace scan, the subtree walks, and the state machine that
  provisions a disk's boot files. Each public function states its result in
  its contract; the `law_*` proof functions state what holds across calls.
- `app/` is the desktop side in ordinary Rust: processes and elevation, files,
  the SQLite store, the Windows drive queries, and the service that performs
  what the library decides. The boot configuration tools (bcdboot and the BCD
  store) are supplied by the host program through the `BootStore` trait.
- `tests/` runs the library on concrete values.

The scan and the subtree walks keep their maps and queues as plain vectors:
an index of `(key, record)` pairs in which a later record under a key
replaces the earlier one (as an insert into a map would), a list of
`(key, id)` pairs, and a queue read through a head position. Contracts over
these are stated with `Seq`, where every step can be proved; maps keyed by
text give the prover much less to go on. The results are those of the maps
and queues on every input on which the walk ends. On a cycle of parent links
the walk also ends, because an id met before is not entered again.
