# statmind

Reads the state of a running Cogmind out of its memory, and drives the game through a
mailbox that a patched SDL library serves. A server offers both as tools over JSON-RPC.

- `src/` is the library. It decodes memory, plans requests, and decides what to read and
  write next; every contract is proved with Verus. It touches no process, file or clock:
  a function that needs memory names the read it wants, on a tape (`memory`) or as the next
  step of a job (`submit`, `blit_job`, `dump_job`, `cell_map`, `search`). What a server
  keeps from one call to the next is in `session`; `listing`, `lowest` and `map_parts` hold
  laws of the scans, of the searches and of the map.
- `app/` is the program: it performs those reads and writes, speaks JSON and Discord, and
  finds the process. The identifier tables are read from the directory that `STATMIND_IDS`
  names, `ids` by default.
- `tests/` runs the library on small memories.
