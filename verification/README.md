# janus_map

A hash map whose entries can be read while they are written, with its
behaviour stated in contracts and proved by Verus.

Every entry keeps its value on two sides. Readers look at one side, the next
writer works on the other, and after each write the sides trade places. Guards
stand for readers and writers: the map counts a reader until its guard is given
back, and a writer takes the write side of the entry with it. A removed entry
leaves its slot at once and is kept apart until its last reader is gone.

Entries live in an open-addressing table with one metadata byte per slot. A new
entry takes the first unused slot on its way. Once no slot is unused, it takes
the first one whose entry was removed and is not read any more.

- `src/probe.rs`: the order in which slots are tried, and that it reaches all of them
- `src/hash_metadata.rs`, `src/hasher.rs`: what the table keeps of a hash
- `src/borrowed.rs`: keys that are looked up in borrowed form
- `src/capacity.rs`: how large a table is made
- `src/entry.rs`, `src/guard.rs`: entries, readers and writers
- `src/state.rs`: what a table holds, as a mathematical value, and what each
  operation does to it
- `src/invariants.rs`: every change keeps the table consistent
- `src/table.rs`, `src/map.rs`: the table and the map
- `src/laws.rs`: what holds of the map as a whole
- `app/`: the map shared between threads
