# ring_buffer

A ring buffer that holds up to `CAP` items of a `Copy` type, verified with Verus.

- `src/pos.rs` — `Pos`, where the live items lie: how many there are and the slot
  of the first one; all index arithmetic (`logical_index`, `front_len`, `back_len`).
- `src/lib.rs` — `RingBuffer`: its model (`view`, the items first to last, and
  `first_slot`), its operations with their contracts, `==` and `partial_cmp`, and
  the laws (`lemma_*`).
- `src/entry.rs` — `VacantEntry`, room for one more item.
- `src/error.rs` — `BufferFullError`.
- `src/iter.rs` — `Iter` and `IterMut`.

Storage is a `Vec` whose slots are filled in order the first time round and then
reused in a circle, so no slot is ever read before it was written.
