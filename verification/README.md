# async_borrow

Borrowing without lifetimes. Ownership and borrowing are recreated on the heap: a value is shared by
by-value methods that return a smart pointer and a future, and the future gives back the previous
privileges once the number of references has come down to zero.

The library under `src/` keeps the record of who borrows from whom, and is verified with Verus. The
allocation that holds a value and its record is explicit there: pointers and futures are tokens,
which are used together with the allocation and given back to it.

What the proofs take on trust is little. In `waker` the type `std::task::Waker` is declared, the
wrapper `noop_waker` calls `futures::task::noop_waker`, and `Waker::will_wake` may be called; nothing
is claimed of what either returns. In `contract::borrow_queue` the wrapper `element_mut` calls
`VecDeque::get_mut`, and states what it gives access to.

- `graph`: the arena of branches, and in `graph::model` the forest that it stands for.
- `inner`: the allocation, and raw pointers to it.
- `place`: where in a value a part lies.
- `pointers`, `future`, `wide`: owners, references, weak references, and the futures that wait.
- `tuple`, `slice`: taking tuples and runs of elements apart.
- `scope`: what a pool of spawned tasks does when it is polled, and in `scope::laws` what holds of
  it over many polls.
- `contract`: borrows of several kinds that wait in queues for their turn.
- `laws`, `contract::laws`: what holds of all of this as a whole. `laws::history` speaks of any
  number of steps, `laws::capacity` of graphs that differ in nothing but their capacity.

`app/` pairs the tokens with pointers to memory: smart pointers that give their token back when they
are dropped, futures, iterators and streams, and scopes that run tasks.
