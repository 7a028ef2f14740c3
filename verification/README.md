# biasedrc

Biased reference counting, verified with Verus.

An object is owned by the thread that made it. The owner counts its own references in
a word that no other thread writes; all other threads count in a shared word. Once the
owner has released its last reference, or has been asked to, the two counts are merged,
and the object is counted in the shared word alone. A thread that would need the owner
to merge the counts puts the object into the owner's queue, and the owner works its
queue off when it collects. Until then a queued object stays biased: the owner keeps its
last biased reference and releases one from the shared word instead.

## Layout

`src/` is the verified library.

- `packed`, `thread_id`, `word`: the bits of the two counter words.
- `transition`, `header`: what every step does to the two words.
- `layout`: where a value lies behind its header, and the steps of the weak count.
- `registry`, `threads`: the table of all threads, their flags and their queues.
- `object`, `heap`, `world`: the mathematical model of an object, of all objects, and
  of all objects together with all threads, with the invariant that every operation
  keeps.
- `runtime`: the executable operations on objects and threads.
- `strong`, `weak`, `unique`, `uninit`, `conversions`: the reference types `Brc`,
  `Weak`, `UniqueBrc` and `UniqueUninitBrc`.
- `pointee`: what is remembered of an object whose type is forgotten.
- `laws`: what holds of any sequence of operations.
- `interleaving`: the same protocol at the level of single atomic accesses, where steps
  of different threads interleave in any order.

`app/` puts the library to work on raw memory, atomics and thread-local storage: it
reads a word, asks the library for the next one, and swaps it in. It also holds the
implementations of traits that other crates define.

`tests/` runs the library.

## Using the library

A reference is a handle to an object of a `Runtime`, which every operation takes as its
last argument. A runtime holds the objects of one value type; values of several types
go into an enum. The thread that acts is the one that was entered last
(`Runtime::enter_thread`), and an operation takes effect as a whole: what happens
between two atomic accesses is the subject of `interleaving`.

A reference has no destructor: one that is no longer needed is handed to `Brc::drop`,
`Weak::drop` or one of their relatives. A value that is dropped is handed back by the
function that drops it, so that the references in it can be dropped in turn; a caller
that ignores it has it destroyed there and then. Functions that collect on the way to
another result leave such values to `Runtime::take_discarded`.
