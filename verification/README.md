# hashidx

A small key/value index whose entries live in an append-only content file.

A key is hashed to 64 bits (the keys `hello`, `food`, `why`, `me` and `i` all hash
to 1, so that collisions can be tried by hand). A B-tree maps each hash to the offset
of the first entry with that hash in the content file; entries with the same hash form
a chain through their `next` offsets, and a lookup walks the chain for the entry whose
key has the length of the key looked up.

## Layout

- `src/` is the verified library.
  - `index/` and `db/`: the two front ends. `Index` maps a key to a number; `DB` maps a
    key to a string stored in a second, entries file. Each has its on-disk entry type,
    its hash and its errors.
  - `chain.rs`: the steps of inserts and lookups. The library never touches a file: it
    asks its caller to append, read or write, and takes the result back.
  - `model.rs`: the content file as a map from offsets to entries, what a whole insert or
    lookup does to it, and the laws: a lookup finds what an insert put in, inserts keep
    the chains well formed, and leave other hashes alone.
  - `execute.rs`: the command line of the prompt.
- `app/` is the program: the prompt, the files, and the loops that carry out the
  library's requests.
- `tests/` drive the library with in-memory files.
