# jarde_reader

A verified reader of JVM class files and of the ZIP archives that hold them. Every function of
the library is checked by Verus against its contract; the few calls into
outside crates (`noak` for the class decoder, `blake3` for content digests, `flate2` for
inflating archive entries) and into `std` stand behind small trusted wrappers whose contracts say
what those crates document.

## Layout

- `src/` is the library:
  - `cpool`, `header`, `declared`, `classfile`: the constant pool, the declaration structure and
    the class-level facts, each read through a bounded walk that bills a request `Budget`;
  - `attributes`, `modern`: typed attribute facts, the constant-dynamic graph, concat sites and
    the output-level answer;
  - `instruction`, `body`, `bytecode`: instruction decoding, method bodies and their
    control-flow targets;
  - `zip`, `artifact`, `entry_cursor`, `inspect`: archive snapshots, the entry walk and the
    inspection entry points;
  - `budget`, `cancel`, `ledger`, `facts_cache`: request limits, cancellation, usage accounting
    and the shared facts store.
- `tests/` exercises the library from outside, through its public items.
- `app/` holds the wire forms of the library's records: copies with `serde` derives and
  conversions in both directions.
