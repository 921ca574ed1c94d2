# streamkeys

Building blocks of a streaming database, written in Verus: executable Rust whose behaviour is
stated in contracts and proved.

- **Hash keys** (`hash_key`): the values of some columns of a row, packed into a few bytes or
  serialized, with a bitmap of the nulls and a hash code computed beforehand. Two keys of fixed
  size are equal exactly when their rows are, value by value; two serialized keys, exactly when
  their rows are the same as they stand, so that 1.2 and 1.200 have different keys. A row can be
  read back from its key (`hash_key_laws`).
- **State tables** (`state_table`): tables of rows over a versioned key-value store (`store`,
  with `memory` as a store in memory). Changes are buffered, reads see them, and a commit writes
  them. Rows of any column types have keys, which come in the order of the rows (`ordered_laws`);
  what a read gives back of a write is in `state_table_laws`.
- **Aggregation plans** (`batch_plan`): a plan node that aggregates sorted input, with the order
  and the distribution that it provides and requires, and its forms for one and for many workers.
- **Metrics configuration** (`prometheus`): the configuration file of the metrics server.

`app/` is ordinary Rust around the library: keys in the hash maps of the standard library, tables
over stores that are reached asynchronously, and text output.

Calls into other crates stand behind small wrappers with contracts of their own: `chrono` decides
which counts are dates and times (`temporal`), `fixedbitset` and `smallbitset` hold the null
bitmaps (`null_bitmap`), `twox-hash` computes hash codes (`hash_code`), and `itertools` joins
strings (`text`).
