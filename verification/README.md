# contract_db

A contract database on SQLite, verified with Verus.

The store keeps smart contracts, the maps in which they hold their state, the history of every
entry of those maps, and a chain of simulated blocks. All work happens inside savepoints, which can
be nested, rolled back and committed.

- `src/tables.rs` models the database: its tables, their rows, and what each SQL statement does.
- `src/sqlite.rs` and `src/clock.rs` hold the calls into `rusqlite` and the system clock, with what
  is relied on of each. Nothing else is taken on trust.
- `src/connection.rs` opens and initializes a database; `src/database.rs` works inside a savepoint.
- `src/entries.rs` and `src/blocks.rs` say what it means to read and write an entry, and to add
  simulated blocks.
- `src/values.rs` and `src/errors.rs` hold the values and errors. What only the contract language
  can say comes in through `Language`.
- `src/laws.rs` states and proves what holds of the store as a whole, and `src/history.rs` what
  holds of the entries over any history of changes.
- `app/lib.rs` connects the store to the virtual machine's own types, and turns faults into panics.

Any statement can fail for reasons of the machine. Such a failure comes back as `Fault::Sql`, and
nothing is promised of the savepoint or the connection afterwards.
