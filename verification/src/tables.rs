//! The tables of the database and the statements that work on them.
//!
//! A database is modelled as a map from its tables to their rows, and a table as a map from row
//! numbers to rows. The number of a row is its `INTEGER PRIMARY KEY`; the row is its other
//! columns, in the order of the `CREATE` statement.

use vstd::prelude::*;

verus! {

/// What one column of one row holds.
pub enum Cell {
    Null,
    Integer(i64),
    Text(Seq<char>),
    Blob(Seq<u8>),
}

/// A value handed to a statement, for one of its placeholders.
#[derive(Debug)]
pub enum SqlValue {
    Null,
    Integer(i64),
    Text(String),
    Blob(Vec<u8>),
}

impl View for SqlValue {
    type V = Cell;

    open spec fn view(&self) -> Cell {
        match self {
            SqlValue::Null => Cell::Null,
            SqlValue::Integer(i) => Cell::Integer(*i),
            SqlValue::Text(text) => Cell::Text(text@),
            SqlValue::Blob(bytes) => Cell::Blob(bytes@),
        }
    }
}

/// What the placeholders of a statement stand for.
pub open spec fn cells(params: Seq<SqlValue>) -> Seq<Cell> {
    Seq::new(params.len(), |i: int| params[i]@)
}

/// The tables of a database.
pub enum Table {
    /// SQLite's own list of what the database holds.
    Schema,
    /// The maps: contract name, map name, key type, value type.
    Maps,
    /// The history of the maps' entries: map number, key, value or null.
    Data,
    /// The contracts: name, data.
    Contracts,
    /// The simulated blocks, by height: time, VRF seed, header hash.
    Blocks,
}

/// The rows of a table, by number.
pub type Rows = Map<i64, Seq<Cell>>;

/// The tables of a database, with their rows.
///
/// `Table::Schema` is a key, with no rows, when the database holds nothing but the keys of the map
/// and what SQLite itself keeps beside them (its count of row numbers, the indexes of unique
/// columns), and nobody else changes it.
pub type Tables = Map<Table, Rows>;

pub const MAPS_TABLE: &'static str = "maps_table";

pub const DATA_TABLE: &'static str = "data_table";

pub const CONTRACTS_TABLE: &'static str = "contracts";

pub const BLOCKS_TABLE: &'static str = "simmed_block_table";

pub const CREATE_MAPS: &'static str = "CREATE TABLE IF NOT EXISTS maps_table
                      (map_identifier INTEGER PRIMARY KEY AUTOINCREMENT,
                       contract_name TEXT NOT NULL,
                       map_name TEXT UNIQUE NOT NULL,
                       key_type TEXT NOT NULL,
                       value_type TEXT NOT NULL)";

pub const CREATE_DATA: &'static str = "CREATE TABLE IF NOT EXISTS data_table
                      (data_identifier INTEGER PRIMARY KEY AUTOINCREMENT,
                       map_identifier INTEGER NOT NULL,
                       key TEXT NOT NULL,
                       value TEXT)";

pub const CREATE_CONTRACTS: &'static str = "CREATE TABLE IF NOT EXISTS contracts
                      (contract_identifier INTEGER PRIMARY KEY AUTOINCREMENT,
                       contract_name TEXT UNIQUE NOT NULL,
                       contract_data TEXT NOT NULL)";

pub const CREATE_BLOCKS: &'static str = "CREATE TABLE IF NOT EXISTS simmed_block_table
                      (block_height INTEGER PRIMARY KEY,
                       block_time INTEGER NOT NULL,
                       block_vrf_seed BLOB NOT NULL,
                       block_header_hash BLOB NOT NULL)";

pub const INSERT_MAP: &'static str =
    "INSERT INTO maps_table (contract_name, map_name, key_type, value_type) VALUES (?, ?, ?, ?)";

pub const INSERT_DATA: &'static str =
    "INSERT INTO data_table (map_identifier, key, value) VALUES (?, ?, ?)";

pub const INSERT_CONTRACT: &'static str =
    "INSERT INTO contracts (contract_name, contract_data) VALUES (?, ?)";

pub const INSERT_BLOCK: &'static str =
    "INSERT INTO simmed_block_table (block_height, block_time, block_vrf_seed, block_header_hash) VALUES (?1, ?2, ?3, ?4)";

pub const SELECT_SCHEMA: &'static str = "SELECT sql FROM sqlite_master WHERE name=?";

pub const SELECT_MAP: &'static str =
    "SELECT map_identifier, key_type, value_type FROM maps_table WHERE contract_name = ? AND map_name = ?";

pub const SELECT_CONTRACT: &'static str =
    "SELECT contract_data FROM contracts WHERE contract_name = ?";

pub const SELECT_ENTRY: &'static str =
    "SELECT value FROM data_table WHERE map_identifier = ? AND key = ? ORDER BY data_identifier DESC LIMIT 1";

pub const SELECT_TIP: &'static str =
    "SELECT block_height FROM simmed_block_table ORDER BY block_height DESC LIMIT 1";

pub const SELECT_BLOCK_TIME: &'static str =
    "SELECT block_time FROM simmed_block_table WHERE block_height = ? LIMIT 1";

pub const SELECT_BLOCK_HEADER_HASH: &'static str =
    "SELECT block_header_hash from simmed_block_table WHERE block_height = ? LIMIT 1";

pub const SELECT_BLOCK_VRF_SEED: &'static str =
    "SELECT block_vrf_seed from simmed_block_table WHERE block_height = ? LIMIT 1";

/// `name` is the name of `table` in the database.
pub open spec fn names(name: Seq<char>, table: Table) -> bool {
    match table {
        Table::Schema => false,
        Table::Maps => name == MAPS_TABLE@,
        Table::Data => name == DATA_TABLE@,
        Table::Contracts => name == CONTRACTS_TABLE@,
        Table::Blocks => name == BLOCKS_TABLE@,
    }
}

/// `sql` is the statement that creates `table`.
pub open spec fn creates(sql: Seq<char>, table: Table) -> bool {
    match table {
        Table::Schema => false,
        Table::Maps => sql == CREATE_MAPS@,
        Table::Data => sql == CREATE_DATA@,
        Table::Contracts => sql == CREATE_CONTRACTS@,
        Table::Blocks => sql == CREATE_BLOCKS@,
    }
}

/// `sql` is the statement that inserts a row into `table`.
pub open spec fn inserts(sql: Seq<char>, table: Table) -> bool {
    match table {
        Table::Schema => false,
        Table::Maps => sql == INSERT_MAP@,
        Table::Data => sql == INSERT_DATA@,
        Table::Contracts => sql == INSERT_CONTRACT@,
        Table::Blocks => sql == INSERT_BLOCK@,
    }
}

/// `sql` is one of the statements above that change the database.
pub open spec fn is_known(sql: Seq<char>) -> bool {
    exists|table: Table| creates(sql, table) || inserts(sql, table)
}

/// The values of an insertion into `table` are of the kinds that its columns are for.
pub open spec fn fits(table: Table, params: Seq<Cell>) -> bool {
    match table {
        Table::Schema => false,
        Table::Maps => {
            &&& params.len() == 4
            &&& params[0] is Text
            &&& params[1] is Text
            &&& params[2] is Text
            &&& params[3] is Text
        },
        Table::Data => {
            &&& params.len() == 3
            &&& params[0] is Integer
            &&& params[1] is Text
            &&& params[2] is Text || params[2] is Null
        },
        Table::Contracts => {
            &&& params.len() == 2
            &&& params[0] is Text
            &&& params[1] is Text
        },
        Table::Blocks => {
            &&& params.len() == 4
            &&& params[0] is Integer
            &&& params[1] is Integer
            &&& params[2] is Blob
            &&& params[3] is Blob
        },
    }
}

/// The map of the tables is the whole database, and nobody else changes it.
pub open spec fn is_whole(tables: Tables) -> bool {
    tables.contains_key(Table::Schema)
}

/// The database after `table` was created, if it was not there.
pub open spec fn created(before: Tables, table: Table) -> Tables {
    if before.contains_key(table) {
        before
    } else {
        before.insert(table, Map::empty())
    }
}

/// Some row holds `cell` in column `column`.
pub open spec fn holds(rows: Rows, column: int, cell: Cell) -> bool {
    exists|number: i64| #[trigger] rows.contains_key(number) && rows[number][column] == cell
}

/// The database after `row` was put into `table` under `number`.
pub open spec fn with_row(before: Tables, table: Table, number: i64, row: Seq<Cell>) -> Tables {
    before.insert(table, before[table].insert(number, row))
}

/// `number` is above the numbers of all rows.
pub open spec fn is_next(rows: Rows, number: i64) -> bool {
    forall|other: i64| #[trigger] rows.contains_key(other) ==> other < number
}

/// `after` is `before` with `row` as the newest row of `table`.
pub open spec fn appended(before: Tables, after: Tables, table: Table, row: Seq<Cell>) -> bool {
    exists|number: i64| #[trigger]
        is_next(before[table], number) && after == with_row(before, table, number, row)
}

/// The insertion of `params` into `table` would break what is unique there: no two maps have the
/// same name, no two contracts have the same name, and no two blocks have the same height.
pub open spec fn clashes(before: Tables, table: Table, params: Seq<Cell>) -> bool {
    match table {
        Table::Schema => false,
        Table::Maps => holds(before[table], 1, params[1]),
        Table::Data => false,
        Table::Contracts => holds(before[table], 0, params[0]),
        Table::Blocks => params[0] matches Cell::Integer(height) && before[table].contains_key(
            height,
        ),
    }
}

/// `after` is `before` after the insertion of `params` into `table`.
pub open spec fn inserted(
    before: Tables,
    after: Tables,
    table: Table,
    params: Seq<Cell>,
) -> bool {
    &&& !clashes(before, table, params)
    &&& match table {
        Table::Schema => true,
        Table::Blocks => {
            &&& params[0] matches Cell::Integer(height)
            &&& after == with_row(before, table, height, params.skip(1))
        },
        _ => appended(before, after, table, params),
    }
}

/// What the statement `sql`, run with `params`, makes of the database, and how many rows it says
/// it changed, as far as `sql` is one of the statements above.
pub open spec fn executed(
    sql: Seq<char>,
    params: Seq<Cell>,
    before: Tables,
    after: Tables,
    changed: usize,
) -> bool {
    &&& forall|table: Table| #[trigger]
        creates(sql, table) && is_whole(before) ==> after == created(before, table)
    &&& forall|table: Table| #[trigger]
        inserts(sql, table) && before.contains_key(table) && fits(table, params) ==> {
            &&& changed == 1
            &&& inserted(before, after, table, params)
        }
}

/// What it means that the statement `sql`, run with `params`, was refused because of a constraint,
/// as far as `sql` is one of the statements above: it has changed nothing, an insertion of values
/// of the right kinds would have clashed, and no creation is refused in a whole database.
pub open spec fn refused(
    sql: Seq<char>,
    params: Seq<Cell>,
    before: Tables,
    after: Tables,
) -> bool {
    &&& forall|table: Table| #[trigger] creates(sql, table) ==> !is_whole(before)
    &&& forall|table: Table| #[trigger]
        inserts(sql, table) && before.contains_key(table) ==> {
            &&& after == before
            &&& fits(table, params) ==> clashes(before, table, params)
        }
}

/// `sql` inserts a row into one of `tables`.
pub open spec fn inserts_into(sql: Seq<char>, tables: Tables) -> bool {
    exists|table: Table| #[trigger] inserts(sql, table) && tables.contains_key(table)
}

/// Map number `number` is the map `map_name` of contract `contract_name`, with these types.
pub open spec fn is_map(
    tables: Tables,
    contract_name: Seq<char>,
    map_name: Seq<char>,
    number: i64,
    key_type: Seq<char>,
    value_type: Seq<char>,
) -> bool {
    &&& tables[Table::Maps].contains_key(number)
    &&& tables[Table::Maps][number] == map_row(contract_name, map_name, key_type, value_type)
}

/// The row of a map.
pub open spec fn map_row(
    contract_name: Seq<char>,
    map_name: Seq<char>,
    key_type: Seq<char>,
    value_type: Seq<char>,
) -> Seq<Cell> {
    seq![
        Cell::Text(contract_name),
        Cell::Text(map_name),
        Cell::Text(key_type),
        Cell::Text(value_type),
    ]
}

/// The row of a contract.
pub open spec fn contract_row(contract_name: Seq<char>, data: Seq<char>) -> Seq<Cell> {
    seq![Cell::Text(contract_name), Cell::Text(data)]
}

/// Contract `contract_name` has a map `map_name`.
pub open spec fn has_map(tables: Tables, contract_name: Seq<char>, map_name: Seq<char>) -> bool {
    exists|number: i64|
        {
            &&& #[trigger] tables[Table::Maps].contains_key(number)
            &&& tables[Table::Maps][number][0] == Cell::Text(contract_name)
            &&& tables[Table::Maps][number][1] == Cell::Text(map_name)
        }
}

/// Row `number` is about key `key` of map `map`.
pub open spec fn is_about(rows: Rows, number: i64, map: i64, key: Seq<char>) -> bool {
    &&& rows.contains_key(number)
    &&& rows[number][0] == Cell::Integer(map)
    &&& rows[number][1] == Cell::Text(key)
}

/// Row `number` is the newest about key `key` of map `map`.
pub open spec fn is_newest(rows: Rows, number: i64, map: i64, key: Seq<char>) -> bool {
    &&& is_about(rows, number, map, key)
    &&& forall|other: i64| #[trigger] is_about(rows, other, map, key) ==> other <= number
}

/// The newest row about key `key` of map `map` has `value` for its value.
pub open spec fn newest_says(rows: Rows, map: i64, key: Seq<char>, value: Cell) -> bool {
    exists|number: i64| #[trigger] is_newest(rows, number, map, key) && rows[number][2] == value
}

/// A value or null, as a column holds it.
pub open spec fn value_cell(value: Option<String>) -> Cell {
    match value {
        Some(text) => Cell::Text(text@),
        None => Cell::Null,
    }
}

/// What map `map` holds under `key`: what the newest row about it says.
pub open spec fn entry(tables: Tables, map: i64, key: Seq<char>) -> Option<Seq<char>> {
    let rows = tables[Table::Data];
    if exists|number: i64| is_newest(rows, number, map, key) {
        let newest = choose|number: i64| is_newest(rows, number, map, key);
        match rows[newest][2] {
            Cell::Text(value) => Some(value),
            _ => None,
        }
    } else {
        None
    }
}

/// Contract `contract_name` is stored as `data`.
pub open spec fn is_contract(tables: Tables, contract_name: Seq<char>, data: Seq<char>) -> bool {
    exists|number: i64|
        {
            &&& #[trigger] tables[Table::Contracts].contains_key(number)
            &&& tables[Table::Contracts][number] == contract_row(contract_name, data)
        }
}

/// There is a contract `contract_name`.
pub open spec fn has_contract(tables: Tables, contract_name: Seq<char>) -> bool {
    holds(tables[Table::Contracts], 0, Cell::Text(contract_name))
}

/// `height` is the height of the highest block.
pub open spec fn is_tip(tables: Tables, height: i64) -> bool {
    &&& tables[Table::Blocks].contains_key(height)
    &&& forall|other: i64| #[trigger]
        tables[Table::Blocks].contains_key(other) ==> other <= height
}

/// No two rows hold the same in column `column`.
pub open spec fn is_unique(rows: Rows, column: int) -> bool {
    forall|a: i64, b: i64| #[trigger]
        rows.contains_key(a) && #[trigger] rows.contains_key(b) && rows[a][column]
            == rows[b][column] ==> a == b
}

/// All tables of the store are there.
pub open spec fn has_tables(tables: Tables) -> bool {
    &&& tables.contains_key(Table::Maps)
    &&& tables.contains_key(Table::Data)
    &&& tables.contains_key(Table::Contracts)
    &&& tables.contains_key(Table::Blocks)
}

/// The tables are all there, names are unique, and every entry belongs to a map.
pub open spec fn is_valid(tables: Tables) -> bool {
    &&& has_tables(tables)
    &&& is_unique(tables[Table::Maps], 1)
    &&& is_unique(tables[Table::Contracts], 0)
    &&& forall|number: i64| #[trigger]
        tables[Table::Data].contains_key(number) ==> {
            &&& tables[Table::Data][number][0] matches Cell::Integer(map)
            &&& tables[Table::Maps].contains_key(map)
        }
}

/// `after` is no worse than `before`: it has the tables of the store, is valid if `before` is, and
/// is the whole database if `before` is.
pub open spec fn stays_valid(before: Tables, after: Tables) -> bool {
    &&& has_tables(after)
    &&& is_valid(before) ==> is_valid(after)
    &&& is_whole(before) ==> is_whole(after)
}

/// Every one of `rows` is among `more`, as it was.
pub open spec fn are_among(rows: Rows, more: Rows) -> bool {
    forall|number: i64| #[trigger]
        rows.contains_key(number) ==> more.contains_key(number) && more[number] == rows[number]
}

/// Every row of `before` is in `after`, as it was.
pub open spec fn keeps_rows(before: Tables, after: Tables) -> bool {
    forall|table: Table| #[trigger]
        before.contains_key(table) ==> {
            &&& after.contains_key(table)
            &&& are_among(before[table], after[table])
        }
}

/// A new map keeps the database valid.
pub(crate) proof fn lemma_new_map_is_valid(before: Tables, after: Tables, row: Seq<Cell>)
    requires
        has_tables(before),
        inserted(before, after, Table::Maps, row),
    ensures
        stays_valid(before, after),
{
    let number = choose|number: i64| #[trigger]
        is_next(before[Table::Maps], number) && after == with_row(
            before,
            Table::Maps,
            number,
            row,
        );
    assert forall|a: i64, b: i64|
        is_valid(before) && #[trigger] after[Table::Maps].contains_key(a)
            && #[trigger] after[Table::Maps].contains_key(b) && after[Table::Maps][a][1]
            == after[Table::Maps][b][1] implies a == b by {
        if a != number {
            assert(before[Table::Maps].contains_key(a));
        }
        if b != number {
            assert(before[Table::Maps].contains_key(b));
        }
    }
    assert forall|n: i64|
        is_valid(before) && #[trigger] after[Table::Data].contains_key(n) implies {
        &&& after[Table::Data][n][0] matches Cell::Integer(m)
        &&& after[Table::Maps].contains_key(m)
    } by {
        assert(before[Table::Data].contains_key(n));
    }
}

/// A new contract keeps the database valid.
pub(crate) proof fn lemma_new_contract_is_valid(before: Tables, after: Tables, row: Seq<Cell>)
    requires
        has_tables(before),
        inserted(before, after, Table::Contracts, row),
    ensures
        stays_valid(before, after),
{
    let number = choose|number: i64| #[trigger]
        is_next(before[Table::Contracts], number) && after == with_row(
            before,
            Table::Contracts,
            number,
            row,
        );
    assert forall|a: i64, b: i64|
        is_valid(before) && #[trigger] after[Table::Contracts].contains_key(a)
            && #[trigger] after[Table::Contracts].contains_key(b) && after[Table::Contracts][a][0]
            == after[Table::Contracts][b][0] implies a == b by {
        if a != number {
            assert(before[Table::Contracts].contains_key(a));
        }
        if b != number {
            assert(before[Table::Contracts].contains_key(b));
        }
    }
}

} // verus!
