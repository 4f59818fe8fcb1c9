//! The calls into `rusqlite`, each with what the store relies on.
//!
//! Nothing in this module is proved: the contracts below say what `rusqlite` and SQLite do. Any
//! of the calls may fail, for reasons of the machine (a full disk, a locked file, no memory);
//! nothing is said of a database after a call on it has failed, because SQLite then may have
//! given up the whole transaction. The exceptions are a statement that a constraint refuses, which
//! is undone alone, and a query that gives no row. A query breaks no constraint.

use crate::tables::{
    cells, executed, has_contract, has_map, inserts_into, is_about, is_contract, is_known, is_map,
    is_tip, is_whole, names, newest_says, refused, value_cell, Cell, Rows, SqlValue, Table, Tables,
    SELECT_BLOCK_HEADER_HASH, SELECT_BLOCK_TIME, SELECT_BLOCK_VRF_SEED, SELECT_CONTRACT,
    SELECT_ENTRY, SELECT_MAP, SELECT_SCHEMA, SELECT_TIP,
};
use rusqlite::OptionalExtension;
use vstd::prelude::*;

verus! {

/// A connection to a database.
#[verifier::external_type_specification]
#[verifier::external_body]
pub struct ExConnection(rusqlite::Connection);

/// A savepoint: a transaction that can be nested in another.
#[verifier::external_type_specification]
#[verifier::external_body]
pub struct ExSavepoint<'conn>(rusqlite::Savepoint<'conn>);

/// The reason of a failure.
#[verifier::external_type_specification]
#[verifier::external_body]
pub struct ExSqlError(rusqlite::Error);

/// The tables of the database behind a connection, as that connection sees them.
///
/// A table is a key if it was made by the `CREATE` statement of this crate, has no trigger or
/// further index, and holds integers, UTF-8 texts, blobs and nulls only. The map is empty if the
/// text encoding of the database is not UTF-8, if someone else may change the database while the
/// connection is open, if SQLite has given a transaction up, or if a statement handed to `execute`
/// has changed the settings of the connection.
pub uninterp spec fn connection_tables(conn: rusqlite::Connection) -> Tables;

/// The tables that the database behind a connection had when it was opened.
pub uninterp spec fn connection_start(conn: rusqlite::Connection) -> Tables;

/// The file name that a connection was opened with.
pub uninterp spec fn connection_name(conn: rusqlite::Connection) -> Seq<char>;

/// The answer of a call on a connection or a savepoint.
pub enum Answer {
    /// A statement was run, and changed this many rows.
    Changed(usize),
    /// A query was run.
    Read,
    /// A savepoint was made or rolled back.
    Moved,
    /// SQLite reported this error.
    Failed(rusqlite::Error),
}

/// How a savepoint goes.
pub enum End {
    /// It is dropped without a commit, up to then its tables are described, and the rollback that
    /// the drop makes goes well.
    Dropped,
    /// It is committed.
    Committed,
    /// Its commit fails with this error.
    Failed(rusqlite::Error),
    /// It goes in another way.
    Other,
}

/// What an error says.
pub struct Saying {
    /// A query gave no row: the error is `QueryReturnedNoRows`.
    pub no_row: bool,
    /// The names of the files that can give this error when they are opened.
    pub files: Set<Seq<char>>,
}

/// The statements handed to `execute` on a connection itself, with the values for their
/// placeholders, from the first to the last.
pub uninterp spec fn connection_statement(
    conn: rusqlite::Connection,
) -> Seq<(Seq<char>, Seq<Cell>)>;

/// The statements handed to `execute` on the connection of a savepoint, through that savepoint,
/// with the values for their placeholders, from the first to the last.
pub uninterp spec fn savepoint_statement(
    savepoint: rusqlite::Savepoint<'_>,
) -> Seq<(Seq<char>, Seq<Cell>)>;

/// The answers of the calls on a connection itself, from the first to the last.
pub uninterp spec fn connection_changes(conn: rusqlite::Connection) -> Seq<Answer>;

/// The answers of the calls through a savepoint, from the first to the last.
pub uninterp spec fn savepoint_changes(savepoint: rusqlite::Savepoint<'_>) -> Seq<Answer>;

/// The names in SQLite's list of what the database behind a connection holds, `sqlite_master`;
/// none, if someone else may change the database while the connection is open.
pub uninterp spec fn connection_schema(conn: rusqlite::Connection) -> Option<Set<Seq<char>>>;

/// What an error says: whether a query gave no row, and which files could not be opened.
pub uninterp spec fn says_no_row(err: rusqlite::Error) -> Saying;

/// The error says that SQLite refused a statement because of a constraint: it is a `SqliteFailure`
/// with the code `ConstraintViolation`.
pub uninterp spec fn breaks_constraint(err: rusqlite::Error) -> bool;

/// The tables of the database as the transaction of a savepoint sees them.
///
/// SQLite isolates a transaction from all others, so nobody else changes them. A table is a key
/// under the same conditions as for a connection. The map is empty if the text encoding of the
/// database is not UTF-8, if SQLite has given up the transaction or one around it, if a statement
/// handed to `execute` has begun, ended or nested transactions or has changed the settings of the
/// connection, or if the savepoint or one around it was named by hand or had its drop behaviour
/// set.
pub uninterp spec fn savepoint_tables(savepoint: rusqlite::Savepoint<'_>) -> Tables;

/// The tables that a savepoint goes back to when it is rolled back.
pub uninterp spec fn savepoint_start(savepoint: rusqlite::Savepoint<'_>) -> Tables;

/// The tables that the connection or savepoint around a savepoint has once the savepoint is gone.
///
/// They are settled when the savepoint is made, though nobody knows them yet.
pub uninterp spec fn savepoint_outcome(savepoint: rusqlite::Savepoint<'_>) -> Tables;

/// How the savepoint goes: whether it is dropped, or what becomes of its commit. This, too, is
/// settled when the savepoint is made.
pub uninterp spec fn savepoint_dropped(savepoint: rusqlite::Savepoint<'_>) -> End;

/// The two states of a savepoint are the same.
pub open spec fn is_kept(before: rusqlite::Savepoint<'_>, after: rusqlite::Savepoint<'_>) -> bool {
    &&& savepoint_tables(after) == savepoint_tables(before)
    &&& savepoint_start(after) == savepoint_start(before)
    &&& savepoint_outcome(after) == savepoint_outcome(before)
}

/// The map tells something of the database.
pub open spec fn is_described(tables: Tables) -> bool {
    tables != Map::<Table, Rows>::empty()
}

/// A database with nothing in it.
pub open spec fn empty_database() -> Tables {
    Map::empty().insert(Table::Schema, Map::empty())
}

/// Whether an error is `rusqlite::Error::QueryReturnedNoRows`.
#[verifier::external_body]
pub(crate) fn is_no_row(err: &rusqlite::Error) -> (res: bool)
    ensures
        res == says_no_row(*err).no_row,
{
    matches!(err, rusqlite::Error::QueryReturnedNoRows)
}

/// Whether an error is `rusqlite::Error::SqliteFailure` with the code
/// `rusqlite::ErrorCode::ConstraintViolation`.
#[verifier::external_body]
pub(crate) fn is_constraint(err: &rusqlite::Error) -> (res: bool)
    ensures
        res == breaks_constraint(*err),
{
    matches!(err, rusqlite::Error::SqliteFailure(failure, _)
        if failure.code == rusqlite::ErrorCode::ConstraintViolation)
}

/// `rusqlite::Connection::open`.
///
/// Opens the named file. The name `:memory:` opens a new, empty database in memory, which no other
/// connection reaches. What another file holds is for the file to say. A failure is one that
/// opening this file can give. Opening makes no query, so no failure says that a query gave no row.
#[verifier::external_body]
pub(crate) fn connect(filename: &str) -> (res: Result<rusqlite::Connection, rusqlite::Error>)
    ensures
        res matches Ok(conn) ==> {
            &&& connection_name(conn) == filename@
            &&& connection_tables(conn) == connection_start(conn)
            &&& connection_statement(conn).len() == 0
            &&& connection_changes(conn).len() == 0
            &&& filename@ == ":memory:"@ ==> {
                &&& connection_start(conn) == empty_database()
                &&& connection_schema(conn) == Some(Set::<Seq<char>>::empty())
            }
        },
        res matches Err(err) ==> {
            &&& !says_no_row(err).no_row
            &&& says_no_row(err).files.contains(filename@)
        },
{
    rusqlite::Connection::open(filename)
}

/// `rusqlite::Connection::execute` on a connection.
///
/// Runs one statement with the given values for its placeholders, and returns how many rows it
/// changed. A statement that a constraint refuses is undone, and nothing but it; an insertion of
/// values of the right kinds is refused only for a name or a height that is taken, as the tables
/// have no other constraint that such values can break. What a statement other than those in
/// [`crate::tables`] does is left unsaid.
#[verifier::external_body]
pub(crate) fn connection_execute(
    conn: &mut rusqlite::Connection,
    sql: &str,
    params: &Vec<SqlValue>,
) -> (res: Result<usize, rusqlite::Error>)
    ensures
        res matches Ok(changed) ==> executed(
            sql@,
            cells(params@),
            connection_tables(*old(conn)),
            connection_tables(*final(conn)),
            changed,
        ),
        res matches Err(err) ==> breaks_constraint(err) ==> refused(
            sql@,
            cells(params@),
            connection_tables(*old(conn)),
            connection_tables(*final(conn)),
        ),
        connection_statement(*final(conn)) == connection_statement(*old(conn)).push(
            (sql@, cells(params@)),
        ),
        connection_changes(*final(conn)) == connection_changes(*old(conn)).push(
            match res {
                Ok(changed) => Answer::Changed(changed),
                Err(err) => Answer::Failed(err),
            },
        ),
        connection_name(*final(conn)) == connection_name(*old(conn)),
        connection_start(*final(conn)) == connection_start(*old(conn)),
{
    conn.execute(sql, params.iter().map(|param| match param {
        SqlValue::Null => rusqlite::types::Value::Null,
        SqlValue::Integer(i) => rusqlite::types::Value::Integer(*i),
        SqlValue::Text(text) => rusqlite::types::Value::Text(text.clone()),
        SqlValue::Blob(bytes) => rusqlite::types::Value::Blob(bytes.clone()),
    }))
}

/// `rusqlite::Connection::query_row` on a connection, for the text that created a table.
///
/// There is such a text only if the name is in SQLite's list, and no row only if it is not.
#[verifier::external_body]
pub(crate) fn select_schema(
    conn: &mut rusqlite::Connection,
    sql: &str,
    name: &str,
) -> (res: Result<String, rusqlite::Error>)
    requires
        sql@ == SELECT_SCHEMA@,
    ensures
        res is Ok ==> {
            &&& connection_tables(*final(conn)) == connection_tables(*old(conn))
            &&& connection_schema(*final(conn)) == connection_schema(*old(conn))
            &&& connection_schema(*old(conn)) matches Some(names) ==> names.contains(name@)
        },
        res is Ok && is_whole(connection_tables(*old(conn))) ==> forall|table: Table| #[trigger]
            names(name@, table) ==> connection_tables(*old(conn)).contains_key(table),
        res matches Err(err) ==> says_no_row(err).no_row ==> {
            &&& connection_tables(*final(conn)) == connection_tables(*old(conn))
            &&& connection_schema(*final(conn)) == connection_schema(*old(conn))
            &&& connection_schema(*old(conn)) matches Some(names) ==> !names.contains(name@)
            &&& forall|table: Table| #[trigger]
                names(name@, table) ==> !connection_tables(*old(conn)).contains_key(table)
        },
        connection_statement(*final(conn)) == connection_statement(*old(conn)),
        connection_changes(*final(conn)) == connection_changes(*old(conn)).push(
            match res {
                Ok(_) => Answer::Read,
                Err(err) => Answer::Failed(err),
            },
        ),
        connection_name(*final(conn)) == connection_name(*old(conn)),
        connection_start(*final(conn)) == connection_start(*old(conn)),
{
    conn.query_row(sql, &[name], |row| row.get(0))
}

/// `rusqlite::Connection::savepoint`.
///
/// The savepoint starts from what the database holds, and what it leaves is what the database
/// then holds: what it held before, if the savepoint is dropped without a commit.
#[verifier::external_body]
pub(crate) fn connection_savepoint<'a>(conn: &'a mut rusqlite::Connection) -> (res: Result<
    rusqlite::Savepoint<'a>,
    rusqlite::Error,
>)
    ensures
        res matches Ok(savepoint) ==> is_whole(connection_tables(*old(conn))) ==> {
            &&& savepoint_tables(savepoint) == connection_tables(*old(conn))
            &&& connection_tables(*final(conn)) == savepoint_outcome(savepoint)
            &&& savepoint_dropped(savepoint) is Dropped ==> savepoint_outcome(savepoint)
                == savepoint_start(savepoint)
        },
        res matches Ok(savepoint) ==> {
            &&& savepoint_start(savepoint) == savepoint_tables(savepoint)
            &&& savepoint_statement(savepoint).len() == 0
            &&& savepoint_changes(savepoint).len() == 0
        },
        connection_statement(*final(conn)) == connection_statement(*old(conn)),
        connection_changes(*final(conn)) == connection_changes(*old(conn)).push(
            match res {
                Ok(_) => Answer::Moved,
                Err(err) => Answer::Failed(err),
            },
        ),
        connection_name(*final(conn)) == connection_name(*old(conn)),
        connection_start(*final(conn)) == connection_start(*old(conn)),
{
    conn.savepoint()
}

/// `rusqlite::Savepoint::savepoint`.
///
/// The inner savepoint starts from what the outer one sees, and what it leaves is what the outer
/// one then sees: what it saw before, if the inner one is dropped without a commit. What the outer
/// one goes back to stays what it was.
#[verifier::external_body]
pub(crate) fn nested_savepoint<'a>(savepoint: &'a mut rusqlite::Savepoint<'_>) -> (res: Result<
    rusqlite::Savepoint<'a>,
    rusqlite::Error,
>)
    ensures
        res matches Ok(inner) ==> {
            &&& savepoint_tables(inner) == savepoint_tables(*old(savepoint))
            &&& savepoint_start(inner) == savepoint_tables(*old(savepoint))
            &&& savepoint_tables(*final(savepoint)) == savepoint_outcome(inner)
            &&& savepoint_dropped(inner) is Dropped ==> savepoint_outcome(inner)
                == savepoint_start(inner)
            &&& savepoint_statement(inner).len() == 0
            &&& savepoint_changes(inner).len() == 0
            &&& savepoint_outcome(*final(savepoint)) == savepoint_outcome(*old(savepoint))
            &&& is_described(savepoint_tables(*final(savepoint)))
                ==> savepoint_start(*final(savepoint)) == savepoint_start(*old(savepoint))
        },
        savepoint_statement(*final(savepoint)) == savepoint_statement(*old(savepoint)),
        savepoint_changes(*final(savepoint)) == savepoint_changes(*old(savepoint)).push(
            match res {
                Ok(_) => Answer::Moved,
                Err(err) => Answer::Failed(err),
            },
        ),
{
    savepoint.savepoint()
}

/// `rusqlite::Savepoint::rollback`.
///
/// Undoes everything since the savepoint was made. The savepoint goes on.
#[verifier::external_body]
pub(crate) fn savepoint_rollback(savepoint: &mut rusqlite::Savepoint<'_>) -> (res: Result<
    (),
    rusqlite::Error,
>)
    ensures
        res is Ok && is_described(savepoint_tables(*old(savepoint))) ==> {
            &&& savepoint_tables(*final(savepoint)) == savepoint_start(*old(savepoint))
            &&& savepoint_start(*final(savepoint)) == savepoint_start(*old(savepoint))
            &&& savepoint_outcome(*final(savepoint)) == savepoint_outcome(*old(savepoint))
        },
        savepoint_statement(*final(savepoint)) == savepoint_statement(*old(savepoint)),
        savepoint_changes(*final(savepoint)) == savepoint_changes(*old(savepoint)).push(
            match res {
                Ok(_) => Answer::Moved,
                Err(err) => Answer::Failed(err),
            },
        ),
{
    savepoint.rollback()
}

/// `rusqlite::Savepoint::commit`.
///
/// Ends the savepoint, leaving what it sees. Whether that goes well is how the savepoint goes.
#[verifier::external_body]
pub(crate) fn savepoint_commit(savepoint: rusqlite::Savepoint<'_>) -> (res: Result<
    (),
    rusqlite::Error,
>)
    ensures
        res is Ok && is_described(savepoint_tables(savepoint)) ==> savepoint_outcome(savepoint)
            == savepoint_tables(savepoint),
        savepoint_dropped(savepoint) == match res {
            Ok(()) => End::Committed,
            Err(err) => End::Failed(err),
        },
{
    savepoint.commit()
}

/// `rusqlite::Connection::execute` on the connection of a savepoint.
///
/// Runs one statement with the given values for its placeholders, and returns how many rows it
/// changed. A statement that a constraint refuses is undone, and nothing but it; an insertion of
/// values of the right kinds is refused only for a name or a height that is taken, as the tables
/// have no other constraint that such values can break. What a statement other than those in
/// [`crate::tables`] does is left unsaid.
#[verifier::external_body]
pub(crate) fn savepoint_execute(
    savepoint: &mut rusqlite::Savepoint<'_>,
    sql: &str,
    params: &Vec<SqlValue>,
) -> (res: Result<usize, rusqlite::Error>)
    ensures
        res matches Ok(changed) ==> executed(
            sql@,
            cells(params@),
            savepoint_tables(*old(savepoint)),
            savepoint_tables(*final(savepoint)),
            changed,
        ),
        res is Ok && is_known(sql@) ==> {
            &&& savepoint_start(*final(savepoint)) == savepoint_start(*old(savepoint))
            &&& savepoint_outcome(*final(savepoint)) == savepoint_outcome(*old(savepoint))
        },
        res matches Err(err) ==> breaks_constraint(err) ==> {
            &&& refused(
                sql@,
                cells(params@),
                savepoint_tables(*old(savepoint)),
                savepoint_tables(*final(savepoint)),
            )
            &&& inserts_into(sql@, savepoint_tables(*old(savepoint))) ==> is_kept(
                *old(savepoint),
                *final(savepoint),
            )
        },
        savepoint_statement(*final(savepoint)) == savepoint_statement(*old(savepoint)).push(
            (sql@, cells(params@)),
        ),
        savepoint_changes(*final(savepoint)) == savepoint_changes(*old(savepoint)).push(
            match res {
                Ok(changed) => Answer::Changed(changed),
                Err(err) => Answer::Failed(err),
            },
        ),
{
    savepoint.execute(sql, params.iter().map(|param| match param {
        SqlValue::Null => rusqlite::types::Value::Null,
        SqlValue::Integer(i) => rusqlite::types::Value::Integer(*i),
        SqlValue::Text(text) => rusqlite::types::Value::Text(text.clone()),
        SqlValue::Blob(bytes) => rusqlite::types::Value::Blob(bytes.clone()),
    }))
}

/// `rusqlite::Connection::query_row` on the connection of a savepoint, for a map's number and
/// the texts of its types. `None` says that no row has the two names.
#[verifier::external_body]
pub(crate) fn select_map(
    savepoint: &mut rusqlite::Savepoint<'_>,
    sql: &str,
    contract_name: &str,
    map_name: &str,
) -> (res: Result<Option<(i64, String, String)>, rusqlite::Error>)
    requires
        sql@ == SELECT_MAP@,
    ensures
        res is Ok ==> is_kept(*old(savepoint), *final(savepoint)),
        res matches Err(err) ==> !breaks_constraint(err),
        savepoint_statement(*final(savepoint)) == savepoint_statement(*old(savepoint)),
        savepoint_changes(*final(savepoint)) == savepoint_changes(*old(savepoint)).push(
            match res {
                Ok(_) => Answer::Read,
                Err(err) => Answer::Failed(err),
            },
        ),
        res matches Ok(found) ==> savepoint_tables(*old(savepoint)).contains_key(
            Table::Maps,
        ) ==> match found {
            Some((number, key_type, value_type)) => is_map(
                savepoint_tables(*old(savepoint)),
                contract_name@,
                map_name@,
                number,
                key_type@,
                value_type@,
            ),
            None => !has_map(
                savepoint_tables(*old(savepoint)),
                contract_name@,
                map_name@,
            ),
        },
{
    savepoint.query_row(
        sql,
        &[contract_name, map_name],
        |row| Ok((row.get(0)?, row.get(1)?, row.get(2)?)),
    ).optional()
}

/// `rusqlite::Connection::query_row` on the connection of a savepoint, for the data of a
/// contract. `None` says that no row has the name.
#[verifier::external_body]
pub(crate) fn select_contract(
    savepoint: &mut rusqlite::Savepoint<'_>,
    sql: &str,
    contract_name: &str,
) -> (res: Result<Option<String>, rusqlite::Error>)
    requires
        sql@ == SELECT_CONTRACT@,
    ensures
        res is Ok ==> is_kept(*old(savepoint), *final(savepoint)),
        res matches Err(err) ==> !breaks_constraint(err),
        savepoint_statement(*final(savepoint)) == savepoint_statement(*old(savepoint)),
        savepoint_changes(*final(savepoint)) == savepoint_changes(*old(savepoint)).push(
            match res {
                Ok(_) => Answer::Read,
                Err(err) => Answer::Failed(err),
            },
        ),
        res matches Ok(found) ==> savepoint_tables(*old(savepoint)).contains_key(
            Table::Contracts,
        ) ==> match found {
            Some(data) => is_contract(
                savepoint_tables(*old(savepoint)),
                contract_name@,
                data@,
            ),
            None => !has_contract(
                savepoint_tables(*old(savepoint)),
                contract_name@,
            ),
        },
{
    savepoint.query_row(sql, &[contract_name], |row| row.get(0)).optional()
}

/// `rusqlite::Connection::query_row` on the connection of a savepoint, for the value in the
/// newest row about a key of a map. `None` says that no row is about it, and `Some(None)` that
/// the value is null.
#[verifier::external_body]
pub(crate) fn select_entry(
    savepoint: &mut rusqlite::Savepoint<'_>,
    sql: &str,
    map: i64,
    key: &str,
) -> (res: Result<Option<Option<String>>, rusqlite::Error>)
    requires
        sql@ == SELECT_ENTRY@,
    ensures
        res is Ok ==> is_kept(*old(savepoint), *final(savepoint)),
        res matches Err(err) ==> !breaks_constraint(err),
        savepoint_statement(*final(savepoint)) == savepoint_statement(*old(savepoint)),
        savepoint_changes(*final(savepoint)) == savepoint_changes(*old(savepoint)).push(
            match res {
                Ok(_) => Answer::Read,
                Err(err) => Answer::Failed(err),
            },
        ),
        res matches Ok(found) ==> savepoint_tables(*old(savepoint)).contains_key(
            Table::Data,
        ) ==> match found {
            Some(value) => newest_says(
                savepoint_tables(*old(savepoint))[Table::Data],
                map,
                key@,
                value_cell(value),
            ),
            None => forall|number: i64|
                !is_about(savepoint_tables(*old(savepoint))[Table::Data], number, map, key@),
        },
{
    savepoint.query_row(
        sql,
        &[&map as &dyn rusqlite::types::ToSql, &key],
        |row| row.get(0),
    ).optional()
}

/// `rusqlite::Connection::query_row` on the connection of a savepoint, for the height of the
/// highest block. `None` says that there is no block.
#[verifier::external_body]
pub(crate) fn select_tip(savepoint: &mut rusqlite::Savepoint<'_>, sql: &str) -> (res: Result<
    Option<i64>,
    rusqlite::Error,
>)
    requires
        sql@ == SELECT_TIP@,
    ensures
        res is Ok ==> is_kept(*old(savepoint), *final(savepoint)),
        res matches Err(err) ==> !breaks_constraint(err),
        savepoint_statement(*final(savepoint)) == savepoint_statement(*old(savepoint)),
        savepoint_changes(*final(savepoint)) == savepoint_changes(*old(savepoint)).push(
            match res {
                Ok(_) => Answer::Read,
                Err(err) => Answer::Failed(err),
            },
        ),
        res matches Ok(found) ==> savepoint_tables(*old(savepoint)).contains_key(
            Table::Blocks,
        ) ==> match found {
            Some(height) => is_tip(savepoint_tables(*old(savepoint)), height),
            None => forall|height: i64|
                !savepoint_tables(*old(savepoint))[Table::Blocks].contains_key(height),
        },
{
    savepoint.query_row(sql, rusqlite::NO_PARAMS, |row| row.get(0)).optional()
}

/// `rusqlite::Connection::query_row` on the connection of a savepoint, for the time of a block.
/// `None` says that there is no block of that height.
#[verifier::external_body]
pub(crate) fn select_block_time(
    savepoint: &mut rusqlite::Savepoint<'_>,
    sql: &str,
    height: i64,
) -> (res: Result<Option<i64>, rusqlite::Error>)
    requires
        sql@ == SELECT_BLOCK_TIME@,
    ensures
        res is Ok ==> is_kept(*old(savepoint), *final(savepoint)),
        res matches Err(err) ==> !breaks_constraint(err),
        savepoint_statement(*final(savepoint)) == savepoint_statement(*old(savepoint)),
        savepoint_changes(*final(savepoint)) == savepoint_changes(*old(savepoint)).push(
            match res {
                Ok(_) => Answer::Read,
                Err(err) => Answer::Failed(err),
            },
        ),
        res matches Ok(found) ==> savepoint_tables(*old(savepoint)).contains_key(
            Table::Blocks,
        ) ==> {
            let rows = savepoint_tables(*old(savepoint))[Table::Blocks];
            match found {
                Some(time) => rows.contains_key(height) && rows[height][0] == Cell::Integer(time),
                None => !rows.contains_key(height),
            }
        },
{
    savepoint.query_row(sql, &[height], |row| row.get(0)).optional()
}

/// `rusqlite::Connection::query_row` on the connection of a savepoint, for the VRF seed or the
/// header hash of a block. `None` says that there is no block of that height.
#[verifier::external_body]
pub(crate) fn select_block_bytes(
    savepoint: &mut rusqlite::Savepoint<'_>,
    sql: &str,
    height: i64,
) -> (res: Result<Option<Vec<u8>>, rusqlite::Error>)
    requires
        sql@ == SELECT_BLOCK_VRF_SEED@ || sql@ == SELECT_BLOCK_HEADER_HASH@,
    ensures
        res is Ok ==> is_kept(*old(savepoint), *final(savepoint)),
        res matches Err(err) ==> !breaks_constraint(err),
        savepoint_statement(*final(savepoint)) == savepoint_statement(*old(savepoint)),
        savepoint_changes(*final(savepoint)) == savepoint_changes(*old(savepoint)).push(
            match res {
                Ok(_) => Answer::Read,
                Err(err) => Answer::Failed(err),
            },
        ),
        res matches Ok(found) ==> savepoint_tables(*old(savepoint)).contains_key(
            Table::Blocks,
        ) ==> {
            let rows = savepoint_tables(*old(savepoint))[Table::Blocks];
            match found {
                Some(bytes) => {
                    &&& rows.contains_key(height)
                    &&& sql@ == SELECT_BLOCK_VRF_SEED@ ==> rows[height][1] == Cell::Blob(bytes@)
                    &&& sql@ == SELECT_BLOCK_HEADER_HASH@ ==> rows[height][2] == Cell::Blob(bytes@)
                },
                None => !rows.contains_key(height),
            }
        },
{
    savepoint.query_row(sql, &[height], |row| row.get(0)).optional()
}

} // verus!
