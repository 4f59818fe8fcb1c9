//! What the results and the errors of the store mean.

use crate::blocks::{
    block_row, cannot_extend, cannot_extend_in_time, is_chain, is_simulated, is_tip_at,
    simulated_bytes, stores_block, with_block, HEADER_HASH_MARK, VRF_SEED_MARK,
};
use crate::clock::{time_since_epoch, whole_seconds};
use crate::connection::{
    block_statements, create_statements, has_names, initialized, is_reading, is_reported_of,
    with_tables, ContractDatabaseConnection,
};
use crate::database::ContractDatabase;
use crate::entries::{entry_row, is_present, reads_as, recorded, Request};
use crate::errors::{error_in, reports, DatabaseError, ErrType, Fault};
use crate::laws::{law_contract_names_are_unique, law_map_names_are_unique};
use crate::sqlite::{breaks_constraint, is_described, says_no_row, Answer};
use crate::tables::{
    are_among, cells, contract_row, creates, entry, has_contract, has_map, has_tables, inserts,
    is_contract, is_map, is_tip, is_valid, is_whole, keeps_rows, map_row, stays_valid, Cell,
    SqlValue, Table, Tables, SELECT_BLOCK_HEADER_HASH, SELECT_BLOCK_TIME, SELECT_BLOCK_VRF_SEED,
    SELECT_CONTRACT, SELECT_ENTRY, SELECT_MAP, SELECT_SCHEMA, SELECT_TIP,
};
use crate::values::{Contract, Language, TypeSignature, Value};
use vstd::prelude::*;

verus! {

/// The bytes tell the height: a mark comes first, then thirty zeros, and the last byte is the
/// height but for a multiple of 256.
pub open spec fn tells_height(bytes: Seq<u8>, mark: int, height: int) -> bool {
    &&& bytes.len() == 32
    &&& bytes[0] == mark
    &&& forall|i: int| 1 <= i < 31 ==> #[trigger] bytes[i] == 0
    &&& exists|times: int| bytes[31] + #[trigger] (256 * times) == height
}

/// The simulated bytes of a block tell its height.
proof fn lemma_simulated_bytes_tell_height(mark: u8, height: i64)
    requires
        0 <= height,
    ensures
        tells_height(simulated_bytes(mark, height), mark as int, height as int),
{
    let times: int = height as int / 256;
    assert(simulated_bytes(mark, height)[31] + 256 * times == height);
}

/// Every block of a chain tells its height in its VRF seed and in its header hash: the first byte
/// is 1 or 2, thirty zeros follow, and the last byte and a multiple of 256 make up the height. A
/// height below 256 is the last byte itself.
pub proof fn law_block_tells_its_height(tables: Tables, tip: i64, height: i64)
    requires
        is_chain(tables, tip),
        0 <= height <= tip,
    ensures
        ({
            let row = tables[Table::Blocks][height];
            &&& row[1] matches Cell::Blob(seed)
            &&& row[2] matches Cell::Blob(hash)
            &&& seed.len() == 32 && hash.len() == 32
            &&& seed[0] == 1 && hash[0] == 2
            &&& forall|i: int| 1 <= i < 31 ==> #[trigger] seed[i] == 0
            &&& forall|i: int| 1 <= i < 31 ==> #[trigger] hash[i] == 0
            &&& (height - seed[31]) % 256 == 0
            &&& (height - hash[31]) % 256 == 0
            &&& height < 256 ==> seed[31] == height && hash[31] == height
        }),
{
    let row = tables[Table::Blocks][height];
    assert(is_simulated(row, height));
    lemma_simulated_bytes_tell_height(VRF_SEED_MARK, height);
    lemma_simulated_bytes_tell_height(HEADER_HASH_MARK, height);
}

/// Two blocks of a chain that are less than 256 blocks apart have different VRF seeds and different
/// header hashes.
pub proof fn law_near_blocks_differ(tables: Tables, tip: i64, a: i64, b: i64)
    requires
        is_chain(tables, tip),
        0 <= a < b <= tip,
        b - a < 256,
    ensures
        tables[Table::Blocks][a][1] != tables[Table::Blocks][b][1],
        tables[Table::Blocks][a][2] != tables[Table::Blocks][b][2],
{
    law_block_tells_its_height(tables, tip, a);
    law_block_tells_its_height(tables, tip, b);
}

/// A block that is added has the time it was given, and tells its height in its VRF seed and in its
/// header hash. No other block is changed.
pub proof fn law_added_block_tells_its_height(before: Tables, height: i64, time: i64, other: i64)
    requires
        0 <= height,
        other != height,
    ensures
        ({
            let rows = with_block(before, height, time)[Table::Blocks];
            &&& rows.contains_key(height)
            &&& rows[height].len() == 3
            &&& rows[height][0] == Cell::Integer(time)
            &&& rows[height][1] matches Cell::Blob(seed)
            &&& rows[height][2] matches Cell::Blob(hash)
            &&& tells_height(seed, 1, height as int)
            &&& tells_height(hash, 2, height as int)
            &&& rows.contains_key(other) <==> before[Table::Blocks].contains_key(other)
            &&& rows[other] == before[Table::Blocks][other]
        }),
{
    lemma_simulated_bytes_tell_height(VRF_SEED_MARK, height);
    lemma_simulated_bytes_tell_height(HEADER_HASH_MARK, height);
}

/// What is handed over to store a block is its height, its time, and bytes that tell the height.
pub proof fn law_stored_block_is_handed_over(
    statement: (Seq<char>, Seq<Cell>),
    height: i64,
    time: i64,
)
    requires
        0 <= height,
        stores_block(statement, height, time),
    ensures
        statement.1.len() == 4,
        statement.1[0] == Cell::Integer(height),
        statement.1[1] == Cell::Integer(time),
        statement.1[2] matches Cell::Blob(seed) && tells_height(seed, 1, height as int),
        statement.1[3] matches Cell::Blob(hash) && tells_height(hash, 2, height as int),
{
    lemma_simulated_bytes_tell_height(VRF_SEED_MARK, height);
    lemma_simulated_bytes_tell_height(HEADER_HASH_MARK, height);
}

/// Mining is not refused while there is room: on a tip whose height is a height and not the last
/// there can be, and whose time is a time at least 600 seconds before the last there can be, there
/// is no error but one of SQLite.
pub proof fn law_mining_is_not_refused(tables: Tables, tip: i64, time: i64, error: DatabaseError)
    requires
        has_tables(tables),
        is_tip(tables, tip),
        0 <= tip < i64::MAX,
    ensures
        !cannot_extend(tables, error),
        tables[Table::Blocks][tip][0] == Cell::Integer(time) && 0 <= time <= i64::MAX - 600
            ==> !cannot_extend_in_time(tables, error),
{
    assert(tables[Table::Blocks].contains_key(tip));
    assert forall|other: i64| is_tip(tables, other) implies other == tip by {
        assert(tables[Table::Blocks].contains_key(other));
    }
    if is_tip(tables, i64::MAX) {
        assert(tip == i64::MAX);
    }
}

/// Mining on a chain is not refused while there is room above its tip.
pub proof fn law_chain_can_be_extended(tables: Tables, tip: i64, error: DatabaseError)
    requires
        has_tables(tables),
        is_chain(tables, tip),
        tip < i64::MAX,
    ensures
        !cannot_extend(tables, error),
        exists|time: i64|
            {
                &&& 0 <= time
                &&& #[trigger] is_tip_at(tables, tip, time)
                &&& time <= i64::MAX - 600 ==> !cannot_extend_in_time(tables, error)
            },
{
    let rows = tables[Table::Blocks];
    assert(rows.contains_key(tip));
    assert(is_tip(tables, tip)) by {
        assert forall|other: i64| #[trigger] rows.contains_key(other) implies other <= tip by {}
    }
    assert(is_simulated(rows[tip], tip));
    let time = choose|time: i64|
        0 <= time && rows[tip] == #[trigger] block_row(tip, time);
    assert(is_tip_at(tables, tip, time));
    law_mining_is_not_refused(tables, tip, time, error);
}

/// What the errors of mining say: there is no block, or the height or the time of the highest one
/// leaves no room for another.
pub proof fn law_mining_errors_tell_why(tables: Tables, error: DatabaseError)
    requires
        has_tables(tables),
        cannot_extend(tables, error) || cannot_extend_in_time(tables, error),
    ensures
        match error.err_type {
            ErrType::Fatal(Fault::NoBlockHeight) => forall|height: i64|
                !(#[trigger] tables[Table::Blocks].contains_key(height)),
            ErrType::Fatal(Fault::BadTipHeight) => exists|tip: i64|
                tip < 0 && #[trigger] is_tip(tables, tip),
            ErrType::Fatal(Fault::HeightOverflow) => tables[Table::Blocks].contains_key(i64::MAX),
            ErrType::Fatal(Fault::BadTipTime) => exists|tip: i64, time: i64|
                time < 0 && #[trigger] is_tip_at(tables, tip, time),
            ErrType::Fatal(Fault::TimeOverflow) => exists|tip: i64, time: i64|
                time > i64::MAX - 600 && #[trigger] is_tip_at(tables, tip, time),
            _ => false,
        },
{
}

/// What is found is what a row says: a contract or a map is there if a row has its names, and the
/// tip is the height of a block that no other is above.
pub proof fn law_rows_say_what_is_there(
    tables: Tables,
    contract_name: Seq<char>,
    map_name: Seq<char>,
    data: Seq<char>,
    height: i64,
)
    ensures
        has_contract(tables, contract_name) <==> exists|number: i64| #[trigger]
            tables[Table::Contracts].contains_key(number)
                && tables[Table::Contracts][number][0] == Cell::Text(contract_name),
        is_contract(tables, contract_name, data) <==> exists|number: i64| #[trigger]
            tables[Table::Contracts].contains_key(number) && tables[Table::Contracts][number]
                == seq![Cell::Text(contract_name), Cell::Text(data)],
        has_map(tables, contract_name, map_name) <==> exists|number: i64| #[trigger]
            tables[Table::Maps].contains_key(number) && tables[Table::Maps][number][0]
                == Cell::Text(contract_name) && tables[Table::Maps][number][1] == Cell::Text(
                map_name,
            ),
        is_tip(tables, height) <==> {
            &&& tables[Table::Blocks].contains_key(height)
            &&& forall|other: i64|
                height < other ==> !(#[trigger] tables[Table::Blocks].contains_key(other))
        },
{
}

/// The tip is the one highest block.
pub proof fn law_tip_is_the_highest_block(tables: Tables, tip: i64, other: i64)
    requires
        is_tip(tables, tip),
        tables[Table::Blocks].contains_key(other),
    ensures
        tables[Table::Blocks].contains_key(tip),
        other <= tip,
        is_tip(tables, other) <==> other == tip,
{
}

/// An error of SQLite is given exactly when SQLite reported one: it is the error of the last call
/// that was made, and no call before that failed. If all calls went well, what is given is no error
/// of SQLite.
pub proof fn law_sqlite_errors_are_given<T>(
    before: Seq<Answer>,
    after: Seq<Answer>,
    res: Result<T, DatabaseError>,
)
    requires
        reports(before, after, error_in(res)),
    ensures
        before.len() <= after.len(),
        forall|i: int| 0 <= i < before.len() ==> #[trigger] after[i] == before[i],
        forall|i: int| before.len() <= i < after.len() - 1 ==> !((#[trigger] after[i]) is Failed),
        res matches Err(e) ==> match e.err_type {
            ErrType::Fatal(Fault::Sql(failure)) => {
                &&& before.len() < after.len()
                &&& after.last() == Answer::Failed(failure.err)
            },
            ErrType::SqliteError(failure) => {
                &&& before.len() < after.len()
                &&& after.last() == Answer::Failed(failure.err)
            },
            _ => before.len() == after.len() || !(after.last() is Failed),
        },
        res is Ok ==> before.len() == after.len() || !(after.last() is Failed),
{
}

/// If SQLite answers, a stored contract is given: after a query that went well, the result is `Ok`,
/// with the data that is stored under the name.
pub proof fn law_stored_contract_is_given(
    before: ContractDatabase,
    after: ContractDatabase,
    contract_name: Seq<char>,
    data: Seq<char>,
    res: Result<Contract, DatabaseError>,
)
    requires
        is_valid(before.tables()),
        is_contract(before.tables(), contract_name, data),
        after.reports(&before, res),
        after.answers().len() == before.answers().len() + 1,
        res matches Ok(contract) ==> is_contract(before.tables(), contract_name, contract@),
        res matches Err(e) ==> e.is_failure() || (e.err_type is UndefinedContract && !has_contract(
            before.tables(),
            contract_name,
        )),
    ensures
        match after.answers().last() {
            Answer::Failed(err) => res matches Err(e) && e.sqlite_error() == Some(err),
            _ => res matches Ok(contract) && contract@ == data,
        },
{
    law_sqlite_errors_are_given(before.answers(), after.answers(), res);
    law_contract_is_there(before.tables(), contract_name, data);
    if let Ok(contract) = res {
        law_contract_names_are_unique(before.tables(), contract_name, data, contract@);
    }
}

/// A contract that is stored as something is there.
pub proof fn law_contract_is_there(tables: Tables, contract_name: Seq<char>, data: Seq<char>)
    requires
        is_contract(tables, contract_name, data),
    ensures
        has_contract(tables, contract_name),
{
    let rows = tables[Table::Contracts];
    let number = choose|number: i64|
        {
            &&& #[trigger] rows.contains_key(number)
            &&& rows[number] == contract_row(contract_name, data)
        };
    assert(rows[number][0] == Cell::Text(contract_name));
}

/// A map that has a number and types is there, and only such a map is.
pub proof fn law_map_is_there(
    tables: Tables,
    contract_name: Seq<char>,
    map_name: Seq<char>,
    number: i64,
    key_type: Seq<char>,
    value_type: Seq<char>,
)
    requires
        is_map(tables, contract_name, map_name, number, key_type, value_type),
    ensures
        has_map(tables, contract_name, map_name),
        tables[Table::Maps].contains_key(number),
        tables[Table::Maps][number] == seq![
            Cell::Text(contract_name),
            Cell::Text(map_name),
            Cell::Text(key_type),
            Cell::Text(value_type),
        ],
{
    let row = map_row(contract_name, map_name, key_type, value_type);
    assert(row[0] == Cell::Text(contract_name) && row[1] == Cell::Text(map_name));
    assert(tables[Table::Maps].contains_key(number) && tables[Table::Maps][number] == row);
}

/// A statement is run once: what was handed over before stays, and one statement comes after it,
/// with the very text and the very values that were given.
pub proof fn law_statement_is_run_once(
    before: Seq<(Seq<char>, Seq<Cell>)>,
    after: Seq<(Seq<char>, Seq<Cell>)>,
    sql: Seq<char>,
    params: Seq<SqlValue>,
)
    requires
        after == before.push((sql, cells(params))),
    ensures
        after.len() == before.len() + 1,
        forall|i: int| 0 <= i < before.len() ==> #[trigger] after[i] == before[i],
        after.last().0 == sql,
        after.last().1.len() == params.len(),
        forall|i: int|
            0 <= i < params.len() ==> #[trigger] after.last().1[i] == match params[i] {
                SqlValue::Null => Cell::Null,
                SqlValue::Integer(value) => Cell::Integer(value),
                SqlValue::Text(text) => Cell::Text(text@),
                SqlValue::Blob(bytes) => Cell::Blob(bytes@),
            },
{
}

/// A savepoint in which one statement was run has run what it had run before and one statement
/// more, and a savepoint that was only read has run none.
pub proof fn law_runs_are_counted(before: ContractDatabase, after: ContractDatabase)
    ensures
        after.ran_one(&before) ==> {
            &&& after.statements().len() == before.statements().len() + 1
            &&& forall|i: int|
                0 <= i < before.statements().len() ==> #[trigger] after.statements()[i]
                    == before.statements()[i]
        },
        after.only_read(&before) ==> {
            &&& after.statements() == before.statements()
            &&& forall|i: int|
                before.answers().len() <= i < after.answers().len() ==> !((
                #[trigger] after.answers()[i]) is Changed) && !(after.answers()[i] is Moved)
        },
{
}

/// A database that is unchanged has the tables, the start and the outcome that it had; one that is
/// within another has its start and its outcome.
pub proof fn law_unchanged_database_is_the_same(before: ContractDatabase, after: ContractDatabase)
    ensures
        after.is_unchanged(&before) <==> {
            &&& after.tables() == before.tables()
            &&& after.start() == before.start()
            &&& after.outcome() == before.outcome()
        },
        after.is_within(&before) <==> {
            &&& after.start() == before.start()
            &&& after.outcome() == before.outcome()
        },
{
}

/// The four tables are all that the store needs, whatever they hold; a database is described if
/// anything is known of it.
pub proof fn law_tables_are_enough(tables: Tables, later: Tables, names: Set<Seq<char>>)
    ensures
        has_tables(tables) <==> {
            &&& tables.contains_key(Table::Maps)
            &&& tables.contains_key(Table::Data)
            &&& tables.contains_key(Table::Contracts)
            &&& tables.contains_key(Table::Blocks)
        },
        is_whole(tables) <==> tables.contains_key(Table::Schema),
        forall|table: Table| tables.contains_key(table) ==> is_described(tables),
        has_names(names) <==> {
            &&& names.contains("maps_table"@)
            &&& names.contains("data_table"@)
            &&& names.contains("contracts"@)
            &&& names.contains("simmed_block_table"@)
        },
        is_valid(tables) ==> has_tables(tables),
        stays_valid(tables, later) && is_valid(tables) ==> is_valid(later),
        stays_valid(tables, later) && is_whole(tables) ==> is_whole(later),
{
}

/// What the kinds of errors are.
pub proof fn law_errors_are_what_they_say(error: DatabaseError, fault: Fault)
    ensures
        error.is_fault(fault) <==> error.err_type == ErrType::Fatal(fault),
        error.is_sql_fault() <==> error.err_type matches ErrType::Fatal(Fault::Sql(_)),
        error.is_refusal() <==> (error.err_type matches ErrType::Fatal(Fault::Sql(failure))
            && breaks_constraint(failure.err)),
        error.is_failure() <==> (error.err_type matches ErrType::Fatal(Fault::Sql(failure))
            && !breaks_constraint(failure.err)),
        error.lacks_row() <==> (error.err_type matches ErrType::SqliteError(failure)
            && says_no_row(failure.err).no_row),
        error.sqlite_error() is Some <==> error.is_sql_fault() || error.err_type is SqliteError,
{
}

/// The application stops with a message that names the contract that exists, in full.
pub proof fn law_message_names_the_contract(name: String)
    ensures
        Fault::ContractExists(name).spec_message() == "Contract already exists "@ + name@,
{
}

/// What the language may answer is what its functions answer.
pub proof fn law_language_answers_for_itself<A, S, D>(
    language: Language<A, S, D>,
    text: Seq<char>,
    value: Value,
    answer: bool,
) where
    A: Fn(&TypeSignature, &Value) -> bool,
    S: Fn(&Value) -> String,
    D: Fn(&String) -> Value,

    ensures
        language.may_admit(text, value, answer) <==> exists|t: TypeSignature|
            t.text@ == text && #[trigger] call_ensures(language.admits, (&t, &value), answer),
        language.may_write(value, text) <==> exists|s: String|
            s@ == text && #[trigger] call_ensures(language.serialize, (&value,), s),
        language.may_read(text, value) <==> exists|s: String|
            s@ == text && #[trigger] call_ensures(language.deserialize, (&s,), value),
{
    if exists|t: TypeSignature|
        t.text@ == text && #[trigger] call_ensures(language.admits, (&t, &value), answer) {
        let t = choose|t: TypeSignature|
            t.text@ == text && #[trigger] call_ensures(language.admits, (&t, &value), answer);
        assert(t@ == text);
    }
    if exists|s: String|
        s@ == text && #[trigger] call_ensures(language.serialize, (&value,), s) {
        let s = choose|s: String|
            s@ == text && #[trigger] call_ensures(language.serialize, (&value,), s);
        assert(s@ == text);
    }
    if exists|s: String|
        s@ == text && #[trigger] call_ensures(language.deserialize, (&s,), value) {
        let s = choose|s: String|
            s@ == text && #[trigger] call_ensures(language.deserialize, (&s,), value);
        assert(s@ == text);
    }
}

/// A map that is there is found: if the language never says that the key type of the map does not
/// admit the key, a request is not answered by an error about its map or its key. If the language
/// never says that the value type does not admit the value, it is not answered by an error about
/// its value.
pub proof fn law_taken_request_is_not_refused<A, S, D>(
    asked: Request<A, S, D>,
    tables: Tables,
    map: i64,
    key_type: Seq<char>,
    value_type: Seq<char>,
    value: Value,
    error: DatabaseError,
) where
    A: Fn(&TypeSignature, &Value) -> bool,
    S: Fn(&Value) -> String,
    D: Fn(&String) -> Value,

    requires
        is_valid(tables),
        is_map(tables, asked.contract_name, asked.map_name, map, key_type, value_type),
    ensures
        !asked.language.may_admit(key_type, asked.key, false) ==> !asked.is_key_error(
            tables,
            error,
        ),
        !asked.language.may_admit(value_type, value, false) ==> !asked.is_value_error(
            tables,
            value,
            error,
        ),
{
    law_map_is_there(tables, asked.contract_name, asked.map_name, map, key_type, value_type);
    if asked.is_key_error(tables, error) && error.err_type is TypeError {
        let refused = error.err_type->TypeError_0@;
        let (m, v) = choose|m: i64, v: Seq<char>| asked.finds(tables, m, refused, v);
        law_map_names_are_unique(
            tables,
            asked.contract_name,
            asked.contract_name,
            asked.map_name,
            map,
            m,
            key_type,
            refused,
            value_type,
            v,
        );
    }
    if asked.is_value_error(tables, value, error) {
        let refused = error.err_type->TypeError_0@;
        let (m, k) = choose|m: i64, k: Seq<char>|
            {
                &&& #[trigger] asked.finds(tables, m, k, refused)
                &&& asked.language.may_admit(k, asked.key, true)
            };
        law_map_names_are_unique(
            tables,
            asked.contract_name,
            asked.contract_name,
            asked.map_name,
            map,
            m,
            key_type,
            k,
            value_type,
            refused,
        );
    }
}

/// What the errors of a request say: there is no such map, or its key type does not admit the key,
/// or its value type does not admit the value, as the language says.
pub proof fn law_request_errors_tell_why<A, S, D>(
    asked: Request<A, S, D>,
    tables: Tables,
    value: Value,
    error: DatabaseError,
) where
    A: Fn(&TypeSignature, &Value) -> bool,
    S: Fn(&Value) -> String,
    D: Fn(&String) -> Value,

    requires
        has_tables(tables),
        asked.is_key_error(tables, error) || asked.is_value_error(tables, value, error),
    ensures
        match error.err_type {
            ErrType::UndefinedMap(name) => {
                &&& name@ == asked.map_name
                &&& forall|number: i64|
                    #[trigger] tables[Table::Maps].contains_key(number) ==> {
                        ||| tables[Table::Maps][number][0] != Cell::Text(asked.contract_name)
                        ||| tables[Table::Maps][number][1] != Cell::Text(asked.map_name)
                    }
            },
            ErrType::TypeError(signature, refused) => {
                &&& refused == asked.key || refused == value
                &&& asked.language.may_admit(signature@, refused, false)
                &&& has_map(tables, asked.contract_name, asked.map_name)
            },
            _ => false,
        },
{
    if error.err_type is TypeError {
        let signature = error.err_type->TypeError_0@;
        if asked.is_key_error(tables, error) {
            let (m, v) = choose|m: i64, v: Seq<char>| asked.finds(tables, m, signature, v);
            law_map_is_there(tables, asked.contract_name, asked.map_name, m, signature, v);
        } else {
            let (m, k) = choose|m: i64, k: Seq<char>|
                {
                    &&& #[trigger] asked.finds(tables, m, k, signature)
                    &&& asked.language.may_admit(k, asked.key, true)
                };
            law_map_is_there(tables, asked.contract_name, asked.map_name, m, k, signature);
        }
    }
}

/// A request that is taken finds its map, with a key that its key type admits.
proof fn lemma_taken_key_is_admitted<A, S, D>(
    asked: Request<A, S, D>,
    tables: Tables,
    map: i64,
    text: Seq<char>,
) where
    A: Fn(&TypeSignature, &Value) -> bool,
    S: Fn(&Value) -> String,
    D: Fn(&String) -> Value,

    requires
        asked.takes_key(tables, map, text),
    ensures
        has_map(tables, asked.contract_name, asked.map_name),
        exists|key_type: Seq<char>| #[trigger]
            asked.language.may_admit(key_type, asked.key, true) && exists|value_type: Seq<char>|
                #[trigger]
                is_map(
                    tables,
                    asked.contract_name,
                    asked.map_name,
                    map,
                    key_type,
                    value_type,
                ),
{
    let (k, v) = choose|k: Seq<char>, v: Seq<char>|
        {
            &&& #[trigger] asked.finds(tables, map, k, v)
            &&& asked.language.may_admit(k, asked.key, true)
        };
    assert(is_map(tables, asked.contract_name, asked.map_name, map, k, v));
    law_map_is_there(tables, asked.contract_name, asked.map_name, map, k, v);
}

/// Without the map, nothing is read, written, inserted or deleted.
pub proof fn law_missing_map_takes_nothing<A, S, D>(
    asked: Request<A, S, D>,
    before: Tables,
    after: Tables,
    value: Value,
) where
    A: Fn(&TypeSignature, &Value) -> bool,
    S: Fn(&Value) -> String,
    D: Fn(&String) -> Value,

    requires
        !has_map(before, asked.contract_name, asked.map_name),
    ensures
        !asked.reads(before, value),
        !asked.writes(before, after, value),
        !asked.inserts(before, after, value),
        !asked.is_taken(before, value),
        !asked.deletes(before, after),
{
    assert forall|map: i64, text: Seq<char>| !#[trigger] asked.takes_key(before, map, text) by {
        if asked.takes_key(before, map, text) {
            lemma_taken_key_is_admitted(asked, before, map, text);
        }
    }
}

/// A key that its key type does not admit is neither read, written, inserted nor deleted.
pub proof fn law_refused_key_is_not_taken<A, S, D>(
    asked: Request<A, S, D>,
    before: Tables,
    after: Tables,
    map: i64,
    key_type: Seq<char>,
    value_type: Seq<char>,
    value: Value,
) where
    A: Fn(&TypeSignature, &Value) -> bool,
    S: Fn(&Value) -> String,
    D: Fn(&String) -> Value,

    requires
        is_valid(before),
        is_map(before, asked.contract_name, asked.map_name, map, key_type, value_type),
        !asked.language.may_admit(key_type, asked.key, true),
    ensures
        !asked.reads(before, value),
        !asked.writes(before, after, value),
        !asked.inserts(before, after, value),
        !asked.is_taken(before, value),
        !asked.deletes(before, after),
{
    assert forall|m: i64, text: Seq<char>| !#[trigger] asked.takes_key(before, m, text) by {
        if asked.takes_key(before, m, text) {
            let (k, v) = choose|k: Seq<char>, v: Seq<char>|
                {
                    &&& #[trigger] asked.finds(before, m, k, v)
                    &&& asked.language.may_admit(k, asked.key, true)
                };
            law_map_names_are_unique(
                before,
                asked.contract_name,
                asked.contract_name,
                asked.map_name,
                map,
                m,
                key_type,
                k,
                value_type,
                v,
            );
        }
    }
}

/// A value that its value type does not admit is neither written nor inserted.
pub proof fn law_refused_value_is_not_written<A, S, D>(
    asked: Request<A, S, D>,
    before: Tables,
    after: Tables,
    map: i64,
    key_type: Seq<char>,
    value_type: Seq<char>,
    value: Value,
) where
    A: Fn(&TypeSignature, &Value) -> bool,
    S: Fn(&Value) -> String,
    D: Fn(&String) -> Value,

    requires
        is_valid(before),
        is_map(before, asked.contract_name, asked.map_name, map, key_type, value_type),
        !asked.language.may_admit(value_type, value, true),
    ensures
        !asked.writes(before, after, value),
        !asked.inserts(before, after, value),
        !asked.is_taken(before, value),
{
    assert forall|m: i64| !#[trigger] asked.admits_value(before, value, m) by {
        if asked.admits_value(before, value, m) {
            let (k, v) = choose|k: Seq<char>, v: Seq<char>|
                {
                    &&& #[trigger] asked.finds(before, m, k, v)
                    &&& asked.language.may_admit(v, value, true)
                };
            law_map_names_are_unique(
                before,
                asked.contract_name,
                asked.contract_name,
                asked.map_name,
                map,
                m,
                key_type,
                k,
                value_type,
                v,
            );
        }
    }
}

/// What is deleted was there, what is taken is there, and what is inserted was not there: they read
/// as something, or as `Void`.
pub proof fn law_answers_tell_what_was_there<A, S, D>(
    asked: Request<A, S, D>,
    before: Tables,
    after: Tables,
    value: Value,
) where
    A: Fn(&TypeSignature, &Value) -> bool,
    S: Fn(&Value) -> String,
    D: Fn(&String) -> Value,

    ensures
        asked.deletes(before, after) ==> exists|read: Value| #[trigger]
            asked.reads(before, read) && read != Value::Void,
        asked.is_taken(before, value) ==> exists|read: Value| #[trigger]
            asked.reads(before, read) && read != Value::Void,
        asked.inserts(before, after, value) ==> asked.reads(before, Value::Void),
{
    if asked.deletes(before, after) {
        let (map, text) = choose|map: i64, text: Seq<char>|
            {
                &&& #[trigger] asked.takes_key(before, map, text)
                &&& is_present(entry(before, map, text), asked.language)
                &&& recorded(before, after, map, text, None)
            };
        let read = choose|read: Value| #[trigger]
            reads_as(entry(before, map, text), asked.language, read) && !(read is Void);
        assert(asked.takes_key(before, map, text));
        assert(asked.reads(before, read));
    }
    if asked.is_taken(before, value) {
        let (map, text) = choose|map: i64, text: Seq<char>|
            {
                &&& #[trigger] asked.takes_key(before, map, text)
                &&& asked.admits_value(before, value, map)
                &&& is_present(entry(before, map, text), asked.language)
            };
        let read = choose|read: Value| #[trigger]
            reads_as(entry(before, map, text), asked.language, read) && !(read is Void);
        assert(asked.takes_key(before, map, text));
        assert(asked.reads(before, read));
    }
    if asked.inserts(before, after, value) {
        let (map, text, value_text) = choose|map: i64, text: Seq<char>, value_text: Seq<char>|
            {
                &&& #[trigger] asked.takes_key(before, map, text)
                &&& asked.admits_value(before, value, map)
                &&& reads_as(entry(before, map, text), asked.language, Value::Void)
                &&& #[trigger] asked.language.may_write(value, value_text)
                &&& recorded(before, after, map, text, Some(value_text))
            };
        assert(asked.takes_key(before, map, text));
        assert(asked.reads(before, Value::Void));
    }
}

/// What a request hands over to be recorded is the number of the map, the text of its key, and the
/// text of the value, or null.
pub proof fn law_recorded_entry_is_handed_over<A, S, D>(
    asked: Request<A, S, D>,
    tables: Tables,
    value: Option<Value>,
    statement: (Seq<char>, Seq<Cell>),
) where
    A: Fn(&TypeSignature, &Value) -> bool,
    S: Fn(&Value) -> String,
    D: Fn(&String) -> Value,

    requires
        asked.is_recorded_by(tables, value, statement),
    ensures
        statement.1.len() == 3,
        statement.1[0] matches Cell::Integer(map) && tables[Table::Maps].contains_key(map)
            && tables[Table::Maps][map][1] == Cell::Text(asked.map_name),
        statement.1[1] matches Cell::Text(key_text) && asked.language.may_write(
            asked.key,
            key_text,
        ),
        match value {
            Some(v) => statement.1[2] matches Cell::Text(text) && asked.language.may_write(v, text),
            None => statement.1[2] == Cell::Null,
        },
{
    let (map, key_text, value_text) = choose|
        map: i64,
        key_text: Seq<char>,
        value_text: Option<Seq<char>>,
    |
        {
            &&& #[trigger] asked.takes_key(tables, map, key_text)
            &&& statement.1 == #[trigger] entry_row(map, key_text, value_text)
            &&& match (value, value_text) {
                (Some(v), Some(text)) => asked.language.may_write(v, text),
                (None, None) => true,
                _ => false,
            }
        };
    let row = entry_row(map, key_text, value_text);
    assert(row[0] == Cell::Integer(map) && row[1] == Cell::Text(key_text));
    let (k, v) = choose|k: Seq<char>, v: Seq<char>|
        {
            &&& #[trigger] asked.finds(tables, map, k, v)
            &&& asked.language.may_admit(k, asked.key, true)
        };
    assert(map_row(asked.contract_name, asked.map_name, k, v)[1] == Cell::Text(asked.map_name));
}

/// Initializing a database leaves every row that was there, and adds the blocks of the heights from
/// 0 to 19, ten minutes apart, the last of them ten minutes before the clock. It takes a clock of
/// at least 12000 seconds.
pub proof fn law_initialization_adds_blocks(
    before: Tables,
    after: Tables,
    time_now: int,
    height: i64,
)
    requires
        initialized(before, after, time_now),
    ensures
        12_000 <= time_now <= i64::MAX + 600,
        has_tables(after),
        keeps_rows(before, after),
        0 <= height <= 19 ==> {
            &&& after[Table::Blocks].contains_key(height)
            &&& !(before.contains_key(Table::Blocks) && before[Table::Blocks].contains_key(height))
            &&& after[Table::Blocks][height][0] matches Cell::Integer(time)
            &&& time == time_now - (20 - height) * 600
        },
        !(0 <= height <= 19) ==> {
            &&& after[Table::Blocks].contains_key(height) <==> (before.contains_key(Table::Blocks)
                && before[Table::Blocks].contains_key(height))
        },
        forall|table: Table|
            before.contains_key(table) && table != Table::Blocks ==> #[trigger] after[table]
                == before[table],
        forall|table: Table|
            !before.contains_key(table) && table != Table::Blocks && table != Table::Schema
                ==> #[trigger] after[table] == Map::<i64, Seq<Cell>>::empty(),
{
    let made = with_tables(before);
    assert forall|table: Table| #[trigger] before.contains_key(table) implies {
        &&& after.contains_key(table)
        &&& are_among(before[table], after[table])
    } by {
        assert(made.contains_key(table) && made[table] == before[table]);
        assert forall|number: i64| #[trigger] before[table].contains_key(number) implies {
            &&& after[table].contains_key(number)
            &&& after[table][number] == before[table][number]
        } by {
            if table == Table::Blocks {
                assert(made[Table::Blocks].contains_key(number));
                assert(!(0 <= number < 20));
            }
        }
    }
    if 0 <= height <= 19 {
        assert(!made[Table::Blocks].contains_key(height));
        assert(after[Table::Blocks].contains_key(height));
    }
}

/// What an initialization runs: it creates each table once, without values, and then stores the
/// blocks of the heights from 0 on, one by one, each ten minutes after the one before.
pub proof fn law_initialization_runs_these(time_now: int, count: nat, i: int)
    requires
        12_000 <= time_now <= i64::MAX + 600,
        0 <= i < count <= 20,
    ensures
        create_statements().len() == 4,
        creates(create_statements()[0].0, Table::Maps),
        creates(create_statements()[1].0, Table::Data),
        creates(create_statements()[2].0, Table::Contracts),
        creates(create_statements()[3].0, Table::Blocks),
        forall|k: int| 0 <= k < 4 ==> (#[trigger] create_statements()[k]).1.len() == 0,
        block_statements(count, time_now).len() == count,
        ({
            let statement = block_statements(count, time_now)[i];
            &&& inserts(statement.0, Table::Blocks)
            &&& statement.1.len() == 4
            &&& statement.1[0] matches Cell::Integer(height)
            &&& height == i
            &&& statement.1[1] matches Cell::Integer(time)
            &&& time == time_now - (20 - i) * 600
            &&& statement.1[2] matches Cell::Blob(seed)
            &&& tells_height(seed, 1, i)
            &&& statement.1[3] matches Cell::Blob(hash)
            &&& tells_height(hash, 2, i)
        }),
{
    let statement = block_statements(count, time_now)[i];
    let time = (time_now - (20 - i) * 600) as i64;
    assert(stores_block(statement, i as i64, time));
    law_stored_block_is_handed_over(statement, i as i64, time);
}

/// Types and contracts are their texts, in full.
pub proof fn law_texts_are_whole(signature: TypeSignature, contract: Contract)
    ensures
        signature@ == signature.text@,
        contract@ == contract.text@,
{
}

/// A reading of the clock is so many whole seconds after the Unix epoch.
pub proof fn law_reading_is_since_the_epoch(reading: std::time::SystemTime, time_now: int)
    ensures
        is_reading(reading, time_now) <==> (time_since_epoch(reading) matches Some(passed)
            && whole_seconds(passed) == time_now),
{
}

/// An error that opening a database gives is one that opening this file can give, or one that
/// SQLite reported on a connection to this file.
pub proof fn law_opening_errors_are_of_the_file(err: rusqlite::Error, filename: Seq<char>)
    requires
        is_reported_of(err, filename),
        !says_no_row(err).files.contains(filename),
    ensures
        exists|db: ContractDatabaseConnection|
            {
                &&& #[trigger] db.name() == filename
                &&& db.answers().len() > 0
                &&& db.answers().last() == Answer::Failed(err)
            },
{
}

/// The statements are these, word for word.
pub proof fn law_statements_are_these(sql: Seq<char>)
    ensures
        creates(sql, Table::Maps) ==> sql == "CREATE TABLE IF NOT EXISTS maps_table
                      (map_identifier INTEGER PRIMARY KEY AUTOINCREMENT,
                       contract_name TEXT NOT NULL,
                       map_name TEXT UNIQUE NOT NULL,
                       key_type TEXT NOT NULL,
                       value_type TEXT NOT NULL)"@,
        creates(sql, Table::Data) ==> sql == "CREATE TABLE IF NOT EXISTS data_table
                      (data_identifier INTEGER PRIMARY KEY AUTOINCREMENT,
                       map_identifier INTEGER NOT NULL,
                       key TEXT NOT NULL,
                       value TEXT)"@,
        creates(sql, Table::Contracts) ==> sql == "CREATE TABLE IF NOT EXISTS contracts
                      (contract_identifier INTEGER PRIMARY KEY AUTOINCREMENT,
                       contract_name TEXT UNIQUE NOT NULL,
                       contract_data TEXT NOT NULL)"@,
        creates(sql, Table::Blocks) ==> sql == "CREATE TABLE IF NOT EXISTS simmed_block_table
                      (block_height INTEGER PRIMARY KEY,
                       block_time INTEGER NOT NULL,
                       block_vrf_seed BLOB NOT NULL,
                       block_header_hash BLOB NOT NULL)"@,
        inserts(sql, Table::Maps) ==> sql
            == "INSERT INTO maps_table (contract_name, map_name, key_type, value_type) VALUES (?, ?, ?, ?)"@,
        inserts(sql, Table::Data) ==> sql
            == "INSERT INTO data_table (map_identifier, key, value) VALUES (?, ?, ?)"@,
        inserts(sql, Table::Contracts) ==> sql
            == "INSERT INTO contracts (contract_name, contract_data) VALUES (?, ?)"@,
        inserts(sql, Table::Blocks) ==> sql
            == "INSERT INTO simmed_block_table (block_height, block_time, block_vrf_seed, block_header_hash) VALUES (?1, ?2, ?3, ?4)"@,
        SELECT_SCHEMA@ == "SELECT sql FROM sqlite_master WHERE name=?"@,
        SELECT_MAP@
            == "SELECT map_identifier, key_type, value_type FROM maps_table WHERE contract_name = ? AND map_name = ?"@,
        SELECT_CONTRACT@ == "SELECT contract_data FROM contracts WHERE contract_name = ?"@,
        SELECT_ENTRY@
            == "SELECT value FROM data_table WHERE map_identifier = ? AND key = ? ORDER BY data_identifier DESC LIMIT 1"@,
        SELECT_TIP@
            == "SELECT block_height FROM simmed_block_table ORDER BY block_height DESC LIMIT 1"@,
        SELECT_BLOCK_TIME@
            == "SELECT block_time FROM simmed_block_table WHERE block_height = ? LIMIT 1"@,
        SELECT_BLOCK_HEADER_HASH@
            == "SELECT block_header_hash from simmed_block_table WHERE block_height = ? LIMIT 1"@,
        SELECT_BLOCK_VRF_SEED@
            == "SELECT block_vrf_seed from simmed_block_table WHERE block_height = ? LIMIT 1"@,
{
}

} // verus!
