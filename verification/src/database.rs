//! The contract database, inside a savepoint.
//!
//! A statement that fails may make SQLite give the savepoint up, so reading, too, takes the
//! database exclusively.

use crate::blocks::{
    block_header_hash, block_params, block_time, block_vrf_seed, cannot_extend,
    cannot_extend_in_time, extends, is_tip_at, lemma_extends_further, lemma_new_block_is_valid,
    mined, next_height, next_time, stores_block, tip_height, with_block, HEIGHT_OVERFLOW_MESSAGE,
    SIMMED_BLOCK_TIME, TIME_OVERFLOW_MESSAGE, VRF_SEED_MESSAGE,
};
use crate::entries::{
    entry_row, lemma_newest_is_entry, lemma_no_row_is_no_entry, lemma_recorded_is_valid, reads_as,
    recorded, request,
};
use crate::errors::{
    error_in, lemma_reports_further, only_reads, reports, DatabaseError, ErrType, Fault,
    IncomparableError,
};
use crate::sqlite::{
    is_described, nested_savepoint, savepoint_changes, savepoint_commit, savepoint_dropped,
    savepoint_execute, savepoint_outcome, savepoint_rollback, savepoint_start, savepoint_statement,
    savepoint_tables, select_block_bytes, select_block_time, select_contract, select_entry,
    select_map, select_tip, Answer, End,
};
use crate::tables::{
    cells, contract_row, entry, executed, has_contract, has_map, has_tables, holds, inserted,
    inserts, inserts_into, is_contract, is_known, is_map, is_tip, lemma_new_contract_is_valid,
    lemma_new_map_is_valid, map_row, refused, stays_valid, Cell, SqlValue, Table, Tables,
    INSERT_BLOCK, INSERT_CONTRACT, INSERT_DATA, INSERT_MAP, SELECT_BLOCK_HEADER_HASH,
    SELECT_BLOCK_TIME, SELECT_BLOCK_VRF_SEED, SELECT_CONTRACT, SELECT_ENTRY, SELECT_MAP, SELECT_TIP,
};
use crate::values::{
    Contract, Language, SqliteDataMap, TypeSignature, VRFSeed, Value, VRF_SEED_LENGTH,
};
use vstd::prelude::*;

verus! {

/// The fault that SQLite failed to run a statement.
pub(crate) fn sql_fault(err: rusqlite::Error) -> (res: DatabaseError)
    ensures
        res.is_fault(Fault::Sql((IncomparableError { err }))),
{
    DatabaseError::new(ErrType::Fatal(Fault::Sql(IncomparableError { err })))
}

/// The descriptor of the map `map_name`, from the row that the database has for it.
pub fn describe_map(found: Option<(i64, String, String)>, map_name: &str) -> (res: Result<
    SqliteDataMap,
    DatabaseError,
>)
    ensures
        match found {
            Some((number, key_type, value_type)) => {
                &&& res matches Ok(map)
                &&& map.map_identifier == number
                &&& map.key_type@ == key_type@
                &&& map.value_type@ == value_type@
            },
            None => {
                &&& res matches Err(e)
                &&& e.err_type matches ErrType::UndefinedMap(name)
                &&& name@ == map_name@
            },
        },
{
    match found {
        Some((number, key_type, value_type)) => Ok(
            SqliteDataMap {
                map_identifier: number,
                key_type: TypeSignature::deserialize(key_type.as_str()),
                value_type: TypeSignature::deserialize(value_type.as_str()),
            },
        ),
        None => Err(DatabaseError::new(ErrType::UndefinedMap(map_name.to_owned()))),
    }
}

/// The value that the database has for a key: `Void` if no row is about the key, or if the
/// newest one says that there is nothing.
pub fn stored_value<A, S, D>(
    found: Option<Option<String>>,
    language: &Language<A, S, D>,
) -> (res: Value) where
    A: Fn(&TypeSignature, &Value) -> bool,
    S: Fn(&Value) -> String,
    D: Fn(&String) -> Value,

    requires
        language.answers(),
    ensures
        match found {
            Some(Some(text)) => language.may_read(text@, res),
            _ => res is Void,
        },
{
    match found {
        None => Value::Void,
        Some(value) => match value {
            None => Value::Void,
            Some(text) => (language.deserialize)(&text),
        },
    }
}

/// The text in what the database has for a key.
pub open spec fn stored_text(found: Option<Option<String>>) -> Option<Seq<char>> {
    match found {
        Some(Some(text)) => Some(text@),
        _ => None,
    }
}

/// The text of a value, if there is one.
pub open spec fn text_of(value: Option<String>) -> Option<Seq<char>> {
    match value {
        Some(text) => Some(text@),
        None => None,
    }
}

/// Checks that the type `expected` admits `value`, as the language says.
pub fn check_type<A, S, D>(
    expected: &TypeSignature,
    value: &Value,
    language: &Language<A, S, D>,
) -> (res: Result<(), DatabaseError>) where
    A: Fn(&TypeSignature, &Value) -> bool,
    S: Fn(&Value) -> String,
    D: Fn(&String) -> Value,

    requires
        language.answers(),
    ensures
        match res {
            Ok(()) => language.may_admit(expected@, *value, true),
            Err(e) => {
                &&& e.err_type matches ErrType::TypeError(signature, refused)
                &&& signature == *expected
                &&& refused == *value
                &&& language.may_admit(expected@, *value, false)
            },
        },
{
    if (language.admits)(expected, value) {
        Ok(())
    } else {
        Err(DatabaseError::new(ErrType::TypeError(expected.clone(), value.clone())))
    }
}

/// The contract `contract_name`, from what the database has under that name.
pub fn find_contract(found: Option<Contract>, contract_name: &str) -> (res: Result<
    Contract,
    DatabaseError,
>)
    ensures
        match found {
            Some(contract) => res == Ok::<Contract, DatabaseError>(contract),
            None => {
                &&& res matches Err(e)
                &&& e.err_type matches ErrType::UndefinedContract(name)
                &&& name@ == contract_name@
            },
        },
{
    match found {
        Some(contract) => Ok(contract),
        None => Err(DatabaseError::new(ErrType::UndefinedContract(contract_name.to_owned()))),
    }
}

/// Checks that the name `contract_name` is free, from what the database has under that name.
pub fn check_free(found: Option<Contract>, contract_name: &str) -> (res: Result<(), DatabaseError>)
    ensures
        match found {
            None => res is Ok,
            Some(_) => {
                &&& res matches Err(e)
                &&& e.err_type matches ErrType::Fatal(Fault::ContractExists(name))
                &&& name@ == contract_name@
            },
        },
{
    match found {
        None => Ok(()),
        Some(_) => Err(
            DatabaseError::new(ErrType::Fatal(Fault::ContractExists(contract_name.to_owned()))),
        ),
    }
}

/// The fault that the newest simulated block has no height, from the error of reading it.
fn tip_height_fault(error: DatabaseError) -> (res: DatabaseError)
    ensures
        match error.err_type {
            ErrType::Arithmetic(_) => res.is_fault(Fault::BadTipHeight),
            _ => res == error,
        },
{
    match error.err_type {
        ErrType::Arithmetic(_) => DatabaseError::new(ErrType::Fatal(Fault::BadTipHeight)),
        err_type => DatabaseError { err_type },
    }
}

/// The fault that the newest simulated block has no time, from the error of reading it.
fn tip_time_fault(error: DatabaseError) -> (res: DatabaseError)
    ensures
        match error.err_type {
            ErrType::Arithmetic(_) => res.is_fault(Fault::BadTipTime),
            _ => res == error,
        },
{
    match error.err_type {
        ErrType::Arithmetic(_) => DatabaseError::new(ErrType::Fatal(Fault::BadTipTime)),
        err_type => DatabaseError { err_type },
    }
}

/// The contract database, inside a savepoint.
pub struct ContractDatabase<'a> {
    savepoint: rusqlite::Savepoint<'a>,
}

impl<'a> ContractDatabase<'a> {
    /// The tables as they are now.
    pub closed spec fn tables(&self) -> Tables {
        savepoint_tables(self.savepoint)
    }

    /// The tables as a rollback makes them.
    pub closed spec fn start(&self) -> Tables {
        savepoint_start(self.savepoint)
    }

    /// The tables that this database leaves to what is around it.
    pub closed spec fn outcome(&self) -> Tables {
        savepoint_outcome(self.savepoint)
    }

    /// The statements handed to `execute` in this savepoint, with the values for their
    /// placeholders, from the first to the last.
    pub closed spec fn statements(&self) -> Seq<(Seq<char>, Seq<Cell>)> {
        savepoint_statement(self.savepoint)
    }

    /// What SQLite answered in this savepoint, from the first call to the last.
    pub closed spec fn answers(&self) -> Seq<Answer> {
        savepoint_changes(self.savepoint)
    }

    /// How the savepoint goes.
    pub closed spec fn ending(&self) -> End {
        savepoint_dropped(self.savepoint)
    }

    /// The statement last handed to `execute`, and the values for its placeholders.
    pub open spec fn statement(&self) -> (Seq<char>, Seq<Cell>) {
        self.statements().last()
    }

    /// How many rows the `execute` just made said it changed.
    pub open spec fn changes(&self) -> usize {
        match self.answers().last() {
            Answer::Changed(changed) => changed,
            _ => 0,
        }
    }

    /// The database is dropped without a commit, up to then its tables are described, and the
    /// rollback that the drop makes goes well.
    pub open spec fn is_dropped(&self) -> bool {
        self.ending() is Dropped
    }

    /// One statement was handed to `execute` since `other`.
    pub open spec fn ran_one(&self, other: &ContractDatabase) -> bool {
        self.statements() == other.statements().push(self.statement())
    }

    /// Every error of SQLite since `other` is the one in `res`, and what is in `res` is one.
    pub open spec fn reports<T>(
        &self,
        other: &ContractDatabase,
        res: Result<T, DatabaseError>,
    ) -> bool {
        reports(other.answers(), self.answers(), error_in(res))
    }

    /// Since `other` there were queries only, and no statement was handed to `execute`.
    pub open spec fn only_read(&self, other: &ContractDatabase) -> bool {
        &&& self.statements() == other.statements()
        &&& only_reads(other.answers(), self.answers())
    }

    /// Nothing but the tables is different from `other`.
    pub open spec fn is_within(&self, other: &ContractDatabase) -> bool {
        &&& self.start() == other.start()
        &&& self.outcome() == other.outcome()
    }

    /// Nothing is different from `other`.
    pub open spec fn is_unchanged(&self, other: &ContractDatabase) -> bool {
        &&& self.tables() == other.tables()
        &&& self.is_within(other)
    }

    /// The database inside the savepoint `sp`.
    pub fn from_savepoint(sp: rusqlite::Savepoint<'a>) -> (res: ContractDatabase<'a>)
        ensures
            res.tables() == savepoint_tables(sp),
            res.start() == savepoint_start(sp),
            res.outcome() == savepoint_outcome(sp),
            res.statements() == savepoint_statement(sp),
            res.answers() == savepoint_changes(sp),
            res.ending() == savepoint_dropped(sp),
    {
        ContractDatabase { savepoint: sp }
    }

    /// Runs the statement `sql` with `params` for its placeholders, and returns how many rows it
    /// changed.
    pub fn execute(&mut self, sql: &str, params: Vec<SqlValue>) -> (res: Result<
        usize,
        DatabaseError,
    >)
        ensures
            res matches Ok(changed) ==> executed(
                sql@,
                cells(params@),
                old(self).tables(),
                final(self).tables(),
                changed,
            ),
            res is Ok && is_known(sql@) ==> final(self).is_within(old(self)),
            res matches Err(e) ==> {
                &&& e.is_sql_fault()
                &&& e.is_refusal() ==> refused(
                    sql@,
                    cells(params@),
                    old(self).tables(),
                    final(self).tables(),
                )
                &&& e.is_refusal() && inserts_into(sql@, old(self).tables())
                    ==> final(self).is_unchanged(old(self))
            },
            final(self).statement() == (sql@, cells(params@)),
            res matches Ok(changed) ==> final(self).changes() == changed,
            final(self).statements() == old(self).statements().push((sql@, cells(params@))),
            final(self).answers().len() == old(self).answers().len() + 1,
            final(self).reports(old(self), res),
    {
        match savepoint_execute(&mut self.savepoint, sql, &params) {
            Ok(changed) => Ok(changed),
            Err(err) => Err(sql_fault(err)),
        }
    }

    /// The descriptor of the map `map_name` of contract `contract_name`.
    fn load_map(&mut self, contract_name: &str, map_name: &str) -> (res: Result<
        SqliteDataMap,
        DatabaseError,
    >)
        ensures
            match res {
                Ok(map) => has_tables(old(self).tables()) ==> is_map(
                    old(self).tables(),
                    contract_name@,
                    map_name@,
                    map.map_identifier,
                    map.key_type@,
                    map.value_type@,
                ),
                Err(e) => match e.err_type {
                    ErrType::UndefinedMap(name) => {
                        &&& name@ == map_name@
                        &&& has_tables(old(self).tables()) ==> !has_map(
                            old(self).tables(),
                            contract_name@,
                            map_name@,
                        )
                    },
                    _ => e.is_failure(),
                },
            },
            !(res matches Err(e) && e.is_failure()) ==> final(self).is_unchanged(old(self)),
            final(self).statement() == old(self).statement(),
            final(self).only_read(old(self)),
            final(self).answers().len() == old(self).answers().len() + 1,
            final(self).reports(old(self), res),
    {
        match select_map(&mut self.savepoint, SELECT_MAP, contract_name, map_name) {
            Ok(found) => describe_map(found, map_name),
            Err(err) => Err(sql_fault(err)),
        }
    }

    /// The contract `contract_name`, if there is one.
    fn load_contract(&mut self, contract_name: &str) -> (res: Result<
        Option<Contract>,
        DatabaseError,
    >)
        ensures
            match res {
                Ok(Some(contract)) => has_tables(old(self).tables()) ==> is_contract(
                    old(self).tables(),
                    contract_name@,
                    contract@,
                ),
                Ok(None) => has_tables(old(self).tables()) ==> !has_contract(
                    old(self).tables(),
                    contract_name@,
                ),
                Err(e) => e.is_failure(),
            },
            res is Ok ==> final(self).is_unchanged(old(self)),
            final(self).statement() == old(self).statement(),
            final(self).only_read(old(self)),
            final(self).answers().len() == old(self).answers().len() + 1,
            final(self).reports(old(self), res),
    {
        match select_contract(&mut self.savepoint, SELECT_CONTRACT, contract_name) {
            Ok(Some(data)) => Ok(Some(Contract::deserialize(data.as_str()))),
            Ok(None) => Ok(None),
            Err(err) => Err(sql_fault(err)),
        }
    }

    /// What the database has under the text `key` in map number `map`.
    fn look_up(&mut self, map: i64, key: &str) -> (res: Result<
        Option<Option<String>>,
        DatabaseError,
    >)
        ensures
            match res {
                Ok(found) => {
                    &&& final(self).is_unchanged(old(self))
                    &&& has_tables(old(self).tables()) ==> entry(old(self).tables(), map, key@)
                        == stored_text(found)
                },
                Err(e) => e.is_failure(),
            },
            final(self).statement() == old(self).statement(),
            final(self).only_read(old(self)),
            final(self).answers().len() == old(self).answers().len() + 1,
            final(self).reports(old(self), res),
    {
        match select_entry(&mut self.savepoint, SELECT_ENTRY, map, key) {
            Ok(found) => {
                proof {
                    let tables = old(self).tables();
                    if has_tables(tables) {
                        if found is Some {
                            lemma_newest_is_entry(tables, map, key@, stored_text(found));
                        } else {
                            lemma_no_row_is_no_entry(tables, map, key@);
                        }
                    }
                }
                Ok(found)
            },
            Err(err) => Err(sql_fault(err)),
        }
    }

    /// Records that map number `map` holds `value`, or nothing, under the text `key`.
    fn record(&mut self, map: i64, key: String, value: Option<String>) -> (res: Result<
        (),
        DatabaseError,
    >)
        ensures
            match res {
                Ok(()) => {
                    &&& final(self).is_within(old(self))
                    &&& has_tables(old(self).tables()) ==> recorded(
                        old(self).tables(),
                        final(self).tables(),
                        map,
                        key@,
                        text_of(value),
                    )
                },
                Err(e) => e.is_sql_fault() && (has_tables(old(self).tables()) ==> e.is_failure()),
            },
            final(self).statement() == (INSERT_DATA@, entry_row(map, key@, text_of(value))),
            final(self).ran_one(old(self)),
            final(self).reports(old(self), res),
    {
        let ghost row = entry_row(map, key@, text_of(value));
        let mut params: Vec<SqlValue> = Vec::new();
        params.push(SqlValue::Integer(map));
        params.push(SqlValue::Text(key));
        params.push(
            match value {
                Some(text) => SqlValue::Text(text),
                None => SqlValue::Null,
            },
        );
        assert(cells(params@) =~= row);
        assert(inserts(INSERT_DATA@, Table::Data));
        match self.execute(INSERT_DATA, params) {
            Ok(_) => Ok(()),
            Err(e) => Err(e),
        }
    }

    /// What the map `map_name` of contract `contract_name` holds under `key`: `Void` if nothing.
    pub fn fetch_entry<A, S, D>(
        &mut self,
        contract_name: &str,
        map_name: &str,
        key: &Value,
        language: &Language<A, S, D>,
    ) -> (res: Result<Value, DatabaseError>) where
        A: Fn(&TypeSignature, &Value) -> bool,
        S: Fn(&Value) -> String,
        D: Fn(&String) -> Value,

        requires
            language.answers(),
        ensures
            ({
                let asked = request(contract_name@, map_name@, *language, *key);
                let before = old(self).tables();
                match res {
                    Ok(value) => {
                        &&& final(self).is_unchanged(old(self))
                        &&& has_tables(before) ==> asked.reads(before, value)
                    },
                    Err(e) => {
                        ||| e.is_failure()
                        ||| {
                            &&& final(self).is_unchanged(old(self))
                            &&& asked.is_key_error(before, e)
                        }
                    },
                }
            }),
            final(self).statement() == old(self).statement(),
            final(self).only_read(old(self)),
            final(self).answers().len() <= old(self).answers().len() + 2,
            final(self).reports(old(self), res),
    {
        proof {
            lemma_reports_further();
        }
        let ghost asked = request(contract_name@, map_name@, *language, *key);
        let ghost before = self.tables();
        let map = match self.load_map(contract_name, map_name) {
            Ok(map) => map,
            Err(e) => {
                return Err(e);
            },
        };
        assert(has_tables(before) ==> asked.finds(
            before,
            map.map_identifier,
            map.key_type@,
            map.value_type@,
        ));
        match check_type(&map.key_type, key, language) {
            Ok(()) => {},
            Err(e) => {
                return Err(e);
            },
        }
        let key_text = (language.serialize)(key);
        match self.look_up(map.map_identifier, key_text.as_str()) {
            Ok(found) => {
                let value = stored_value(found, language);
                assert(has_tables(before) ==> asked.takes_key(
                    before,
                    map.map_identifier,
                    key_text@,
                ));
                Ok(value)
            },
            Err(e) => Err(e),
        }
    }

    /// Makes the map `map_name` of contract `contract_name` hold `value` under `key`.
    pub fn set_entry<A, S, D>(
        &mut self,
        contract_name: &str,
        map_name: &str,
        key: Value,
        value: Value,
        language: &Language<A, S, D>,
    ) -> (res: Result<Value, DatabaseError>) where
        A: Fn(&TypeSignature, &Value) -> bool,
        S: Fn(&Value) -> String,
        D: Fn(&String) -> Value,

        requires
            language.answers(),
        ensures
            ({
                let asked = request(contract_name@, map_name@, *language, key);
                let before = old(self).tables();
                match res {
                    Ok(answer) => {
                        &&& answer is Void
                        &&& final(self).is_within(old(self))
                        &&& has_tables(before) ==> {
                            &&& stays_valid(before, final(self).tables())
                            &&& asked.writes(before, final(self).tables(), value)
                        }
                    },
                    Err(e) => {
                        ||| e.is_sql_fault() && (has_tables(before) ==> e.is_failure())
                        ||| {
                            &&& final(self).is_unchanged(old(self))
                            &&& asked.is_key_error(before, e) || asked.is_value_error(
                                before,
                                value,
                                e,
                            )
                        }
                    },
                }
            }),
            ({
                let asked = request(contract_name@, map_name@, *language, key);
                let before = old(self).tables();
                ||| final(self).statement() == old(self).statement()
                ||| has_tables(before) ==> asked.is_recorded_by(
                    before,
                    Some(value),
                    final(self).statement(),
                )
            }),
            if res is Ok {
                final(self).ran_one(old(self))
            } else if error_in(res) is Some {
                final(self).ran_one(old(self)) || final(self).only_read(old(self))
            } else {
                final(self).only_read(old(self))
            },
            final(self).reports(old(self), res),
    {
        proof {
            lemma_reports_further();
        }
        let ghost asked = request(contract_name@, map_name@, *language, key);
        let ghost before = self.tables();
        let map = match self.load_map(contract_name, map_name) {
            Ok(map) => map,
            Err(e) => {
                return Err(e);
            },
        };
        let number: i64 = map.map_identifier;
        assert(has_tables(before) ==> asked.finds(before, number, map.key_type@, map.value_type@));
        match check_type(&map.key_type, &key, language) {
            Ok(()) => {},
            Err(e) => {
                return Err(e);
            },
        }
        match check_type(&map.value_type, &value, language) {
            Ok(()) => {},
            Err(e) => {
                return Err(e);
            },
        }
        let key_text = (language.serialize)(&key);
        let value_text = (language.serialize)(&value);
        let ghost key_written = key_text@;
        let ghost value_written = value_text@;
        assert(has_tables(before) ==> asked.takes_key(before, number, key_written));
        assert(language.may_write(value, value_written));
        match self.record(number, key_text, Some(value_text)) {
            Ok(()) => {
                proof {
                    if has_tables(before) {
                        let after = self.tables();
                        lemma_recorded_is_valid(
                            before,
                            after,
                            number,
                            key_written,
                            Some(value_written),
                        );
                    }
                }
                Ok(Value::Void)
            },
            Err(e) => Err(e),
        }
    }

    /// Makes the map `map_name` of contract `contract_name` hold `value` under `key`, unless it
    /// holds something under it already. The answer is whether it now does.
    pub fn insert_entry<A, S, D>(
        &mut self,
        contract_name: &str,
        map_name: &str,
        key: Value,
        value: Value,
        language: &Language<A, S, D>,
    ) -> (res: Result<Value, DatabaseError>) where
        A: Fn(&TypeSignature, &Value) -> bool,
        S: Fn(&Value) -> String,
        D: Fn(&String) -> Value,

        requires
            language.answers(),
        ensures
            ({
                let asked = request(contract_name@, map_name@, *language, key);
                let before = old(self).tables();
                match res {
                    Ok(Value::Bool(true)) => {
                        &&& final(self).is_within(old(self))
                        &&& has_tables(before) ==> {
                            &&& stays_valid(before, final(self).tables())
                            &&& asked.inserts(before, final(self).tables(), value)
                        }
                    },
                    Ok(Value::Bool(false)) => {
                        &&& final(self).is_unchanged(old(self))
                        &&& has_tables(before) ==> asked.is_taken(before, value)
                    },
                    Ok(_) => false,
                    Err(e) => {
                        ||| e.is_sql_fault() && (has_tables(before) ==> e.is_failure())
                        ||| {
                            &&& final(self).is_unchanged(old(self))
                            &&& asked.is_key_error(before, e) || asked.is_value_error(
                                before,
                                value,
                                e,
                            )
                        }
                    },
                }
            }),
            ({
                let asked = request(contract_name@, map_name@, *language, key);
                let before = old(self).tables();
                ||| final(self).statement() == old(self).statement()
                ||| has_tables(before) ==> asked.is_recorded_by(
                    before,
                    Some(value),
                    final(self).statement(),
                )
            }),
            if res matches Ok(answer) && answer == Value::Bool(true) {
                final(self).ran_one(old(self))
            } else if error_in(res) is Some {
                final(self).ran_one(old(self)) || final(self).only_read(old(self))
            } else {
                final(self).only_read(old(self))
            },
            final(self).reports(old(self), res),
    {
        proof {
            lemma_reports_further();
        }
        let ghost asked = request(contract_name@, map_name@, *language, key);
        let ghost before = self.tables();
        let map = match self.load_map(contract_name, map_name) {
            Ok(map) => map,
            Err(e) => {
                return Err(e);
            },
        };
        let number: i64 = map.map_identifier;
        assert(has_tables(before) ==> asked.finds(before, number, map.key_type@, map.value_type@));
        match check_type(&map.key_type, &key, language) {
            Ok(()) => {},
            Err(e) => {
                return Err(e);
            },
        }
        match check_type(&map.value_type, &value, language) {
            Ok(()) => {},
            Err(e) => {
                return Err(e);
            },
        }
        let key_text = (language.serialize)(&key);
        let ghost key_written = key_text@;
        let present = match self.look_up(number, key_text.as_str()) {
            Ok(found) => stored_value(found, language),
            Err(e) => {
                return Err(e);
            },
        };
        assert(has_tables(before) ==> asked.takes_key(before, number, key_written));
        assert(has_tables(before) ==> reads_as(
            entry(before, number, key_written),
            *language,
            present,
        ));
        match present {
            Value::Void => {},
            _ => {
                return Ok(Value::Bool(false));
            },
        }
        let value_text = (language.serialize)(&value);
        let ghost value_written = value_text@;
        assert(language.may_write(value, value_written));
        match self.record(number, key_text, Some(value_text)) {
            Ok(()) => {
                proof {
                    if has_tables(before) {
                        let after = self.tables();
                        lemma_recorded_is_valid(
                            before,
                            after,
                            number,
                            key_written,
                            Some(value_written),
                        );
                    }
                }
                Ok(Value::Bool(true))
            },
            Err(e) => Err(e),
        }
    }

    /// Makes the map `map_name` of contract `contract_name` hold nothing under `key`. The answer
    /// is whether it held something.
    pub fn delete_entry<A, S, D>(
        &mut self,
        contract_name: &str,
        map_name: &str,
        key: &Value,
        language: &Language<A, S, D>,
    ) -> (res: Result<Value, DatabaseError>) where
        A: Fn(&TypeSignature, &Value) -> bool,
        S: Fn(&Value) -> String,
        D: Fn(&String) -> Value,

        requires
            language.answers(),
        ensures
            ({
                let asked = request(contract_name@, map_name@, *language, *key);
                let before = old(self).tables();
                match res {
                    Ok(Value::Bool(true)) => {
                        &&& final(self).is_within(old(self))
                        &&& has_tables(before) ==> {
                            &&& stays_valid(before, final(self).tables())
                            &&& asked.deletes(before, final(self).tables())
                        }
                    },
                    Ok(Value::Bool(false)) => {
                        &&& final(self).is_unchanged(old(self))
                        &&& has_tables(before) ==> asked.reads(before, Value::Void)
                    },
                    Ok(_) => false,
                    Err(e) => {
                        ||| e.is_sql_fault() && (has_tables(before) ==> e.is_failure())
                        ||| {
                            &&& final(self).is_unchanged(old(self))
                            &&& asked.is_key_error(before, e)
                        }
                    },
                }
            }),
            ({
                let asked = request(contract_name@, map_name@, *language, *key);
                let before = old(self).tables();
                ||| final(self).statement() == old(self).statement()
                ||| has_tables(before) ==> asked.is_recorded_by(
                    before,
                    None,
                    final(self).statement(),
                )
            }),
            if res matches Ok(answer) && answer == Value::Bool(true) {
                final(self).ran_one(old(self))
            } else if error_in(res) is Some {
                final(self).ran_one(old(self)) || final(self).only_read(old(self))
            } else {
                final(self).only_read(old(self))
            },
            final(self).reports(old(self), res),
    {
        proof {
            lemma_reports_further();
        }
        let ghost asked = request(contract_name@, map_name@, *language, *key);
        let ghost before = self.tables();
        let map = match self.load_map(contract_name, map_name) {
            Ok(map) => map,
            Err(e) => {
                return Err(e);
            },
        };
        let number: i64 = map.map_identifier;
        assert(has_tables(before) ==> asked.finds(before, number, map.key_type@, map.value_type@));
        match check_type(&map.key_type, key, language) {
            Ok(()) => {},
            Err(e) => {
                return Err(e);
            },
        }
        let key_text = (language.serialize)(key);
        let ghost key_written = key_text@;
        let present = match self.look_up(number, key_text.as_str()) {
            Ok(found) => stored_value(found, language),
            Err(e) => {
                return Err(e);
            },
        };
        assert(has_tables(before) ==> asked.takes_key(before, number, key_written));
        assert(has_tables(before) ==> reads_as(
            entry(before, number, key_written),
            *language,
            present,
        ));
        match present {
            Value::Void => {
                return Ok(Value::Bool(false));
            },
            _ => {},
        }
        match self.record(number, key_text, None) {
            Ok(()) => {
                proof {
                    if has_tables(before) {
                        let after = self.tables();
                        lemma_recorded_is_valid(before, after, number, key_written, None);
                    }
                }
                Ok(Value::Bool(true))
            },
            Err(e) => Err(e),
        }
    }

    /// Gives contract `contract_name` a map `map_name` with these types.
    pub fn create_map(
        &mut self,
        contract_name: &str,
        map_name: &str,
        key_type: TypeSignature,
        value_type: TypeSignature,
    ) -> (res: Result<(), DatabaseError>)
        ensures
            match res {
                Ok(()) => {
                    &&& final(self).is_within(old(self))
                    &&& has_tables(old(self).tables()) ==> {
                        &&& stays_valid(old(self).tables(), final(self).tables())
                        &&& inserted(
                            old(self).tables(),
                            final(self).tables(),
                            Table::Maps,
                            map_row(contract_name@, map_name@, key_type@, value_type@),
                        )
                    }
                },
                Err(e) => {
                    &&& e.is_sql_fault()
                    &&& e.is_refusal() && has_tables(old(self).tables()) ==> {
                        &&& final(self).is_unchanged(old(self))
                        &&& holds(old(self).tables()[Table::Maps], 1, Cell::Text(map_name@))
                    }
                },
            },
            final(self).statement() == (
                INSERT_MAP@,
                map_row(contract_name@, map_name@, key_type@, value_type@),
            ),
            final(self).ran_one(old(self)),
            final(self).reports(old(self), res),
    {
        let ghost row = map_row(contract_name@, map_name@, key_type@, value_type@);
        let ghost before = self.tables();
        let mut params: Vec<SqlValue> = Vec::new();
        params.push(SqlValue::Text(contract_name.to_owned()));
        params.push(SqlValue::Text(map_name.to_owned()));
        params.push(SqlValue::Text(key_type.serialize()));
        params.push(SqlValue::Text(value_type.serialize()));
        assert(cells(params@) =~= row);
        assert(inserts(INSERT_MAP@, Table::Maps));
        match self.execute(INSERT_MAP, params) {
            Ok(_) => {
                proof {
                    if has_tables(before) {
                        lemma_new_map_is_valid(before, self.tables(), row);
                    }
                }
                Ok(())
            },
            Err(e) => Err(e),
        }
    }

    /// The contract `contract_name`.
    pub fn get_contract(&mut self, contract_name: &str) -> (res: Result<Contract, DatabaseError>)
        ensures
            match res {
                Ok(contract) => {
                    &&& final(self).is_unchanged(old(self))
                    &&& has_tables(old(self).tables()) ==> is_contract(
                        old(self).tables(),
                        contract_name@,
                        contract@,
                    )
                },
                Err(e) => {
                    ||| e.is_failure()
                    ||| {
                        &&& final(self).is_unchanged(old(self))
                        &&& e.err_type matches ErrType::UndefinedContract(name)
                        &&& name@ == contract_name@
                        &&& has_tables(old(self).tables()) ==> !has_contract(
                            old(self).tables(),
                            contract_name@,
                        )
                    }
                },
            },
            final(self).statement() == old(self).statement(),
            final(self).only_read(old(self)),
            final(self).answers().len() == old(self).answers().len() + 1,
            final(self).reports(old(self), res),
    {
        match self.load_contract(contract_name) {
            Ok(found) => find_contract(found, contract_name),
            Err(e) => Err(e),
        }
    }

    /// Stores `contract` under `contract_name`, unless that name is taken.
    pub fn insert_contract(&mut self, contract_name: &str, contract: Contract) -> (res: Result<
        (),
        DatabaseError,
    >)
        ensures
            match res {
                Ok(()) => {
                    &&& final(self).is_within(old(self))
                    &&& has_tables(old(self).tables()) ==> {
                        &&& stays_valid(old(self).tables(), final(self).tables())
                        &&& inserted(
                            old(self).tables(),
                            final(self).tables(),
                            Table::Contracts,
                            contract_row(contract_name@, contract@),
                        )
                    }
                },
                Err(e) => {
                    ||| e.is_sql_fault() && (has_tables(old(self).tables()) ==> e.is_failure())
                    ||| {
                        &&& final(self).is_unchanged(old(self))
                        &&& e.err_type matches ErrType::Fatal(Fault::ContractExists(name))
                        &&& name@ == contract_name@
                        &&& has_tables(old(self).tables()) ==> has_contract(
                            old(self).tables(),
                            contract_name@,
                        )
                    }
                },
            },
            final(self).statement() == old(self).statement() || final(self).statement() == (
                INSERT_CONTRACT@,
                contract_row(contract_name@, contract@),
            ),
            if res is Ok {
                final(self).ran_one(old(self))
            } else if error_in(res) is Some {
                final(self).ran_one(old(self)) || final(self).only_read(old(self))
            } else {
                final(self).only_read(old(self))
            },
            final(self).reports(old(self), res),
    {
        proof {
            lemma_reports_further();
        }
        let ghost row = contract_row(contract_name@, contract@);
        let ghost before = self.tables();
        match self.load_contract(contract_name) {
            Ok(found) => match check_free(found, contract_name) {
                Ok(()) => {},
                Err(e) => {
                    return Err(e);
                },
            },
            Err(e) => {
                return Err(e);
            },
        }
        let mut params: Vec<SqlValue> = Vec::new();
        params.push(SqlValue::Text(contract_name.to_owned()));
        params.push(SqlValue::Text(contract.serialize()));
        assert(cells(params@) =~= row);
        assert(inserts(INSERT_CONTRACT@, Table::Contracts));
        match self.execute(INSERT_CONTRACT, params) {
            Ok(_) => {
                proof {
                    if has_tables(before) {
                        lemma_new_contract_is_valid(before, self.tables(), row);
                    }
                }
                Ok(())
            },
            Err(e) => Err(e),
        }
    }

    /// The height of the newest simulated block.
    pub fn get_simmed_block_height(&mut self) -> (res: Result<u64, DatabaseError>)
        ensures
            ({
                let before = old(self).tables();
                match res {
                    Ok(height) => {
                        &&& final(self).is_unchanged(old(self))
                        &&& height <= i64::MAX
                        &&& has_tables(before) ==> is_tip(before, height as i64)
                    },
                    Err(e) => {
                        ||| e.is_failure()
                        ||| {
                            &&& final(self).is_unchanged(old(self))
                            &&& match e.err_type {
                                ErrType::Arithmetic(text) => {
                                    &&& text@ == HEIGHT_OVERFLOW_MESSAGE@
                                    &&& has_tables(before) ==> exists|tip: i64|
                                        tip < 0 && is_tip(before, tip)
                                },
                                _ => {
                                    &&& e.is_fault(Fault::NoBlockHeight)
                                    &&& has_tables(before) ==> forall|height: i64|
                                        !before[Table::Blocks].contains_key(height)
                                },
                            }
                        }
                    },
                }
            }),
            final(self).statement() == old(self).statement(),
            final(self).only_read(old(self)),
            final(self).answers().len() == old(self).answers().len() + 1,
            final(self).reports(old(self), res),
    {
        match select_tip(&mut self.savepoint, SELECT_TIP) {
            Ok(found) => tip_height(found),
            Err(err) => Err(sql_fault(err)),
        }
    }

    /// The time of the simulated block of height `block_height`.
    pub fn get_simmed_block_time(&mut self, block_height: u64) -> (res: Result<u64, DatabaseError>)
        requires
            block_height <= i64::MAX,
        ensures
            ({
                let before = old(self).tables();
                let rows = before[Table::Blocks];
                let height = block_height as i64;
                match res {
                    Ok(time) => {
                        &&& final(self).is_unchanged(old(self))
                        &&& time <= i64::MAX
                        &&& has_tables(before) ==> {
                            &&& rows.contains_key(height)
                            &&& rows[height][0] == Cell::Integer(time as i64)
                        }
                    },
                    Err(e) => {
                        ||| e.is_failure()
                        ||| {
                            &&& final(self).is_unchanged(old(self))
                            &&& match e.err_type {
                                ErrType::Arithmetic(text) => {
                                    &&& text@ == TIME_OVERFLOW_MESSAGE@
                                    &&& has_tables(before) ==> {
                                        &&& rows.contains_key(height)
                                        &&& rows[height][0] matches Cell::Integer(time)
                                        &&& time < 0
                                    }
                                },
                                _ => {
                                    &&& e.is_fault(Fault::NoBlockTime)
                                    &&& has_tables(before) ==> !rows.contains_key(height)
                                },
                            }
                        }
                    },
                }
            }),
            final(self).statement() == old(self).statement(),
            final(self).only_read(old(self)),
            final(self).answers().len() == old(self).answers().len() + 1,
            final(self).reports(old(self), res),
    {
        match select_block_time(&mut self.savepoint, SELECT_BLOCK_TIME, block_height as i64) {
            Ok(found) => block_time(found),
            Err(err) => Err(sql_fault(err)),
        }
    }

    /// The header hash of the simulated block of height `block_height`.
    pub fn get_simmed_block_header_hash(&mut self, block_height: u64) -> (res: Result<
        Vec<u8>,
        DatabaseError,
    >)
        requires
            block_height <= i64::MAX,
        ensures
            ({
                let before = old(self).tables();
                let rows = before[Table::Blocks];
                let height = block_height as i64;
                match res {
                    Ok(bytes) => {
                        &&& final(self).is_unchanged(old(self))
                        &&& has_tables(before) ==> {
                            &&& rows.contains_key(height)
                            &&& rows[height][2] == Cell::Blob(bytes@)
                        }
                    },
                    Err(e) => {
                        ||| e.is_failure()
                        ||| {
                            &&& final(self).is_unchanged(old(self))
                            &&& e.is_fault(Fault::NoBlockHeaderHash)
                            &&& has_tables(before) ==> !rows.contains_key(height)
                        }
                    },
                }
            }),
            final(self).statement() == old(self).statement(),
            final(self).only_read(old(self)),
            final(self).answers().len() == old(self).answers().len() + 1,
            final(self).reports(old(self), res),
    {
        match select_block_bytes(
            &mut self.savepoint,
            SELECT_BLOCK_HEADER_HASH,
            block_height as i64,
        ) {
            Ok(found) => block_header_hash(found),
            Err(err) => Err(sql_fault(err)),
        }
    }

    /// The VRF seed of the simulated block of height `block_height`.
    pub fn get_simmed_block_vrf_seed(&mut self, block_height: u64) -> (res: Result<
        VRFSeed,
        DatabaseError,
    >)
        requires
            block_height <= i64::MAX,
        ensures
            ({
                let before = old(self).tables();
                let rows = before[Table::Blocks];
                let height = block_height as i64;
                match res {
                    Ok(seed) => {
                        &&& final(self).is_unchanged(old(self))
                        &&& has_tables(before) ==> {
                            &&& rows.contains_key(height)
                            &&& rows[height][1] == Cell::Blob(seed@)
                            &&& seed@.len() == VRF_SEED_LENGTH
                        }
                    },
                    Err(e) => {
                        ||| e.is_failure()
                        ||| {
                            &&& final(self).is_unchanged(old(self))
                            &&& match e.err_type {
                                ErrType::ParseError(text) => {
                                    &&& text@ == VRF_SEED_MESSAGE@
                                    &&& has_tables(before) ==> {
                                        &&& rows.contains_key(height)
                                        &&& rows[height][1] matches Cell::Blob(bytes)
                                        &&& bytes.len() != VRF_SEED_LENGTH
                                    }
                                },
                                _ => {
                                    &&& e.is_fault(Fault::NoBlockVRFSeed)
                                    &&& has_tables(before) ==> !rows.contains_key(height)
                                },
                            }
                        }
                    },
                }
            }),
            final(self).statement() == old(self).statement(),
            final(self).only_read(old(self)),
            final(self).answers().len() == old(self).answers().len() + 1,
            final(self).reports(old(self), res),
    {
        match select_block_bytes(&mut self.savepoint, SELECT_BLOCK_VRF_SEED, block_height as i64) {
            Ok(found) => block_vrf_seed(found),
            Err(err) => Err(sql_fault(err)),
        }
    }

    /// Adds a simulated block of time `block_time` above the newest one.
    pub fn sim_mine_block_with_time(&mut self, block_time: u64) -> (res: Result<(), DatabaseError>)
        requires
            block_time <= i64::MAX,
        ensures
            ({
                let before = old(self).tables();
                match res {
                    Ok(()) => {
                        &&& final(self).is_within(old(self))
                        &&& has_tables(before) ==> {
                            &&& stays_valid(before, final(self).tables())
                            &&& exists|tip: i64|
                                {
                                    &&& 0 <= tip < i64::MAX
                                    &&& #[trigger] is_tip(before, tip)
                                    &&& final(self).tables() == with_block(
                                        before,
                                        (tip + 1) as i64,
                                        block_time as i64,
                                    )
                                }
                        }
                    },
                    Err(e) => {
                        ||| e.is_sql_fault() && (has_tables(before) ==> e.is_failure())
                        ||| {
                            &&& final(self).is_unchanged(old(self))
                            &&& cannot_extend(before, e)
                        }
                    },
                }
            }),
            ({
                let before = old(self).tables();
                ||| final(self).statement() == old(self).statement()
                ||| has_tables(before) ==> exists|tip: i64|
                    {
                        &&& tip < i64::MAX
                        &&& #[trigger] is_tip(before, tip)
                        &&& stores_block(
                            final(self).statement(),
                            (tip + 1) as i64,
                            block_time as i64,
                        )
                    }
            }),
            if res is Ok {
                final(self).ran_one(old(self))
            } else if error_in(res) is Some {
                final(self).ran_one(old(self)) || final(self).only_read(old(self))
            } else {
                final(self).only_read(old(self))
            },
            final(self).reports(old(self), res),
    {
        proof {
            lemma_reports_further();
        }
        let ghost before = self.tables();
        let tip: u64 = match self.get_simmed_block_height() {
            Ok(height) => height,
            Err(e) => {
                return Err(tip_height_fault(e));
            },
        };
        let height: i64 = match next_height(tip) {
            Ok(height) => height,
            Err(e) => {
                return Err(e);
            },
        };
        let time: i64 = block_time as i64;
        let params = block_params(height, time);
        assert(inserts(INSERT_BLOCK@, Table::Blocks));
        match self.execute(INSERT_BLOCK, params) {
            Ok(_) => {
                proof {
                    if has_tables(before) {
                        assert(is_tip(before, tip as i64));
                        lemma_new_block_is_valid(before, height, time);
                    }
                }
                Ok(())
            },
            Err(e) => Err(e),
        }
    }

    /// Adds a simulated block above the newest one, one block time later.
    pub fn sim_mine_block(&mut self) -> (res: Result<(), DatabaseError>)
        ensures
            ({
                let before = old(self).tables();
                match res {
                    Ok(()) => {
                        &&& final(self).is_within(old(self))
                        &&& has_tables(before) ==> {
                            &&& stays_valid(before, final(self).tables())
                            &&& extends(before, final(self).tables(), 1)
                        }
                    },
                    Err(e) => {
                        ||| e.is_sql_fault() && (has_tables(before) ==> e.is_failure())
                        ||| {
                            &&& final(self).is_unchanged(old(self))
                            &&& cannot_extend(before, e) || cannot_extend_in_time(before, e)
                        }
                    },
                }
            }),
            ({
                let before = old(self).tables();
                ||| final(self).statement() == old(self).statement()
                ||| has_tables(before) ==> exists|tip: i64, time: i64|
                    {
                        &&& tip < i64::MAX
                        &&& time + SIMMED_BLOCK_TIME <= i64::MAX
                        &&& #[trigger] is_tip_at(before, tip, time)
                        &&& stores_block(
                            final(self).statement(),
                            (tip + 1) as i64,
                            (time + SIMMED_BLOCK_TIME) as i64,
                        )
                    }
            }),
            if res is Ok {
                final(self).ran_one(old(self))
            } else if error_in(res) is Some {
                final(self).ran_one(old(self)) || final(self).only_read(old(self))
            } else {
                final(self).only_read(old(self))
            },
            final(self).reports(old(self), res),
    {
        proof {
            lemma_reports_further();
        }
        let ghost before = self.tables();
        let tip: u64 = match self.get_simmed_block_height() {
            Ok(height) => height,
            Err(e) => {
                return Err(tip_height_fault(e));
            },
        };
        let tip_time: u64 = match self.get_simmed_block_time(tip) {
            Ok(time) => time,
            Err(e) => {
                proof {
                    if has_tables(before) && e.err_type is Arithmetic {
                        let time = before[Table::Blocks][tip as i64][0]->Integer_0;
                        assert(is_tip_at(before, tip as i64, time));
                    }
                }
                return Err(tip_time_fault(e));
            },
        };
        assert(has_tables(before) ==> is_tip_at(before, tip as i64, tip_time as i64));
        let time: u64 = match next_time(tip_time) {
            Ok(time) => time,
            Err(e) => {
                return Err(e);
            },
        };
        match self.sim_mine_block_with_time(time) {
            Ok(()) => {
                proof {
                    if has_tables(before) {
                        let height = choose|height: i64|
                            {
                                &&& 0 <= height < i64::MAX
                                &&& #[trigger] is_tip(before, height)
                                &&& self.tables() == with_block(
                                    before,
                                    (height + 1) as i64,
                                    time as i64,
                                )
                            };
                        assert(height == tip);
                        reveal_with_fuel(mined, 2);
                        assert(self.tables() == mined(before, tip as int, tip_time as int, 1));
                    }
                }
                Ok(())
            },
            Err(e) => Err(e),
        }
    }

    /// Adds `count` simulated blocks above the newest one, each one block time later than the one
    /// before.
    pub fn sim_mine_blocks(&mut self, count: u32) -> (res: Result<(), DatabaseError>)
        ensures
            count == 0 ==> res is Ok && final(self).is_unchanged(old(self)),
            match res {
                Ok(()) => {
                    &&& final(self).is_within(old(self))
                    &&& has_tables(old(self).tables()) ==> {
                        &&& stays_valid(old(self).tables(), final(self).tables())
                        &&& extends(old(self).tables(), final(self).tables(), count as nat)
                    }
                },
                Err(e) => {
                    ||| e.is_sql_fault() && (has_tables(old(self).tables()) ==> e.is_failure())
                    ||| {
                        let after = final(self).tables();
                        &&& final(self).is_within(old(self))
                        &&& cannot_extend(after, e) || cannot_extend_in_time(after, e)
                        &&& has_tables(old(self).tables()) ==> {
                            &&& stays_valid(old(self).tables(), after)
                            &&& exists|done: nat|
                                done < count && extends(old(self).tables(), after, done)
                        }
                    }
                },
            },
            res is Ok ==> final(self).statements().len() == old(self).statements().len() + count,
            final(self).reports(old(self), res),
    {
        proof {
            lemma_reports_further();
        }
        let ghost before = self.tables();
        let mut i: u32 = 0;
        while i < count
            invariant
                i <= count,
                before == old(self).tables(),
                self.is_within(old(self)),
                i == 0 ==> self.is_unchanged(old(self)),
                self.statements().len() == old(self).statements().len() + i,
                reports(old(self).answers(), self.answers(), None),
                has_tables(before) ==> {
                    &&& stays_valid(before, self.tables())
                    &&& extends(before, self.tables(), i as nat)
                },
            decreases count - i,
        {
            let ghost middle = self.tables();
            proof {
                lemma_reports_further();
            }
            match self.sim_mine_block() {
                Ok(()) => {},
                Err(e) => {
                    return Err(e);
                },
            }
            proof {
                if has_tables(before) {
                    lemma_extends_further(before, middle, self.tables(), i as nat);
                }
            }
            i = i + 1;
        }
        Ok(())
    }

    /// Undoes everything since the savepoint was made. The savepoint goes on.
    pub fn roll_back(&mut self) -> (res: Result<(), DatabaseError>)
        ensures
            match res {
                Ok(()) => is_described(old(self).tables()) ==> {
                    &&& final(self).tables() == old(self).start()
                    &&& final(self).is_within(old(self))
                },
                Err(e) => e.is_sql_fault(),
            },
            final(self).statements() == old(self).statements(),
            final(self).answers().len() == old(self).answers().len() + 1,
            final(self).reports(old(self), res),
    {
        match savepoint_rollback(&mut self.savepoint) {
            Ok(()) => Ok(()),
            Err(err) => Err(sql_fault(err)),
        }
    }

    /// Ends the savepoint, leaving its tables to what is around it.
    pub fn commit(self) -> (res: Result<(), DatabaseError>)
        ensures
            match res {
                Ok(()) => {
                    &&& is_described(self.tables()) ==> self.outcome() == self.tables()
                    &&& self.ending() is Committed
                },
                Err(e) => {
                    &&& e.is_sql_fault()
                    &&& e.sqlite_error() matches Some(err)
                    &&& self.ending() == End::Failed(err)
                },
            },
    {
        match savepoint_commit(self.savepoint) {
            Ok(()) => Ok(()),
            Err(err) => Err(sql_fault(err)),
        }
    }
}

/// What a savepoint can be made in: a connection, or another savepoint.
pub trait ContractDatabaseTransacter {
    /// The tables as they are now.
    spec fn held(&self) -> Tables;

    /// Nobody else changes the tables.
    spec fn is_exclusive(&self) -> bool;

    /// Makes a savepoint. It starts from the tables as they are, and the tables become what it
    /// leaves: what they were, if it is dropped without a commit.
    fn begin_save_point(&mut self) -> (res: Result<ContractDatabase<'_>, DatabaseError>)
        ensures
            match res {
                Ok(inner) => {
                    &&& inner.start() == inner.tables()
                    &&& old(self).is_exclusive() ==> {
                        &&& inner.tables() == old(self).held()
                        &&& final(self).held() == inner.outcome()
                        &&& inner.is_dropped() ==> final(self).held() == old(self).held()
                    }
                },
                Err(e) => e.is_sql_fault(),
            },
    ;
}

impl<'a> ContractDatabaseTransacter for ContractDatabase<'a> {
    open spec fn held(&self) -> Tables {
        self.tables()
    }

    open spec fn is_exclusive(&self) -> bool {
        true
    }

    fn begin_save_point(&mut self) -> (res: Result<ContractDatabase<'_>, DatabaseError>)
        ensures
            res is Ok ==> {
                &&& final(self).outcome() == old(self).outcome()
                &&& is_described(final(self).tables()) ==> final(self).start() == old(self).start()
            },
            old(self).is_exclusive(),
            final(self).statements() == old(self).statements(),
            final(self).answers().len() == old(self).answers().len() + 1,
            final(self).reports(old(self), res),
            res matches Ok(inner) ==> {
                &&& inner.statements().len() == 0
                &&& inner.answers().len() == 0
                &&& inner.tables() == old(self).tables()
                &&& final(self).tables() == inner.outcome()
            },
    {
        match nested_savepoint(&mut self.savepoint) {
            Ok(inner) => Ok(ContractDatabase::from_savepoint(inner)),
            Err(err) => Err(sql_fault(err)),
        }
    }
}

} // verus!
