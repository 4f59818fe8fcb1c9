//! The connection to the contract database.
//!
//! A statement that fails may make SQLite give up what is under way, so reading, too, takes the
//! connection exclusively.

use crate::blocks::{
    block_cells, block_params, block_row, first_blocks, first_time, is_storable_clock, stores_block,
    with_block, SIMMED_BLOCK_COUNT, SIMMED_BLOCK_TIME,
};
use crate::clock::{seconds_at, time_since_epoch, whole_seconds};
use crate::database::{sql_fault, ContractDatabase, ContractDatabaseTransacter};
use crate::errors::{
    error_in, lemma_reports_further, only_reads, reports, DatabaseError, ErrType, Fault,
    IncomparableError,
};
use crate::laws::law_empty_database_is_not_refused;
use crate::sqlite::{
    connect, connection_changes, connection_execute, connection_name, connection_savepoint,
    connection_schema, connection_start, connection_statement, connection_tables, empty_database,
    savepoint_changes, savepoint_outcome, savepoint_start, savepoint_statement, savepoint_tables,
    says_no_row, select_schema, Answer,
};
use crate::tables::{
    cells, created, creates, executed, has_tables, inserts, is_whole, names, refused, Cell,
    SqlValue, Table, Tables, BLOCKS_TABLE, CONTRACTS_TABLE, CREATE_BLOCKS, CREATE_CONTRACTS,
    CREATE_DATA, CREATE_MAPS, DATA_TABLE, INSERT_BLOCK, MAPS_TABLE, SELECT_SCHEMA,
};
use vstd::prelude::*;

verus! {

/// The name of the database that is kept in memory.
pub const MEMORY: &'static str = ":memory:";

/// The database after the tables of the store were created, as far as they were not there.
pub open spec fn with_tables(before: Tables) -> Tables {
    created(
        created(created(created(before, Table::Maps), Table::Data), Table::Contracts),
        Table::Blocks,
    )
}

/// The database after the first `count` of its first simulated blocks were added at `time_now`.
pub open spec fn with_first_blocks(before: Tables, count: int, time_now: int) -> Tables {
    before.insert(
        Table::Blocks,
        before[Table::Blocks].union_prefer_right(first_blocks(count, time_now)),
    )
}

/// There is no block yet of the first `count` heights.
pub open spec fn lacks_blocks(tables: Tables, count: int) -> bool {
    forall|height: i64|
        0 <= height < count ==> !#[trigger] tables[Table::Blocks].contains_key(height)
}

/// `after` is `before` after it was initialized at `time_now`.
pub open spec fn initialized(before: Tables, after: Tables, time_now: int) -> bool {
    &&& is_storable_clock(time_now)
    &&& lacks_blocks(with_tables(before), SIMMED_BLOCK_COUNT as int)
    &&& after == with_first_blocks(with_tables(before), SIMMED_BLOCK_COUNT as int, time_now)
}

/// `after` is `before` after the first simulated blocks were added at `time_now`, up to a height at
/// which there was a block already.
pub open spec fn stopped(before: Tables, after: Tables, time_now: int) -> bool {
    exists|done: int|
        {
            &&& 0 <= done < SIMMED_BLOCK_COUNT
            &&& #[trigger] lacks_blocks(before, done)
            &&& before[Table::Blocks].contains_key(done as i64)
            &&& after == with_first_blocks(before, done, time_now)
        }
}

/// `after` is `before` after its initialization at `time_now` was refused by a constraint: the
/// tables are there, and the first simulated blocks up to a height at which there was a block
/// already.
pub open spec fn interrupted(before: Tables, after: Tables, time_now: int) -> bool {
    stopped(with_tables(before), after, time_now)
}

/// The statements that create the tables of the store.
pub open spec fn create_statements() -> Seq<(Seq<char>, Seq<Cell>)> {
    seq![
        (CREATE_MAPS@, Seq::<Cell>::empty()),
        (CREATE_DATA@, Seq::<Cell>::empty()),
        (CREATE_CONTRACTS@, Seq::<Cell>::empty()),
        (CREATE_BLOCKS@, Seq::<Cell>::empty()),
    ]
}

/// The statements that add the first `count` of the first simulated blocks at `time_now`.
pub open spec fn block_statements(count: nat, time_now: int) -> Seq<(Seq<char>, Seq<Cell>)> {
    Seq::new(
        count,
        |i: int| (INSERT_BLOCK@, block_cells(i as i64, first_time(i as i64, time_now))),
    )
}

/// The error is one that opening `filename` can give, or the last that SQLite reported on a
/// connection to it.
pub open spec fn is_reported_of(err: rusqlite::Error, filename: Seq<char>) -> bool {
    ||| says_no_row(err).files.contains(filename)
    ||| exists|db: ContractDatabaseConnection|
        {
            &&& #[trigger] db.name() == filename
            &&& db.answers().len() > 0
            &&& db.answers().last() == Answer::Failed(err)
        }
}

/// The names of all tables of the store are among `names`.
pub open spec fn has_names(names: Set<Seq<char>>) -> bool {
    &&& names.contains(MAPS_TABLE@)
    &&& names.contains(DATA_TABLE@)
    &&& names.contains(CONTRACTS_TABLE@)
    &&& names.contains(BLOCKS_TABLE@)
}

/// Adding none of the first simulated blocks changes nothing.
pub(crate) proof fn lemma_no_first_blocks(before: Tables, time_now: int)
    requires
        before.contains_key(Table::Blocks),
    ensures
        with_first_blocks(before, 0, time_now) == before,
{
    let rows = before[Table::Blocks];
    assert(rows.union_prefer_right(first_blocks(0, time_now)) =~= rows);
    assert(with_first_blocks(before, 0, time_now) =~= before);
}

/// Some reading of the clock is before the Unix epoch.
pub open spec fn may_precede_epoch() -> bool {
    exists|reading: std::time::SystemTime| time_since_epoch(reading) is None
}

/// The clock reads `reading`, which is `time_now` seconds after the Unix epoch.
pub open spec fn is_reading(reading: std::time::SystemTime, time_now: int) -> bool {
    time_since_epoch(reading) matches Some(passed) && whole_seconds(passed) == time_now
}

/// Checks that the clock leaves room for the first simulated blocks, and that their times can be
/// stored.
pub fn check_clock(time_now: u64) -> (res: Result<(), DatabaseError>)
    ensures
        res is Ok <==> is_storable_clock(time_now as int),
        res is Ok <==> 12_000 <= time_now <= i64::MAX + 600,
        res matches Err(e) ==> e.is_fault(Fault::ClockOutOfRange),
{
    if time_now < SIMMED_BLOCK_COUNT * SIMMED_BLOCK_TIME || time_now > i64::MAX as u64
        + SIMMED_BLOCK_TIME {
        Err(DatabaseError::new(ErrType::Fatal(Fault::ClockOutOfRange)))
    } else {
        Ok(())
    }
}

/// The error that SQLite could not open the database, or that the database lacks a table.
fn sqlite_error(err: rusqlite::Error) -> (res: DatabaseError)
    ensures
        res.err_type == ErrType::SqliteError((IncomparableError { err })),
{
    DatabaseError::new(ErrType::SqliteError(IncomparableError { err }))
}

/// A connection to the contract database.
pub struct ContractDatabaseConnection {
    conn: rusqlite::Connection,
}

impl ContractDatabaseConnection {
    /// The tables as they are now; none, if someone else may change the database.
    pub closed spec fn tables(&self) -> Tables {
        connection_tables(self.conn)
    }

    /// The tables as they were when the connection was opened.
    pub closed spec fn start(&self) -> Tables {
        connection_start(self.conn)
    }

    /// The file name that the connection was opened with.
    pub closed spec fn name(&self) -> Seq<char> {
        connection_name(self.conn)
    }

    /// The statements handed to `execute` on this connection, with the values for their
    /// placeholders, from the first to the last.
    pub closed spec fn statements(&self) -> Seq<(Seq<char>, Seq<Cell>)> {
        connection_statement(self.conn)
    }

    /// What SQLite answered on this connection, from the first call to the last.
    pub closed spec fn answers(&self) -> Seq<Answer> {
        connection_changes(self.conn)
    }

    /// The statement last handed to `execute`, and the values for its placeholders.
    pub open spec fn statement(&self) -> (Seq<char>, Seq<Cell>) {
        self.statements().last()
    }

    /// How many rows the `execute` just made said it changed.
    pub open spec fn changes(&self) -> usize {
        match self.answers().last() {
            Answer::Changed(changed) => changed,
            _ => 0,
        }
    }

    /// Every error of SQLite since `other` is the one in `res`, and what is in `res` is one.
    pub open spec fn reports<T>(&self, other: &Self, res: Result<T, DatabaseError>) -> bool {
        reports(other.answers(), self.answers(), error_in(res))
    }

    /// The names in SQLite's list of what the database holds; none, if someone else may change the
    /// database.
    pub closed spec fn schema(&self) -> Option<Set<Seq<char>>> {
        connection_schema(self.conn)
    }

    /// Opens the database `filename`, creates the tables of the store as far as it lacks them,
    /// and adds the first simulated blocks.
    pub fn initialize(filename: &str) -> (res: Result<ContractDatabaseConnection, DatabaseError>)
        ensures
            match res {
                Ok(db) => {
                    &&& db.name() == filename@
                    &&& filename@ == MEMORY@ ==> db.start() == empty_database()
                    &&& db.schema() matches Some(names) ==> has_names(names)
                    &&& is_whole(db.start()) ==> exists|
                        reading: std::time::SystemTime,
                        time_now: int,
                    |
                        {
                            &&& #[trigger] is_reading(reading, time_now)
                            &&& initialized(db.start(), db.tables(), time_now)
                        }
                },
                Err(e) => {
                    ||| {
                        &&& e.err_type is SqliteError
                        &&& e.lacks_row() ==> filename@ != MEMORY@ && exists|db: Self|
                            {
                                &&& #[trigger] db.name() == filename@
                                &&& !is_whole(db.start())
                                &&& !has_tables(db.tables())
                                &&& db.schema() matches Some(names) ==> !has_names(names)
                            }
                    }
                    ||| {
                        &&& e.is_sql_fault()
                        &&& e.is_refusal() ==> exists|db: Self|
                            {
                                &&& #[trigger] db.name() == filename@
                                &&& filename@ == MEMORY@ ==> db.start() == empty_database()
                                &&& is_whole(db.start()) ==> exists|
                                    reading: std::time::SystemTime,
                                    time_now: int,
                                |
                                    {
                                        &&& #[trigger] is_reading(reading, time_now)
                                        &&& interrupted(db.start(), db.tables(), time_now)
                                    }
                            }
                    }
                    ||| e.is_fault(Fault::ClockBeforeEpoch) && may_precede_epoch()
                    ||| {
                        &&& e.is_fault(Fault::ClockOutOfRange)
                        &&& exists|reading: std::time::SystemTime, time_now: int|
                            #[trigger] is_reading(reading, time_now) && !is_storable_clock(time_now)
                    }
                },
            },
            res matches Ok(db) ==> exists|reading: std::time::SystemTime, time_now: int|
                {
                    &&& #[trigger] is_reading(reading, time_now)
                    &&& is_storable_clock(time_now)
                    &&& db.statements() == create_statements() + block_statements(
                        SIMMED_BLOCK_COUNT as nat,
                        time_now,
                    )
                },
            error_in(res) matches Some(err) ==> is_reported_of(err, filename@),
    {
        let mut db = match ContractDatabaseConnection::inner_open(filename) {
            Ok(db) => db,
            Err(e) => {
                return Err(e);
            },
        };
        let ghost start = db.start();
        match db.create_tables() {
            Ok(()) => {},
            Err(e) => {
                assert(db.name() == filename@);
                return Err(e);
            },
        }
        let reading = std::time::SystemTime::now();
        let time_now: u64 = match seconds_at(reading) {
            Ok(time_now) => time_now,
            Err(e) => {
                return Err(e);
            },
        };
        assert(is_reading(reading, time_now as int));
        match check_clock(time_now) {
            Ok(()) => {},
            Err(e) => {
                return Err(e);
            },
        }
        match db.insert_simmed_blocks(time_now) {
            Ok(()) => {},
            Err(e) => {
                assert(db.name() == filename@);
                assert(e.is_refusal() && is_whole(start) ==> interrupted(
                    start,
                    db.tables(),
                    time_now as int,
                ));
                return Err(e);
            },
        }
        assert(is_whole(start) ==> initialized(start, db.tables(), time_now as int));
        match db.check_schema() {
            Ok(()) => Ok(db),
            Err(e) => {
                assert(db.name() == filename@);
                Err(e)
            },
        }
    }

    /// A new database in memory.
    pub fn memory() -> (res: Result<ContractDatabaseConnection, DatabaseError>)
        ensures
            match res {
                Ok(db) => {
                    &&& db.name() == MEMORY@
                    &&& db.start() == empty_database()
                    &&& db.schema() matches Some(names) ==> has_names(names)
                    &&& exists|reading: std::time::SystemTime, time_now: int|
                        {
                            &&& #[trigger] is_reading(reading, time_now)
                            &&& initialized(db.start(), db.tables(), time_now)
                        }
                },
                Err(e) => {
                    ||| e.err_type is SqliteError && !e.lacks_row()
                    ||| e.is_failure()
                    ||| e.is_fault(Fault::ClockBeforeEpoch) && may_precede_epoch()
                    ||| {
                        &&& e.is_fault(Fault::ClockOutOfRange)
                        &&& exists|reading: std::time::SystemTime, time_now: int|
                            #[trigger] is_reading(reading, time_now) && !is_storable_clock(time_now)
                    }
                },
            },
            res matches Ok(db) ==> exists|reading: std::time::SystemTime, time_now: int|
                {
                    &&& #[trigger] is_reading(reading, time_now)
                    &&& is_storable_clock(time_now)
                    &&& db.statements() == create_statements() + block_statements(
                        SIMMED_BLOCK_COUNT as nat,
                        time_now,
                    )
                },
            error_in(res) matches Some(err) ==> is_reported_of(err, MEMORY@),
    {
        proof {
            assert forall|after: Tables, time_now: int| !#[trigger] interrupted(
                empty_database(),
                after,
                time_now,
            ) by {
                law_empty_database_is_not_refused(after, time_now);
            }
        }
        ContractDatabaseConnection::initialize(MEMORY)
    }

    /// Opens the database `filename`, which has the tables of the store already.
    pub fn open(filename: &str) -> (res: Result<ContractDatabaseConnection, DatabaseError>)
        ensures
            match res {
                Ok(db) => {
                    &&& db.name() == filename@
                    &&& filename@ != MEMORY@
                    &&& db.tables() == db.start()
                    &&& is_whole(db.tables()) ==> has_tables(db.tables())
                    &&& db.schema() matches Some(names) ==> has_names(names)
                },
                Err(e) => {
                    &&& e.err_type is SqliteError
                    &&& e.lacks_row() ==> exists|db: Self|
                        {
                            &&& #[trigger] db.name() == filename@
                            &&& db.tables() == db.start()
                            &&& !has_tables(db.tables())
                            &&& db.schema() matches Some(names) ==> !has_names(names)
                        }
                },
            },
            res matches Ok(db) ==> db.statements().len() == 0 && only_reads(
                Seq::<Answer>::empty(),
                db.answers(),
            ),
            error_in(res) matches Some(err) ==> is_reported_of(err, filename@),
    {
        let mut db = match ContractDatabaseConnection::inner_open(filename) {
            Ok(db) => db,
            Err(e) => {
                return Err(e);
            },
        };
        match db.check_schema() {
            Ok(()) => Ok(db),
            Err(e) => {
                assert(db.name() == filename@);
                Err(e)
            },
        }
    }

    /// Checks that the tables of the store are there.
    pub fn check_schema(&mut self) -> (res: Result<(), DatabaseError>)
        ensures
            match res {
                Ok(()) => {
                    &&& final(self).tables() == old(self).tables()
                    &&& final(self).schema() == old(self).schema()
                    &&& is_whole(old(self).tables()) ==> has_tables(old(self).tables())
                    &&& old(self).schema() matches Some(names) ==> has_names(names)
                },
                Err(e) => {
                    &&& e.err_type is SqliteError
                    &&& e.lacks_row() ==> {
                        &&& final(self).tables() == old(self).tables()
                        &&& final(self).schema() == old(self).schema()
                        &&& !has_tables(old(self).tables())
                        &&& old(self).schema() matches Some(names) ==> !has_names(names)
                    }
                },
            },
            final(self).name() == old(self).name(),
            final(self).start() == old(self).start(),
            final(self).statements() == old(self).statements(),
            only_reads(old(self).answers(), final(self).answers()),
            final(self).answers().len() <= old(self).answers().len() + 4,
            final(self).reports(old(self), res),
    {
        proof {
            lemma_reports_further();
        }
        assert(names(MAPS_TABLE@, Table::Maps));
        match select_schema(&mut self.conn, SELECT_SCHEMA, MAPS_TABLE) {
            Ok(_) => {},
            Err(err) => {
                return Err(sqlite_error(err));
            },
        }
        assert(names(CONTRACTS_TABLE@, Table::Contracts));
        match select_schema(&mut self.conn, SELECT_SCHEMA, CONTRACTS_TABLE) {
            Ok(_) => {},
            Err(err) => {
                return Err(sqlite_error(err));
            },
        }
        assert(names(DATA_TABLE@, Table::Data));
        match select_schema(&mut self.conn, SELECT_SCHEMA, DATA_TABLE) {
            Ok(_) => {},
            Err(err) => {
                return Err(sqlite_error(err));
            },
        }
        assert(names(BLOCKS_TABLE@, Table::Blocks));
        match select_schema(&mut self.conn, SELECT_SCHEMA, BLOCKS_TABLE) {
            Ok(_) => {},
            Err(err) => {
                return Err(sqlite_error(err));
            },
        }
        Ok(())
    }

    /// Opens the database `filename`.
    pub fn inner_open(filename: &str) -> (res: Result<ContractDatabaseConnection, DatabaseError>)
        ensures
            match res {
                Ok(db) => {
                    &&& db.name() == filename@
                    &&& db.tables() == db.start()
                    &&& filename@ == MEMORY@ ==> {
                        &&& db.start() == empty_database()
                        &&& db.schema() == Some(Set::<Seq<char>>::empty())
                    }
                },
                Err(e) => e.err_type is SqliteError && !e.lacks_row(),
            },
            res matches Ok(db) ==> db.statements().len() == 0 && db.answers().len() == 0,
            error_in(res) matches Some(err) ==> says_no_row(err).files.contains(filename@),
    {
        match connect(filename) {
            Ok(conn) => Ok(ContractDatabaseConnection { conn }),
            Err(err) => Err(sqlite_error(err)),
        }
    }

    /// Runs the statement `sql` with `params` for its placeholders, and returns how many rows it
    /// changed.
    pub fn execute(&mut self, sql: &str, params: Vec<SqlValue>) -> (res: Result<
        usize,
        DatabaseError,
    >)
        ensures
            match res {
                Ok(changed) => executed(
                    sql@,
                    cells(params@),
                    old(self).tables(),
                    final(self).tables(),
                    changed,
                ),
                Err(e) => {
                    &&& e.is_sql_fault()
                    &&& e.is_refusal() ==> refused(
                        sql@,
                        cells(params@),
                        old(self).tables(),
                        final(self).tables(),
                    )
                },
            },
            final(self).statement() == (sql@, cells(params@)),
            res matches Ok(changed) ==> final(self).changes() == changed,
            final(self).statements() == old(self).statements().push((sql@, cells(params@))),
            final(self).answers().len() == old(self).answers().len() + 1,
            final(self).reports(old(self), res),
            final(self).name() == old(self).name(),
            final(self).start() == old(self).start(),
    {
        match connection_execute(&mut self.conn, sql, &params) {
            Ok(changed) => Ok(changed),
            Err(err) => Err(sql_fault(err)),
        }
    }

    /// Creates the tables of the store, as far as they are not there.
    pub fn create_tables(&mut self) -> (res: Result<(), DatabaseError>)
        ensures
            match res {
                Ok(()) => is_whole(old(self).tables()) ==> final(self).tables() == with_tables(
                    old(self).tables(),
                ),
                Err(e) => {
                    &&& e.is_sql_fault()
                    &&& is_whole(old(self).tables()) ==> e.is_failure()
                    &&& exists|table: Table| #[trigger] creates(final(self).statement().0, table)
                    &&& final(self).statement().1 == Seq::<Cell>::empty()
                },
            },
            final(self).name() == old(self).name(),
            final(self).start() == old(self).start(),
            res is Ok ==> final(self).statements() == old(self).statements() + create_statements(),
            final(self).reports(old(self), res),
    {
        proof {
            lemma_reports_further();
        }
        assert(cells(Seq::<SqlValue>::empty()) =~= Seq::<Cell>::empty());
        assert(creates(CREATE_MAPS@, Table::Maps));
        match self.execute(CREATE_MAPS, Vec::new()) {
            Ok(_) => {},
            Err(e) => {
                assert(creates(self.statement().0, Table::Maps));
                return Err(e);
            },
        }
        assert(creates(CREATE_DATA@, Table::Data));
        match self.execute(CREATE_DATA, Vec::new()) {
            Ok(_) => {},
            Err(e) => {
                assert(creates(self.statement().0, Table::Data));
                return Err(e);
            },
        }
        assert(creates(CREATE_CONTRACTS@, Table::Contracts));
        match self.execute(CREATE_CONTRACTS, Vec::new()) {
            Ok(_) => {},
            Err(e) => {
                assert(creates(self.statement().0, Table::Contracts));
                return Err(e);
            },
        }
        assert(creates(CREATE_BLOCKS@, Table::Blocks));
        match self.execute(CREATE_BLOCKS, Vec::new()) {
            Ok(_) => {},
            Err(e) => {
                assert(creates(self.statement().0, Table::Blocks));
                return Err(e);
            },
        }
        Ok(())
    }

    /// Adds the first simulated blocks, the last of them one block time before `time_now`.
    pub fn insert_simmed_blocks(&mut self, time_now: u64) -> (res: Result<(), DatabaseError>)
        requires
            is_storable_clock(time_now as int),
        ensures
            match res {
                Ok(()) => old(self).tables().contains_key(Table::Blocks) ==> {
                    &&& lacks_blocks(old(self).tables(), SIMMED_BLOCK_COUNT as int)
                    &&& final(self).tables() == with_first_blocks(
                        old(self).tables(),
                        SIMMED_BLOCK_COUNT as int,
                        time_now as int,
                    )
                },
                Err(e) => {
                    &&& e.is_sql_fault()
                    &&& e.is_refusal() && old(self).tables().contains_key(Table::Blocks)
                        ==> stopped(old(self).tables(), final(self).tables(), time_now as int)
                    &&& exists|height: i64|
                        {
                            &&& 0 <= height < SIMMED_BLOCK_COUNT
                            &&& stores_block(
                                final(self).statement(),
                                height,
                                #[trigger] first_time(height, time_now as int),
                            )
                        }
                },
            },
            final(self).name() == old(self).name(),
            final(self).start() == old(self).start(),
            res is Ok ==> final(self).statements() == old(self).statements() + block_statements(
                SIMMED_BLOCK_COUNT as nat,
                time_now as int,
            ),
            final(self).reports(old(self), res),
    {
        assert(self.statements() =~= self.statements() + block_statements(0, time_now as int));
        let ghost before = self.tables();
        let mut i: u64 = 0;
        proof {
            if before.contains_key(Table::Blocks) {
                lemma_no_first_blocks(before, time_now as int);
            }
        }
        while i < SIMMED_BLOCK_COUNT
            invariant
                i <= SIMMED_BLOCK_COUNT,
                is_storable_clock(time_now as int),
                before == old(self).tables(),
                self.name() == old(self).name(),
                self.start() == old(self).start(),
                self.statements() == old(self).statements() + block_statements(
                    i as nat,
                    time_now as int,
                ),
                reports(old(self).answers(), self.answers(), None),
                before.contains_key(Table::Blocks) ==> {
                    &&& lacks_blocks(before, i as int)
                    &&& self.tables() == with_first_blocks(before, i as int, time_now as int)
                },
            decreases SIMMED_BLOCK_COUNT - i,
        {
            proof {
                lemma_reports_further();
            }
            let height: i64 = i as i64;
            let time: i64 = (time_now - (SIMMED_BLOCK_COUNT - i) * SIMMED_BLOCK_TIME) as i64;
            assert(time == first_time(height, time_now as int));
            let params = block_params(height, time);
            assert(inserts(INSERT_BLOCK@, Table::Blocks));
            let ghost middle = self.tables();
            match self.execute(INSERT_BLOCK, params) {
                Ok(_) => {},
                Err(e) => {
                    return Err(e);
                },
            }
            proof {
                if before.contains_key(Table::Blocks) {
                    let added = first_blocks(i as int, time_now as int);
                    assert(!added.contains_key(height));
                    assert(!before[Table::Blocks].contains_key(height));
                    assert(self.tables() == with_block(middle, height, time));
                    assert(middle[Table::Blocks].insert(height, block_row(height, time))
                        =~= before[Table::Blocks].union_prefer_right(
                        first_blocks(i + 1, time_now as int),
                    ));
                    assert(self.tables() =~= with_first_blocks(before, i + 1, time_now as int));
                }
            }
            assert(self.statements() =~= old(self).statements() + block_statements(
                (i + 1) as nat,
                time_now as int,
            ));
            i = i + 1;
        }
        Ok(())
    }

    /// Makes a savepoint in the database.
    pub fn begin_save_point_raw(&mut self) -> (res: Result<
        rusqlite::Savepoint<'_>,
        DatabaseError,
    >)
        ensures
            match res {
                Ok(inner) => {
                    &&& savepoint_start(inner) == savepoint_tables(inner)
                    &&& is_whole(old(self).tables()) ==> {
                        &&& savepoint_tables(inner) == old(self).tables()
                        &&& final(self).tables() == savepoint_outcome(inner)
                    }
                },
                Err(e) => e.is_sql_fault(),
            },
            final(self).name() == old(self).name(),
            final(self).start() == old(self).start(),
            final(self).statements() == old(self).statements(),
            final(self).answers().len() == old(self).answers().len() + 1,
            final(self).reports(old(self), res),
            res matches Ok(inner) ==> {
                &&& savepoint_statement(inner).len() == 0
                &&& savepoint_changes(inner).len() == 0
            },
    {
        match connection_savepoint(&mut self.conn) {
            Ok(inner) => Ok(inner),
            Err(err) => Err(sql_fault(err)),
        }
    }
}

impl ContractDatabaseTransacter for ContractDatabaseConnection {
    open spec fn held(&self) -> Tables {
        self.tables()
    }

    open spec fn is_exclusive(&self) -> bool {
        is_whole(self.tables())
    }

    fn begin_save_point(&mut self) -> (res: Result<ContractDatabase<'_>, DatabaseError>)
        ensures
            old(self).is_exclusive() == is_whole(old(self).tables()),
            final(self).name() == old(self).name(),
            final(self).start() == old(self).start(),
            final(self).statements() == old(self).statements(),
            final(self).answers().len() == old(self).answers().len() + 1,
            final(self).reports(old(self), res),
            res matches Ok(inner) ==> {
                &&& inner.statements().len() == 0
                &&& inner.answers().len() == 0
                &&& is_whole(old(self).tables()) ==> {
                    &&& inner.tables() == old(self).tables()
                    &&& final(self).tables() == inner.outcome()
                }
            },
    {
        match connection_savepoint(&mut self.conn) {
            Ok(inner) => Ok(ContractDatabase::from_savepoint(inner)),
            Err(err) => Err(sql_fault(err)),
        }
    }
}

} // verus!
