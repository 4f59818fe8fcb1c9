use contract_db::blocks::{
    block_header_hash, block_time, block_vrf_seed, next_height, next_time, simulate_bytes, tip_height,
    HEIGHT_OVERFLOW_MESSAGE, SIMMED_BLOCK_TIME, TIME_OVERFLOW_MESSAGE, VRF_SEED_MESSAGE,
};
use contract_db::clock::seconds_at;
use contract_db::connection::{check_clock, ContractDatabaseConnection};
use contract_db::database::{check_free, find_contract, ContractDatabase, ContractDatabaseTransacter};
use contract_db::errors::{ErrType, Fault};
use contract_db::tables::SqlValue;
use contract_db::values::{Contract, VRFSeed};

fn contract(text: &str) -> Contract {
    Contract::deserialize(text)
}

fn raw_block(height: i64, time: i64, seed: Vec<u8>) -> Vec<SqlValue> {
    vec![
        SqlValue::Integer(height),
        SqlValue::Integer(time),
        SqlValue::Blob(seed),
        SqlValue::Blob(vec![9]),
    ]
}

const RAW_INSERT: &str = "INSERT INTO simmed_block_table VALUES (?, ?, ?, ?)";

#[test]
fn a_stored_contract_is_found() {
    let mut conn = ContractDatabaseConnection::memory().unwrap();
    let mut db = conn.begin_save_point().unwrap();
    let missing = db.get_contract("tokens");
    assert!(matches!(
        missing.unwrap_err().err_type, ErrType::UndefinedContract(name) if name == "tokens"
    ));
    db.insert_contract("tokens", contract("(define)")).unwrap();
    db.insert_contract("names", contract("(other)")).unwrap();
    assert_eq!(db.get_contract("tokens").unwrap(), contract("(define)"));
    assert_eq!(db.get_contract("names").unwrap(), contract("(other)"));
}

#[test]
fn a_contract_is_stored_once() {
    let mut conn = ContractDatabaseConnection::memory().unwrap();
    let mut db = conn.begin_save_point().unwrap();
    db.insert_contract("tokens", contract("(define)")).unwrap();
    let error = db.insert_contract("tokens", contract("(other)")).unwrap_err();
    match error.err_type {
        ErrType::Fatal(fault) => {
            assert_eq!(fault.message(), "Contract already exists tokens");
        }
        _ => panic!("the name was taken"),
    }
    assert_eq!(db.get_contract("tokens").unwrap(), contract("(define)"));
}

#[test]
fn a_contract_is_found_or_not() {
    assert_eq!(find_contract(Some(contract("a")), "tokens").unwrap(), contract("a"));
    let missing = find_contract(None, "tokens");
    assert!(matches!(
        missing.unwrap_err().err_type, ErrType::UndefinedContract(name) if name == "tokens"
    ));
}

#[test]
fn a_new_database_has_twenty_blocks() {
    let mut conn = ContractDatabaseConnection::memory().unwrap();
    let mut db = conn.begin_save_point().unwrap();
    assert_eq!(db.get_simmed_block_height().unwrap(), 19);
    let tip_time = db.get_simmed_block_time(19).unwrap();
    for height in 0..20u64 {
        let time = db.get_simmed_block_time(height).unwrap();
        assert_eq!(time, tip_time - (19 - height) * 600);
        let mut hash = vec![0u8; 32];
        hash[0] = 2;
        hash[31] = height as u8;
        assert_eq!(db.get_simmed_block_header_hash(height).unwrap(), hash);
        let mut seed = vec![0u8; 32];
        seed[0] = 1;
        seed[31] = height as u8;
        assert_eq!(db.get_simmed_block_vrf_seed(height).unwrap().to_bytes(), &seed[..]);
    }
}

#[test]
fn the_last_new_block_is_one_block_time_old() {
    let read_clock = || {
        std::time::SystemTime::now().duration_since(std::time::UNIX_EPOCH).unwrap().as_secs()
    };
    let before = read_clock();
    let mut conn = ContractDatabaseConnection::memory().unwrap();
    let after = read_clock();
    let mut db = conn.begin_save_point().unwrap();
    let made = db.get_simmed_block_time(19).unwrap() + SIMMED_BLOCK_TIME;
    assert!(before <= made && made <= after);
}

#[test]
fn the_clock_counts_whole_seconds_from_the_epoch() {
    let epoch = std::time::UNIX_EPOCH;
    assert_eq!(seconds_at(epoch).unwrap(), 0);
    assert_eq!(seconds_at(epoch + std::time::Duration::from_millis(7_999)).unwrap(), 7);
    let error = seconds_at(epoch - std::time::Duration::from_millis(1)).unwrap_err();
    assert!(matches!(error.err_type, ErrType::Fatal(Fault::ClockBeforeEpoch)));
}

#[test]
fn blocks_are_made_at_the_given_time() {
    let mut conn = ContractDatabaseConnection::inner_open(":memory:").unwrap();
    conn.create_tables().unwrap();
    conn.insert_simmed_blocks(12_000).unwrap();
    conn.check_schema().unwrap();
    let mut db = conn.begin_save_point().unwrap();
    assert_eq!(db.get_simmed_block_time(0).unwrap(), 0);
    assert_eq!(db.get_simmed_block_time(1).unwrap(), 600);
    assert_eq!(db.get_simmed_block_time(19).unwrap(), 11_400);
}

#[test]
fn mining_adds_blocks() {
    let mut conn = ContractDatabaseConnection::memory().unwrap();
    let mut db = conn.begin_save_point().unwrap();
    let tip_time = db.get_simmed_block_time(19).unwrap();
    db.sim_mine_block().unwrap();
    assert_eq!(db.get_simmed_block_height().unwrap(), 20);
    assert_eq!(db.get_simmed_block_time(20).unwrap(), tip_time + 600);
    db.sim_mine_blocks(3).unwrap();
    assert_eq!(db.get_simmed_block_height().unwrap(), 23);
    assert_eq!(db.get_simmed_block_time(23).unwrap(), tip_time + 2_400);
    assert_eq!(db.get_simmed_block_time(19).unwrap(), tip_time);
    db.sim_mine_blocks(0).unwrap();
    assert_eq!(db.get_simmed_block_height().unwrap(), 23);
    db.sim_mine_block_with_time(5).unwrap();
    assert_eq!(db.get_simmed_block_height().unwrap(), 24);
    assert_eq!(db.get_simmed_block_time(24).unwrap(), 5);
    assert_eq!(db.get_simmed_block_header_hash(24).unwrap()[31], 24);
}

#[test]
fn mining_twice_is_mining_at_once() {
    let mut conn = ContractDatabaseConnection::memory().unwrap();
    let mut db = conn.begin_save_point().unwrap();
    db.sim_mine_blocks(2).unwrap();
    db.sim_mine_blocks(3).unwrap();
    let twice = (db.get_simmed_block_height().unwrap(), db.get_simmed_block_time(24).unwrap());
    db.roll_back().unwrap();
    db.sim_mine_blocks(5).unwrap();
    let once = (db.get_simmed_block_height().unwrap(), db.get_simmed_block_time(24).unwrap());
    assert_eq!(twice, once);
}

#[test]
fn a_failed_row_of_blocks_keeps_what_was_added() {
    let mut conn = ContractDatabaseConnection::memory().unwrap();
    let mut db = conn.begin_save_point().unwrap();
    db.sim_mine_block_with_time(i64::MAX as u64 - 1_300).unwrap();
    let error = db.sim_mine_blocks(5).unwrap_err();
    assert!(matches!(error.err_type, ErrType::Fatal(Fault::TimeOverflow)));
    assert_eq!(db.get_simmed_block_height().unwrap(), 22);
    assert_eq!(db.get_simmed_block_time(22).unwrap(), i64::MAX as u64 - 100);
}

#[test]
fn heights_wrap_in_the_last_byte() {
    let mut conn = ContractDatabaseConnection::memory().unwrap();
    let mut db = conn.begin_save_point().unwrap();
    db.sim_mine_blocks(238).unwrap();
    assert_eq!(db.get_simmed_block_height().unwrap(), 257);
    assert_eq!(db.get_simmed_block_header_hash(256).unwrap()[31], 0);
    assert_eq!(db.get_simmed_block_vrf_seed(257).unwrap().to_bytes()[31], 1);
    assert_eq!(simulate_bytes(7, 258)[0], 7);
    assert_eq!(simulate_bytes(7, 258)[31], 2);
    assert_eq!(simulate_bytes(7, 258).len(), 32);
}

#[test]
fn missing_blocks_are_faults() {
    let mut conn = ContractDatabaseConnection::memory().unwrap();
    let mut db = conn.begin_save_point().unwrap();
    let error = db.get_simmed_block_time(20).unwrap_err();
    assert!(matches!(error.err_type, ErrType::Fatal(Fault::NoBlockTime)));
    let error = db.get_simmed_block_header_hash(20).unwrap_err();
    assert!(matches!(error.err_type, ErrType::Fatal(Fault::NoBlockHeaderHash)));
    let error = db.get_simmed_block_vrf_seed(20).unwrap_err();
    assert!(matches!(error.err_type, ErrType::Fatal(Fault::NoBlockVRFSeed)));

    assert_eq!(db.execute("DELETE FROM simmed_block_table", vec![]).unwrap(), 20);
    let error = db.get_simmed_block_height().unwrap_err();
    assert!(matches!(error.err_type, ErrType::Fatal(Fault::NoBlockHeight)));
    let error = db.sim_mine_block().unwrap_err();
    assert!(matches!(error.err_type, ErrType::Fatal(Fault::NoBlockHeight)));
}

#[test]
fn blocks_out_of_range_are_refused() {
    let mut conn = ContractDatabaseConnection::memory().unwrap();
    let mut db = conn.begin_save_point().unwrap();
    db.execute("DELETE FROM simmed_block_table", vec![]).unwrap();

    db.execute(RAW_INSERT, raw_block(-2, -1, vec![0; 31])).unwrap();
    let error = db.get_simmed_block_height().unwrap_err();
    assert!(matches!(
        error.err_type, ErrType::Arithmetic(text) if text == "Overflowed fetching block height"
    ));
    let error = db.sim_mine_block_with_time(1).unwrap_err();
    assert!(matches!(error.err_type, ErrType::Fatal(Fault::BadTipHeight)));

    db.execute(RAW_INSERT, raw_block(3, -1, vec![0; 31])).unwrap();
    let error = db.get_simmed_block_time(3).unwrap_err();
    assert!(matches!(
        error.err_type, ErrType::Arithmetic(text) if text == "Overflowed fetching block time"
    ));
    let error = db.get_simmed_block_vrf_seed(3).unwrap_err();
    assert!(matches!(
        error.err_type,
        ErrType::ParseError(text)
            if text == "Failed to instantiate VRF seed from simmed db data"
    ));
    let error = db.sim_mine_block().unwrap_err();
    assert!(matches!(error.err_type, ErrType::Fatal(Fault::BadTipTime)));

    db.execute(RAW_INSERT, raw_block(4, i64::MAX - 599, vec![0; 32])).unwrap();
    let error = db.sim_mine_block().unwrap_err();
    assert!(matches!(error.err_type, ErrType::Fatal(Fault::TimeOverflow)));

    db.execute(RAW_INSERT, raw_block(i64::MAX, 5, vec![0; 32])).unwrap();
    let error = db.sim_mine_block().unwrap_err();
    assert!(matches!(error.err_type, ErrType::Fatal(Fault::HeightOverflow)));
}

#[test]
fn rows_say_what_a_block_is() {
    assert_eq!(tip_height(Some(5)).unwrap(), 5);
    let error = tip_height(Some(-1)).unwrap_err();
    assert!(matches!(error.err_type, ErrType::Arithmetic(t) if t == HEIGHT_OVERFLOW_MESSAGE));
    let error = tip_height(None).unwrap_err();
    assert!(matches!(error.err_type, ErrType::Fatal(Fault::NoBlockHeight)));

    assert_eq!(block_time(Some(0)).unwrap(), 0);
    let error = block_time(Some(-600)).unwrap_err();
    assert!(matches!(error.err_type, ErrType::Arithmetic(t) if t == TIME_OVERFLOW_MESSAGE));
    let error = block_time(None).unwrap_err();
    assert!(matches!(error.err_type, ErrType::Fatal(Fault::NoBlockTime)));

    assert_eq!(block_header_hash(Some(vec![1, 2])).unwrap(), vec![1, 2]);
    let error = block_header_hash(None).unwrap_err();
    assert!(matches!(error.err_type, ErrType::Fatal(Fault::NoBlockHeaderHash)));

    assert_eq!(block_vrf_seed(Some(vec![3; 32])).unwrap().to_bytes(), &[3u8; 32][..]);
    let error = block_vrf_seed(Some(vec![3; 33])).unwrap_err();
    assert!(matches!(error.err_type, ErrType::ParseError(t) if t == VRF_SEED_MESSAGE));
    let error = block_vrf_seed(None).unwrap_err();
    assert!(matches!(error.err_type, ErrType::Fatal(Fault::NoBlockVRFSeed)));
}

#[test]
fn a_seed_has_thirty_two_bytes() {
    assert!(VRFSeed::from_bytes(&[0; 31]).is_none());
    assert!(VRFSeed::from_bytes(&[0; 33]).is_none());
    assert_eq!(VRFSeed::from_bytes(&[4; 32]).unwrap().to_bytes(), &[4u8; 32][..]);
}

#[test]
fn a_rollback_undoes() {
    let mut conn = ContractDatabaseConnection::memory().unwrap();
    let mut db = conn.begin_save_point().unwrap();
    db.insert_contract("tokens", contract("(define)")).unwrap();
    db.sim_mine_block().unwrap();
    db.roll_back().unwrap();
    assert!(db.get_contract("tokens").is_err());
    assert_eq!(db.get_simmed_block_height().unwrap(), 19);
    db.insert_contract("tokens", contract("(other)")).unwrap();
    db.commit().unwrap();
    let mut db = conn.begin_save_point().unwrap();
    assert_eq!(db.get_contract("tokens").unwrap(), contract("(other)"));
}

#[test]
fn a_commit_stays() {
    let mut conn = ContractDatabaseConnection::memory().unwrap();
    let mut db = conn.begin_save_point().unwrap();
    db.insert_contract("tokens", contract("(define)")).unwrap();
    db.commit().unwrap();
    let mut db = conn.begin_save_point().unwrap();
    assert_eq!(db.get_contract("tokens").unwrap(), contract("(define)"));
}

#[test]
fn what_is_not_committed_is_lost() {
    let mut conn = ContractDatabaseConnection::memory().unwrap();
    {
        let mut db = conn.begin_save_point().unwrap();
        db.insert_contract("tokens", contract("(define)")).unwrap();
    }
    let mut db = conn.begin_save_point().unwrap();
    assert!(db.get_contract("tokens").is_err());
}

#[test]
fn savepoints_nest() {
    let mut conn = ContractDatabaseConnection::memory().unwrap();
    let mut outer = conn.begin_save_point().unwrap();
    outer.insert_contract("outer", contract("1")).unwrap();
    {
        let mut inner = outer.begin_save_point().unwrap();
        assert_eq!(inner.get_contract("outer").unwrap(), contract("1"));
        inner.insert_contract("kept", contract("2")).unwrap();
        inner.commit().unwrap();
    }
    {
        let mut inner = outer.begin_save_point().unwrap();
        inner.insert_contract("undone", contract("3")).unwrap();
        inner.roll_back().unwrap();
        assert_eq!(inner.get_contract("kept").unwrap(), contract("2"));
        inner.commit().unwrap();
    }
    assert_eq!(outer.get_contract("kept").unwrap(), contract("2"));
    assert!(outer.get_contract("undone").is_err());
    outer.roll_back().unwrap();
    assert!(outer.get_contract("kept").is_err());
    assert!(outer.get_contract("outer").is_err());
}

#[test]
fn a_raw_savepoint_is_a_database() {
    let mut conn = ContractDatabaseConnection::memory().unwrap();
    let raw = conn.begin_save_point_raw().unwrap();
    let mut db = ContractDatabase::from_savepoint(raw);
    db.sim_mine_block().unwrap();
    db.commit().unwrap();
    let mut db = conn.begin_save_point().unwrap();
    assert_eq!(db.get_simmed_block_height().unwrap(), 20);
}

#[test]
fn a_database_without_tables_is_not_opened() {
    let error = ContractDatabaseConnection::open(":memory:").map(|_| ()).unwrap_err();
    assert!(matches!(error.err_type, ErrType::SqliteError(_)));
    let error = ContractDatabaseConnection::inner_open("/nowhere/at/all/db").map(|_| ());
    assert!(matches!(error.unwrap_err().err_type, ErrType::SqliteError(_)));
    let mut conn = ContractDatabaseConnection::inner_open(":memory:").unwrap();
    assert!(matches!(conn.check_schema().unwrap_err().err_type, ErrType::SqliteError(_)));
}

#[test]
fn a_database_is_initialized_once() {
    let name = "file:initialized_once?mode=memory&cache=shared";
    let mut first = ContractDatabaseConnection::initialize(name).unwrap();
    let error = ContractDatabaseConnection::initialize(name).map(|_| ()).unwrap_err();
    match error.err_type {
        ErrType::Fatal(fault) => {
            assert_eq!(fault.message(), "PANIC: SQL Failure in Smart Contract VM.");
        }
        _ => panic!("the blocks were there"),
    }
    let mut db = first.begin_save_point().unwrap();
    assert_eq!(db.get_simmed_block_height().unwrap(), 19);
}

#[test]
fn an_initialized_database_is_opened() {
    let name = "file:opened_again?mode=memory&cache=shared";
    let mut first = ContractDatabaseConnection::initialize(name).unwrap();
    let mut db = first.begin_save_point().unwrap();
    db.insert_contract("tokens", contract("(define)")).unwrap();
    db.commit().unwrap();
    let mut second = ContractDatabaseConnection::open(name).unwrap();
    let mut db = second.begin_save_point().unwrap();
    assert_eq!(db.get_contract("tokens").unwrap(), contract("(define)"));
}

#[test]
fn a_statement_reports_the_rows_it_changed() {
    let mut conn = ContractDatabaseConnection::memory().unwrap();
    assert_eq!(
        conn.execute("UPDATE simmed_block_table SET block_time = ?", vec![SqlValue::Integer(7)])
            .unwrap(),
        20
    );
    let mut db = conn.begin_save_point().unwrap();
    assert_eq!(db.get_simmed_block_time(4).unwrap(), 7);
    let text = SqlValue::Text("a".to_string());
    let sql = "INSERT INTO data_table (map_identifier, key, value) VALUES (?, ?, ?)";
    assert_eq!(db.execute(sql, vec![SqlValue::Integer(1), text, SqlValue::Null]).unwrap(), 1);
}

#[test]
fn a_bad_statement_is_a_fault() {
    let mut conn = ContractDatabaseConnection::memory().unwrap();
    let error = conn.execute("CREATE NOTHING", vec![]).unwrap_err();
    assert!(matches!(error.err_type, ErrType::Fatal(Fault::Sql(_))));
    let mut db = conn.begin_save_point().unwrap();
    let error = db.execute("DELETE FROM contracts", vec![SqlValue::Null]).unwrap_err();
    assert!(matches!(error.err_type, ErrType::Fatal(Fault::Sql(_))));
    let error = db.execute("", vec![]).unwrap_err();
    assert!(matches!(error.err_type, ErrType::Fatal(Fault::Sql(_))));
}

#[test]
fn faults_have_messages() {
    assert_eq!(Fault::NoBlockHeight.message(), "Failed to fetch simulated block height");
    assert_eq!(Fault::NoBlockTime.message(), "Failed to fetch simulated block time");
    assert_eq!(Fault::NoBlockHeaderHash.message(), "Failed to fetch simulated block header hash");
    assert_eq!(Fault::NoBlockVRFSeed.message(), "Failed to fetch simulated block vrf seed");
    assert_eq!(Fault::BadTipHeight.message(), "Failed to get simulated block height");
    assert_eq!(Fault::BadTipTime.message(), "Failed to get simulated block time");
    assert_eq!(
        Fault::TimeOverflow.message(),
        "Integer overflow while increasing simulated block time"
    );
    assert_eq!(Fault::ClockBeforeEpoch.message(), "Time went backwards");
    assert_eq!(Fault::HeightOverflow.message(), "Simulated block height out of range");
    assert_eq!(Fault::ClockOutOfRange.message(), "Time out of range");
}

#[test]
fn the_clock_must_leave_room_for_the_blocks() {
    let last = i64::MAX as u64 + 600;
    assert!(check_clock(12_000).is_ok());
    assert!(check_clock(last).is_ok());
    for time_now in [0, 11_999, last + 1, u64::MAX] {
        let error = check_clock(time_now).unwrap_err();
        assert!(matches!(error.err_type, ErrType::Fatal(Fault::ClockOutOfRange)));
    }
}

#[test]
fn a_refused_initialization_leaves_the_rows() {
    let name = "file:refused_again?mode=memory&cache=shared";
    let mut first = ContractDatabaseConnection::initialize(name).unwrap();
    let mut db = first.begin_save_point().unwrap();
    db.insert_contract("tokens", contract("(define)")).unwrap();
    db.sim_mine_block_with_time(77).unwrap();
    let times: Vec<u64> = (0..21).map(|h| db.get_simmed_block_time(h).unwrap()).collect();
    db.commit().unwrap();
    let error = ContractDatabaseConnection::initialize(name).map(|_| ()).unwrap_err();
    assert!(matches!(error.err_type, ErrType::Fatal(Fault::Sql(_))));
    let mut db = first.begin_save_point().unwrap();
    assert_eq!(db.get_contract("tokens").unwrap(), contract("(define)"));
    assert_eq!(db.get_simmed_block_height().unwrap(), 20);
    let later: Vec<u64> = (0..21).map(|h| db.get_simmed_block_time(h).unwrap()).collect();
    assert_eq!(times, later);
}

#[test]
fn an_interrupted_initialization_keeps_what_it_added() {
    let mut conn = ContractDatabaseConnection::inner_open(":memory:").unwrap();
    conn.create_tables().unwrap();
    conn.execute(RAW_INSERT, raw_block(2, 9, vec![0; 32])).unwrap();
    let error = conn.insert_simmed_blocks(12_600).unwrap_err();
    assert!(matches!(error.err_type, ErrType::Fatal(Fault::Sql(_))));
    let mut db = conn.begin_save_point().unwrap();
    assert_eq!(db.get_simmed_block_time(0).unwrap(), 600);
    assert_eq!(db.get_simmed_block_time(1).unwrap(), 1_200);
    assert_eq!(db.get_simmed_block_time(2).unwrap(), 9);
    assert_eq!(db.get_simmed_block_height().unwrap(), 2);
}

#[test]
fn a_refused_schema_check_changes_nothing() {
    let mut conn = ContractDatabaseConnection::inner_open(":memory:").unwrap();
    conn.execute("CREATE TABLE maps_table (a)", vec![]).unwrap();
    match conn.check_schema().unwrap_err().err_type {
        ErrType::SqliteError(failure) => {
            assert!(matches!(failure.err, rusqlite::Error::QueryReturnedNoRows));
        }
        _ => panic!("a table was missing"),
    }
    assert!(conn.execute("INSERT INTO contracts VALUES (1)", vec![]).is_err());
    assert_eq!(conn.execute("INSERT INTO maps_table VALUES (1)", vec![]).unwrap(), 1);
}

#[test]
fn the_named_database_is_opened() {
    let name = "file:opened_by_name?mode=memory&cache=shared";
    let other = "file:opened_by_another_name?mode=memory&cache=shared";
    let mut first = ContractDatabaseConnection::initialize(name).unwrap();
    assert!(ContractDatabaseConnection::open(other).is_err());
    let mut second = ContractDatabaseConnection::initialize(other).unwrap();
    first.begin_save_point().unwrap().sim_mine_block().unwrap();
    let mut db = first.begin_save_point().unwrap();
    db.sim_mine_block().unwrap();
    db.commit().unwrap();
    let mut db = second.begin_save_point().unwrap();
    assert_eq!(db.get_simmed_block_height().unwrap(), 19);
}

#[test]
fn the_tables_are_made_with_their_texts() {
    let name = "file:schema_texts?mode=memory&cache=shared";
    let _kept = ContractDatabaseConnection::initialize(name).unwrap();
    let raw = rusqlite::Connection::open(name).unwrap();
    let sql = "SELECT sql FROM sqlite_master WHERE name = ?";
    let text: String = raw.query_row(sql, &["contracts"], |row| row.get(0)).unwrap();
    assert_eq!(
        text,
        "CREATE TABLE contracts\n                      \
         (contract_identifier INTEGER PRIMARY KEY AUTOINCREMENT,\n                       \
         contract_name TEXT UNIQUE NOT NULL,\n                       \
         contract_data TEXT NOT NULL)"
    );
}

#[test]
fn mining_no_blocks_succeeds_without_a_block() {
    let mut conn = ContractDatabaseConnection::memory().unwrap();
    let mut db = conn.begin_save_point().unwrap();
    db.execute("DELETE FROM simmed_block_table", vec![]).unwrap();
    db.sim_mine_blocks(0).unwrap();
    assert!(db.sim_mine_blocks(1).is_err());
    db.execute("DROP TABLE simmed_block_table", vec![]).unwrap();
    db.sim_mine_blocks(0).unwrap();
}

#[test]
fn the_blocks_are_a_chain() {
    let mut conn = ContractDatabaseConnection::memory().unwrap();
    let mut db = conn.begin_save_point().unwrap();
    db.sim_mine_blocks(2).unwrap();
    db.sim_mine_block_with_time(0).unwrap();
    db.sim_mine_block().unwrap();
    let tip = db.get_simmed_block_height().unwrap();
    assert_eq!(tip, 23);
    for height in 0..=tip {
        assert!(db.get_simmed_block_time(height).is_ok());
        let seed = db.get_simmed_block_vrf_seed(height).unwrap();
        assert_eq!(seed.to_bytes(), &simulate_bytes(1, height as i64)[..]);
        let hash = db.get_simmed_block_header_hash(height).unwrap();
        assert_eq!(hash, simulate_bytes(2, height as i64));
    }
    assert_eq!(db.get_simmed_block_time(22).unwrap(), 0);
    assert_eq!(db.get_simmed_block_time(23).unwrap(), 600);
}

#[test]
fn an_outer_rollback_undoes_every_inner_savepoint() {
    let mut conn = ContractDatabaseConnection::memory().unwrap();
    let mut outer = conn.begin_save_point().unwrap();
    outer.insert_contract("outer", contract("1")).unwrap();
    {
        let mut inner = outer.begin_save_point().unwrap();
        inner.insert_contract("dropped", contract("2")).unwrap();
    }
    assert!(outer.get_contract("dropped").is_err());
    assert_eq!(outer.get_contract("outer").unwrap(), contract("1"));
    {
        let mut inner = outer.begin_save_point().unwrap();
        inner.insert_contract("kept", contract("3")).unwrap();
        inner.commit().unwrap();
    }
    assert_eq!(outer.get_contract("kept").unwrap(), contract("3"));
    outer.roll_back().unwrap();
    assert!(outer.get_contract("kept").is_err());
    assert!(outer.get_contract("outer").is_err());
}

#[test]
fn a_name_is_free_or_taken() {
    assert!(check_free(None, "tokens").is_ok());
    let error = check_free(Some(contract("a")), "tokens").unwrap_err();
    assert!(matches!(
        error.err_type, ErrType::Fatal(Fault::ContractExists(name)) if name == "tokens"
    ));
}

#[test]
fn the_next_block_is_one_higher_and_later() {
    assert_eq!(next_height(0).unwrap(), 1);
    assert_eq!(next_height(i64::MAX as u64 - 1).unwrap(), i64::MAX);
    let error = next_height(i64::MAX as u64).unwrap_err();
    assert!(matches!(error.err_type, ErrType::Fatal(Fault::HeightOverflow)));

    assert_eq!(next_time(0).unwrap(), 600);
    assert_eq!(next_time(i64::MAX as u64 - 600).unwrap(), i64::MAX as u64);
    let error = next_time(i64::MAX as u64 - 599).unwrap_err();
    assert!(matches!(error.err_type, ErrType::Fatal(Fault::TimeOverflow)));
}

#[test]
fn the_latest_time_is_stored_exactly() {
    let mut conn = ContractDatabaseConnection::memory().unwrap();
    let mut db = conn.begin_save_point().unwrap();
    db.sim_mine_block_with_time(i64::MAX as u64).unwrap();
    assert_eq!(db.get_simmed_block_time(20).unwrap(), i64::MAX as u64);
    assert!(db.sim_mine_block().is_err());
    assert_eq!(db.get_simmed_block_height().unwrap(), 20);
}

#[test]
fn a_refusal_is_told_from_a_failure() {
    let mut conn = ContractDatabaseConnection::memory().unwrap();
    let error = conn.execute(RAW_INSERT, raw_block(3, 9, vec![0; 32])).unwrap_err();
    assert!(error.was_refused() && !error.found_no_row());
    let error = conn.insert_simmed_blocks(12_000).unwrap_err();
    assert!(error.was_refused());
    let error = conn.execute("CREATE NOTHING", vec![]).unwrap_err();
    assert!(!error.was_refused() && !error.found_no_row());

    let mut db = conn.begin_save_point().unwrap();
    db.insert_contract("tokens", contract("(define)")).unwrap();
    assert!(!db.insert_contract("tokens", contract("(other)")).unwrap_err().was_refused());

    let mut empty = ContractDatabaseConnection::inner_open(":memory:").unwrap();
    let error = empty.check_schema().unwrap_err();
    assert!(error.found_no_row() && !error.was_refused());
    let error = ContractDatabaseConnection::inner_open("/nowhere/at/all/db").map(|_| ());
    assert!(!error.unwrap_err().found_no_row());
}

#[test]
fn a_database_that_holds_more_passes_the_schema_check() {
    let mut conn = ContractDatabaseConnection::memory().unwrap();
    conn.execute("CREATE TABLE more (a)", vec![]).unwrap();
    conn.check_schema().unwrap();
    conn.execute("DROP TABLE data_table", vec![]).unwrap();
    assert!(conn.check_schema().unwrap_err().found_no_row());
}
