//! The simulated blocks.

use crate::errors::{DatabaseError, ErrType, Fault};
use crate::tables::{
    cells, fits, has_tables, is_tip, is_valid, stays_valid, with_row, Cell, Rows, SqlValue, Table,
    Tables, INSERT_BLOCK,
};
use crate::values::{VRFSeed, VRF_SEED_LENGTH};
use vstd::prelude::*;

verus! {

/// The time between two simulated blocks, in seconds: ten minutes.
pub const SIMMED_BLOCK_TIME: u64 = 600;

/// How many simulated blocks a new database has.
pub const SIMMED_BLOCK_COUNT: u64 = 20;

/// The first byte of a simulated VRF seed.
pub const VRF_SEED_MARK: u8 = 1;

/// The first byte of a simulated header hash.
pub const HEADER_HASH_MARK: u8 = 2;

pub const HEIGHT_OVERFLOW_MESSAGE: &'static str = "Overflowed fetching block height";

pub const TIME_OVERFLOW_MESSAGE: &'static str = "Overflowed fetching block time";

pub const VRF_SEED_MESSAGE: &'static str = "Failed to instantiate VRF seed from simmed db data";

/// The simulated bytes of a block: a mark, the low byte of the height at the end, and zeros
/// between.
pub open spec fn simulated_bytes(mark: u8, height: i64) -> Seq<u8> {
    Seq::new(
        32,
        |i: int|
            if i == 0 {
                mark
            } else if i == 31 {
                (height % 256) as u8
            } else {
                0u8
            },
    )
}

/// The row of the simulated block of this height and time.
pub open spec fn block_row(height: i64, time: i64) -> Seq<Cell> {
    seq![
        Cell::Integer(time),
        Cell::Blob(simulated_bytes(VRF_SEED_MARK, height)),
        Cell::Blob(simulated_bytes(HEADER_HASH_MARK, height)),
    ]
}

/// What is handed to the statement that stores the simulated block of this height and time.
pub open spec fn block_cells(height: i64, time: i64) -> Seq<Cell> {
    seq![Cell::Integer(height)] + block_row(height, time)
}

/// The statement that stores the simulated block of this height and time, and what is handed to it.
pub open spec fn stores_block(statement: (Seq<char>, Seq<Cell>), height: i64, time: i64) -> bool {
    statement == (INSERT_BLOCK@, block_cells(height, time))
}

/// The database after the simulated block of this height and time was added.
pub open spec fn with_block(before: Tables, height: i64, time: i64) -> Tables {
    with_row(before, Table::Blocks, height, block_row(height, time))
}

/// The tip is the block of height `tip`, of time `time`.
pub open spec fn is_tip_at(tables: Tables, tip: i64, time: i64) -> bool {
    &&& is_tip(tables, tip)
    &&& tables[Table::Blocks][tip][0] == Cell::Integer(time)
}

/// The database after `count` simulated blocks were added to a tip of height `tip` and time
/// `time`, each of them one higher and one block time later than the one before.
pub open spec fn mined(before: Tables, tip: int, time: int, count: nat) -> Tables
    decreases count,
{
    if count == 0 {
        before
    } else {
        with_block(
            mined(before, tip, time, (count - 1) as nat),
            (tip + count) as i64,
            (time + count * SIMMED_BLOCK_TIME) as i64,
        )
    }
}

/// The blocks are those of the heights from 0 to `tip`, each with a time that is not negative and
/// with the simulated bytes of its height.
pub open spec fn is_chain(tables: Tables, tip: i64) -> bool {
    &&& 0 <= tip
    &&& forall|height: i64| #[trigger]
        tables[Table::Blocks].contains_key(height) <==> 0 <= height <= tip
    &&& forall|height: i64|
        0 <= height <= tip ==> is_simulated(#[trigger] tables[Table::Blocks][height], height)
}

/// `row` is the row of a simulated block of this height, of some time that is not negative.
pub open spec fn is_simulated(row: Seq<Cell>, height: i64) -> bool {
    exists|time: i64| 0 <= time && row == #[trigger] block_row(height, time)
}

/// `after` is `before` after `count` simulated blocks were added.
pub open spec fn extends(before: Tables, after: Tables, count: nat) -> bool {
    if count == 0 {
        after == before
    } else {
        exists|tip: i64, time: i64|
            {
                &&& #[trigger] is_tip_at(before, tip, time)
                &&& 0 <= tip
                &&& 0 <= time
                &&& tip + count <= i64::MAX
                &&& time + count * SIMMED_BLOCK_TIME <= i64::MAX
                &&& after == mined(before, tip as int, time as int, count)
            }
    }
}

/// `error` says why no block can be added: there is none to add it to, or its height is no
/// height, or is the last that there can be.
pub open spec fn cannot_extend(tables: Tables, error: DatabaseError) -> bool {
    ||| {
        &&& error.is_fault(Fault::NoBlockHeight)
        &&& has_tables(tables) ==> forall|height: i64|
            !tables[Table::Blocks].contains_key(height)
    }
    ||| {
        &&& error.is_fault(Fault::BadTipHeight)
        &&& has_tables(tables) ==> exists|tip: i64| tip < 0 && is_tip(tables, tip)
    }
    ||| {
        &&& error.is_fault(Fault::HeightOverflow)
        &&& has_tables(tables) ==> is_tip(tables, i64::MAX)
    }
}

/// `error` says why no block can be added one block time later: the time of the newest block is
/// no time, or is too late.
pub open spec fn cannot_extend_in_time(tables: Tables, error: DatabaseError) -> bool {
    ||| {
        &&& error.is_fault(Fault::NoBlockTime)
        &&& !has_tables(tables)
    }
    ||| {
        &&& error.is_fault(Fault::BadTipTime)
        &&& has_tables(tables) ==> exists|tip: i64, time: i64|
            time < 0 && #[trigger] is_tip_at(tables, tip, time)
    }
    ||| {
        &&& error.is_fault(Fault::TimeOverflow)
        &&& has_tables(tables) ==> exists|tip: i64, time: i64|
            time + SIMMED_BLOCK_TIME > i64::MAX && #[trigger] is_tip_at(tables, tip, time)
    }
}

/// The time of the first simulated block of this height, in a database made at `time_now`.
pub open spec fn first_time(height: i64, time_now: int) -> i64 {
    (time_now - (SIMMED_BLOCK_COUNT - height) * SIMMED_BLOCK_TIME) as i64
}

/// The first `count` of the simulated blocks that a database made at `time_now` starts with.
pub open spec fn first_blocks(count: int, time_now: int) -> Rows {
    Map::new(
        |height: i64| 0 <= height < count,
        |height: i64| block_row(height, first_time(height, time_now)),
    )
}

/// The clock leaves room for the first simulated blocks, and their times can be stored.
pub open spec fn is_storable_clock(time_now: int) -> bool {
    SIMMED_BLOCK_COUNT * SIMMED_BLOCK_TIME <= time_now <= i64::MAX + SIMMED_BLOCK_TIME
}

/// The simulated bytes of a block.
pub fn simulate_bytes(mark: u8, height: i64) -> (res: Vec<u8>)
    requires
        0 <= height,
    ensures
        res@ == simulated_bytes(mark, height),
        res@.len() == 32,
        res@[0] == mark,
        forall|i: int| 1 <= i < 31 ==> #[trigger] res@[i] == 0,
        (height - res@[31]) % 256 == 0,
{
    let mut bytes: Vec<u8> = vec![0u8; 32];
    bytes[0] = mark;
    bytes[31] = (height % 256) as u8;
    assert(bytes@ =~= simulated_bytes(mark, height));
    bytes
}

/// What is handed to the statement that stores the simulated block of this height and time.
pub fn block_params(height: i64, time: i64) -> (res: Vec<SqlValue>)
    requires
        0 <= height,
    ensures
        cells(res@) == block_cells(height, time),
        fits(Table::Blocks, cells(res@)),
        cells(res@).skip(1) == block_row(height, time),
{
    let vrf_bytes = simulate_bytes(VRF_SEED_MARK, height);
    let vrf_seed = VRFSeed::from_bytes(vrf_bytes.as_slice()).unwrap();
    let stored_seed = vstd::slice::slice_to_vec(vrf_seed.to_bytes());
    let header_hash = simulate_bytes(HEADER_HASH_MARK, height);
    let mut params: Vec<SqlValue> = Vec::new();
    params.push(SqlValue::Integer(height));
    params.push(SqlValue::Integer(time));
    params.push(SqlValue::Blob(stored_seed));
    params.push(SqlValue::Blob(header_hash));
    assert(cells(params@) =~= block_cells(height, time));
    assert(cells(params@).skip(1) =~= block_row(height, time));
    params
}

/// The height of the highest block, from what the database says it is.
pub fn tip_height(found: Option<i64>) -> (res: Result<u64, DatabaseError>)
    ensures
        match found {
            None => res matches Err(e) && e.is_fault(Fault::NoBlockHeight),
            Some(height) => if height < 0 {
                &&& res matches Err(e)
                &&& e.err_type matches ErrType::Arithmetic(text)
                &&& text@ == HEIGHT_OVERFLOW_MESSAGE@
            } else {
                res == Ok::<u64, DatabaseError>(height as u64)
            },
        },
{
    match found {
        None => Err(DatabaseError::new(ErrType::Fatal(Fault::NoBlockHeight))),
        Some(height) => if height < 0 {
            Err(DatabaseError::new(ErrType::Arithmetic(HEIGHT_OVERFLOW_MESSAGE.to_owned())))
        } else {
            Ok(height as u64)
        },
    }
}

/// The time of a block, from what the database says it is.
pub fn block_time(found: Option<i64>) -> (res: Result<u64, DatabaseError>)
    ensures
        match found {
            None => res matches Err(e) && e.is_fault(Fault::NoBlockTime),
            Some(time) => if time < 0 {
                &&& res matches Err(e)
                &&& e.err_type matches ErrType::Arithmetic(text)
                &&& text@ == TIME_OVERFLOW_MESSAGE@
            } else {
                res == Ok::<u64, DatabaseError>(time as u64)
            },
        },
{
    match found {
        None => Err(DatabaseError::new(ErrType::Fatal(Fault::NoBlockTime))),
        Some(time) => if time < 0 {
            Err(DatabaseError::new(ErrType::Arithmetic(TIME_OVERFLOW_MESSAGE.to_owned())))
        } else {
            Ok(time as u64)
        },
    }
}

/// The height above a tip of height `tip`.
pub fn next_height(tip: u64) -> (res: Result<i64, DatabaseError>)
    requires
        tip <= i64::MAX,
    ensures
        match res {
            Ok(height) => height == tip + 1,
            Err(e) => tip == i64::MAX && e.is_fault(Fault::HeightOverflow),
        },
{
    if tip == i64::MAX as u64 {
        Err(DatabaseError::new(ErrType::Fatal(Fault::HeightOverflow)))
    } else {
        Ok((tip + 1) as i64)
    }
}

/// The time one block time after a tip of time `tip_time`.
pub fn next_time(tip_time: u64) -> (res: Result<u64, DatabaseError>)
    requires
        tip_time <= i64::MAX,
    ensures
        match res {
            Ok(time) => time == tip_time + SIMMED_BLOCK_TIME && time <= i64::MAX,
            Err(e) => {
                &&& tip_time + SIMMED_BLOCK_TIME > i64::MAX
                &&& e.is_fault(Fault::TimeOverflow)
            },
        },
{
    let time: u64 = tip_time + SIMMED_BLOCK_TIME;
    if time > i64::MAX as u64 {
        Err(DatabaseError::new(ErrType::Fatal(Fault::TimeOverflow)))
    } else {
        Ok(time)
    }
}

/// The header hash of a block, from what the database says it is.
pub fn block_header_hash(found: Option<Vec<u8>>) -> (res: Result<Vec<u8>, DatabaseError>)
    ensures
        match found {
            None => res matches Err(e) && e.is_fault(Fault::NoBlockHeaderHash),
            Some(bytes) => res == Ok::<Vec<u8>, DatabaseError>(bytes),
        },
{
    match found {
        None => Err(DatabaseError::new(ErrType::Fatal(Fault::NoBlockHeaderHash))),
        Some(bytes) => Ok(bytes),
    }
}

/// The VRF seed of a block, from what the database says it is.
pub fn block_vrf_seed(found: Option<Vec<u8>>) -> (res: Result<VRFSeed, DatabaseError>)
    ensures
        match found {
            None => res matches Err(e) && e.is_fault(Fault::NoBlockVRFSeed),
            Some(bytes) => if bytes@.len() == VRF_SEED_LENGTH {
                res matches Ok(seed) && seed@ == bytes@
            } else {
                &&& res matches Err(e)
                &&& e.err_type matches ErrType::ParseError(text)
                &&& text@ == VRF_SEED_MESSAGE@
            },
        },
{
    match found {
        None => Err(DatabaseError::new(ErrType::Fatal(Fault::NoBlockVRFSeed))),
        Some(bytes) => match VRFSeed::from_bytes(bytes.as_slice()) {
            Some(seed) => Ok(seed),
            None => Err(DatabaseError::new(ErrType::ParseError(VRF_SEED_MESSAGE.to_owned()))),
        },
    }
}

/// A new block keeps the database valid.
pub(crate) proof fn lemma_new_block_is_valid(before: Tables, height: i64, time: i64)
    requires
        has_tables(before),
    ensures
        stays_valid(before, with_block(before, height, time)),
{
    let after = with_block(before, height, time);
    assert forall|n: i64|
        is_valid(before) && #[trigger] after[Table::Data].contains_key(n) implies {
        &&& after[Table::Data][n][0] matches Cell::Integer(m)
        &&& after[Table::Maps].contains_key(m)
    } by {
        assert(before[Table::Data].contains_key(n));
    }
}

/// A block above the tip is the new tip.
pub(crate) proof fn lemma_new_block_is_tip(before: Tables, tip: i64, height: i64, time: i64)
    requires
        is_tip(before, tip),
        tip < height,
    ensures
        is_tip_at(with_block(before, height, time), height, time),
{
    let after = with_block(before, height, time);
    assert forall|other: i64| #[trigger] after[Table::Blocks].contains_key(other) implies other
        <= height by {
        if other != height {
            assert(before[Table::Blocks].contains_key(other));
        }
    }
}

/// The last of the added blocks is the tip.
pub(crate) proof fn lemma_mined_tip(before: Tables, tip: i64, time: i64, count: nat)
    requires
        is_tip_at(before, tip, time),
        tip + count <= i64::MAX,
        time + count * SIMMED_BLOCK_TIME <= i64::MAX,
        0 <= time,
    ensures
        is_tip_at(
            mined(before, tip as int, time as int, count),
            (tip + count) as i64,
            (time + count * SIMMED_BLOCK_TIME) as i64,
        ),
    decreases count,
{
    if count > 0 {
        let less = (count - 1) as nat;
        lemma_mined_tip(before, tip, time, less);
        lemma_new_block_is_tip(
            mined(before, tip as int, time as int, less),
            (tip + less) as i64,
            (tip + count) as i64,
            (time + count * SIMMED_BLOCK_TIME) as i64,
        );
    }
}

/// One block more.
pub(crate) proof fn lemma_extends_further(
    before: Tables,
    middle: Tables,
    after: Tables,
    count: nat,
)
    requires
        extends(before, middle, count),
        extends(middle, after, 1),
    ensures
        extends(before, after, count + 1),
{
    let (last, last_time) = choose|tip: i64, time: i64|
        {
            &&& #[trigger] is_tip_at(middle, tip, time)
            &&& 0 <= tip
            &&& 0 <= time
            &&& tip + 1 <= i64::MAX
            &&& time + 1 * SIMMED_BLOCK_TIME <= i64::MAX
            &&& after == mined(middle, tip as int, time as int, 1)
        };
    reveal_with_fuel(mined, 2);
    if count > 0 {
        let (tip, time) = choose|tip: i64, time: i64|
            {
                &&& #[trigger] is_tip_at(before, tip, time)
                &&& 0 <= tip
                &&& 0 <= time
                &&& tip + count <= i64::MAX
                &&& time + count * SIMMED_BLOCK_TIME <= i64::MAX
                &&& middle == mined(before, tip as int, time as int, count)
            };
        lemma_mined_tip(before, tip, time, count);
        assert(last == tip + count);
        assert(last_time == time + count * SIMMED_BLOCK_TIME);
        assert(after == mined(before, tip as int, time as int, count + 1));
    }
}

} // verus!
