//! What can go wrong.

use crate::sqlite::{breaks_constraint, is_constraint, is_no_row, says_no_row, Answer};
use crate::values::{TypeSignature, Value};
use vstd::prelude::*;
use vstd::string::*;

verus! {

/// A failure that SQLite reported. Two of them cannot be compared.
#[derive(Debug)]
pub struct IncomparableError {
    pub err: rusqlite::Error,
}

/// A condition on which the application stops: it means that the database or the machine is in
/// a state that the store cannot go on from.
#[derive(Debug)]
pub enum Fault {
    /// SQLite failed to run a statement.
    Sql(IncomparableError),
    /// A contract of this name is stored already.
    ContractExists(String),
    /// There is no simulated block at all.
    NoBlockHeight,
    /// The simulated block asked for does not exist, so it has no time.
    NoBlockTime,
    /// The simulated block asked for does not exist, so it has no header hash.
    NoBlockHeaderHash,
    /// The simulated block asked for does not exist, so it has no VRF seed.
    NoBlockVRFSeed,
    /// The height of the newest simulated block is not a height.
    BadTipHeight,
    /// The time of the newest simulated block is not a time.
    BadTipTime,
    /// The next simulated block would be too high to be stored.
    HeightOverflow,
    /// The next simulated block would be too late to be stored.
    TimeOverflow,
    /// The clock stands before the Unix epoch.
    ClockBeforeEpoch,
    /// The clock leaves no room for the simulated blocks before it, or is too far in the future
    /// for them to be stored.
    ClockOutOfRange,
}

/// What went wrong.
#[derive(Debug)]
pub enum ErrType {
    /// The contract has no map of this name.
    UndefinedMap(String),
    /// There is no contract of this name.
    UndefinedContract(String),
    /// The type does not admit the value.
    TypeError(TypeSignature, Value),
    /// A stored number is out of the range of what it stands for.
    Arithmetic(String),
    /// Stored bytes do not have the form of what they stand for.
    ParseError(String),
    /// SQLite could not open the database, or the database lacks a table.
    SqliteError(IncomparableError),
    /// The application has to stop.
    Fatal(Fault),
}

/// An error of the store.
#[derive(Debug)]
pub struct DatabaseError {
    pub err_type: ErrType,
}

impl DatabaseError {
    pub fn new(err_type: ErrType) -> (res: DatabaseError)
        ensures
            res.err_type == err_type,
    {
        DatabaseError { err_type }
    }

    /// The error says that SQLite failed to run a statement.
    pub open spec fn is_sql_fault(self) -> bool {
        self.err_type matches ErrType::Fatal(Fault::Sql(_))
    }

    /// The error says that SQLite refused a statement because of a constraint.
    pub open spec fn is_refusal(self) -> bool {
        self.err_type matches ErrType::Fatal(Fault::Sql(failure)) && breaks_constraint(failure.err)
    }

    /// The error says that SQLite failed to run a statement for a reason other than a constraint:
    /// the machine, or what the database holds besides the store.
    pub open spec fn is_failure(self) -> bool {
        self.is_sql_fault() && !self.is_refusal()
    }

    /// Whether the error says that SQLite refused a statement because of a constraint.
    pub fn was_refused(&self) -> (res: bool)
        ensures
            res == self.is_refusal(),
    {
        match &self.err_type {
            ErrType::Fatal(Fault::Sql(failure)) => is_constraint(&failure.err),
            _ => false,
        }
    }

    /// Whether the error says that a query gave no row.
    pub fn found_no_row(&self) -> (res: bool)
        ensures
            res == self.lacks_row(),
    {
        match &self.err_type {
            ErrType::SqliteError(failure) => is_no_row(&failure.err),
            _ => false,
        }
    }

    /// The error says that a query gave no row.
    pub open spec fn lacks_row(self) -> bool {
        self.err_type matches ErrType::SqliteError(failure) && says_no_row(failure.err).no_row
    }

    /// The error of SQLite in this error, if there is one.
    pub open spec fn sqlite_error(self) -> Option<rusqlite::Error> {
        match self.err_type {
            ErrType::SqliteError(failure) => Some(failure.err),
            ErrType::Fatal(Fault::Sql(failure)) => Some(failure.err),
            _ => None,
        }
    }

    /// The error is the fault `fault`.
    pub open spec fn is_fault(self, fault: Fault) -> bool {
        self.err_type == ErrType::Fatal(fault)
    }
}

/// The error of SQLite in a result, if there is one.
pub open spec fn error_in<T>(res: Result<T, DatabaseError>) -> Option<rusqlite::Error> {
    match res {
        Ok(_) => None,
        Err(e) => e.sqlite_error(),
    }
}

/// Between `before` and `after`, the answers of a connection or a savepoint, none but the last call
/// failed; if that did, its error is the one that is given, and if it did not, none is given.
pub open spec fn reports(
    before: Seq<Answer>,
    after: Seq<Answer>,
    given: Option<rusqlite::Error>,
) -> bool {
    &&& before.len() <= after.len()
    &&& forall|i: int| 0 <= i < before.len() ==> #[trigger] after[i] == before[i]
    &&& forall|i: int|
        before.len() <= i < after.len() - 1 ==> !((#[trigger] after[i]) is Failed)
    &&& match given {
        Some(err) => before.len() < after.len() && after.last() == Answer::Failed(err),
        None => before.len() == after.len() || !(after.last() is Failed),
    }
}

/// Between `before` and `after` there were queries only.
pub open spec fn only_reads(before: Seq<Answer>, after: Seq<Answer>) -> bool {
    forall|i: int|
        before.len() <= i < after.len() ==> (#[trigger] after[i]) is Read || after[i] is Failed
}

/// Calls that went well, and then others.
pub(crate) proof fn lemma_reports_further()
    ensures
        forall|a: Seq<Answer>, b: Seq<Answer>, c: Seq<Answer>, given: Option<rusqlite::Error>|
            #[trigger] reports(a, b, None) && #[trigger] reports(b, c, given) ==> reports(
                a,
                c,
                given,
            ),
        forall|a: Seq<Answer>, b: Seq<Answer>, c: Seq<Answer>, given: Option<rusqlite::Error>|
            #[trigger] reports(a, b, None) && #[trigger] reports(b, c, given) && only_reads(a, b)
                && only_reads(b, c) ==> only_reads(a, c),
{
    assert forall|a: Seq<Answer>, b: Seq<Answer>, c: Seq<Answer>, given: Option<rusqlite::Error>|
        #[trigger] reports(a, b, None) && #[trigger] reports(b, c, given) implies reports(
        a,
        c,
        given,
    ) by {
        assert forall|i: int| 0 <= i < a.len() implies #[trigger] c[i] == a[i] by {
            assert(b[i] == a[i]);
        }
        assert forall|i: int| a.len() <= i < c.len() - 1 implies !((#[trigger] c[i]) is Failed) by {
            if i < b.len() {
                assert(c[i] == b[i]);
            }
        }
        if c.len() == b.len() && b.len() > 0 {
            assert(c[c.len() - 1] == b[b.len() - 1]);
        }
    }
    assert forall|a: Seq<Answer>, b: Seq<Answer>, c: Seq<Answer>, given: Option<rusqlite::Error>|
        #[trigger] reports(a, b, None) && #[trigger] reports(b, c, given) && only_reads(a, b)
            && only_reads(b, c) implies only_reads(a, c) by {
        assert forall|i: int| a.len() <= i < c.len() implies (#[trigger] c[i]) is Read
            || c[i] is Failed by {
            if i < b.len() {
                assert(c[i] == b[i]);
            }
        }
    }
}

pub const SQL_FAIL_MESSAGE: &'static str = "PANIC: SQL Failure in Smart Contract VM.";

pub const CONTRACT_EXISTS_MESSAGE: &'static str = "Contract already exists ";

impl Fault {
    /// The message with which the application stops.
    pub open spec fn spec_message(self) -> Seq<char> {
        match self {
            Fault::Sql(_) => SQL_FAIL_MESSAGE@,
            Fault::ContractExists(name) => CONTRACT_EXISTS_MESSAGE@ + name@,
            Fault::NoBlockHeight => "Failed to fetch simulated block height"@,
            Fault::NoBlockTime => "Failed to fetch simulated block time"@,
            Fault::NoBlockHeaderHash => "Failed to fetch simulated block header hash"@,
            Fault::NoBlockVRFSeed => "Failed to fetch simulated block vrf seed"@,
            Fault::BadTipHeight => "Failed to get simulated block height"@,
            Fault::BadTipTime => "Failed to get simulated block time"@,
            Fault::HeightOverflow => "Simulated block height out of range"@,
            Fault::TimeOverflow => "Integer overflow while increasing simulated block time"@,
            Fault::ClockBeforeEpoch => "Time went backwards"@,
            Fault::ClockOutOfRange => "Time out of range"@,
        }
    }

    /// The message with which the application stops.
    pub fn message(&self) -> (res: String)
        ensures
            res@ == self.spec_message(),
    {
        match self {
            Fault::Sql(_) => SQL_FAIL_MESSAGE.to_owned(),
            Fault::ContractExists(name) => {
                let mut text = CONTRACT_EXISTS_MESSAGE.to_owned();
                text.append(name.as_str());
                text
            },
            Fault::NoBlockHeight => "Failed to fetch simulated block height".to_owned(),
            Fault::NoBlockTime => "Failed to fetch simulated block time".to_owned(),
            Fault::NoBlockHeaderHash => "Failed to fetch simulated block header hash".to_owned(),
            Fault::NoBlockVRFSeed => "Failed to fetch simulated block vrf seed".to_owned(),
            Fault::BadTipHeight => "Failed to get simulated block height".to_owned(),
            Fault::BadTipTime => "Failed to get simulated block time".to_owned(),
            Fault::HeightOverflow => "Simulated block height out of range".to_owned(),
            Fault::TimeOverflow => {
                "Integer overflow while increasing simulated block time".to_owned()
            },
            Fault::ClockBeforeEpoch => "Time went backwards".to_owned(),
            Fault::ClockOutOfRange => "Time out of range".to_owned(),
        }
    }
}

} // verus!
