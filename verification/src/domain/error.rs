//! The error taxonomy of the data pipeline.
use crate::text::{concat2, concat3, i64_text, signed_digits};
use vstd::prelude::*;
use vstd::string::*;

verus! {

/// How a candle series can be structurally corrupt.
#[derive(Clone, Copy, Debug, PartialEq, Eq, Structural)]
#[non_exhaustive]
pub enum ValidationError {
    /// Opening times do not increase.
    Unsorted {
        /// The earlier candle's opening time, epoch ms.
        earlier: i64,
        /// The out-of-order candle's opening time, epoch ms.
        later: i64,
    },
    /// Two candles share an opening time.
    Duplicate(i64),
}

/// The text of a structural error.
pub open spec fn validation_error_text(e: ValidationError) -> Seq<char> {
    match e {
        ValidationError::Unsorted { earlier, later } =>
            "candles are not sorted by open_time (found "@ + signed_digits(later as int)
            + " ms after "@ + signed_digits(earlier as int) + " ms)"@,
        ValidationError::Duplicate(t) => "duplicate open_time "@ + signed_digits(t as int) + " ms"@,
    }
}

impl ValidationError {
    /// The text of the error.
    pub fn to_string(&self) -> (t: String)
        ensures
            t@ == validation_error_text(*self),
    {
        match self {
            ValidationError::Unsorted { earlier, later } => {
                let mut t = concat2(
                    "candles are not sorted by open_time (found ",
                    i64_text(*later).as_str(),
                );
                t.append(" ms after ");
                t.append(i64_text(*earlier).as_str());
                t.append(" ms)");
                t
            },
            ValidationError::Duplicate(time) => concat3(
                "duplicate open_time ",
                i64_text(*time).as_str(),
                " ms",
            ),
        }
    }
}

/// Errors of the data pipeline.
#[derive(Clone, Debug, PartialEq, Eq)]
#[non_exhaustive]
pub enum DataError {
    /// A candle series is structurally corrupt.
    Validation(ValidationError),
    /// A spacing discontinuity between two adjacent candles.
    Gap {
        /// The opening time the next candle was expected at, epoch ms.
        expected: i64,
        /// The opening time found, epoch ms.
        found: i64,
    },
    /// A value could not be parsed.
    Parse(String),
    /// An I/O failure.
    Io(String),
    /// A snapshot exists at the target with different content.
    SnapshotExists {
        /// The conflicting snapshot path.
        path: String,
    },
    /// A strategy of that name exists.
    StrategyNameTaken {
        /// The colliding name.
        name: String,
    },
    /// A database failure.
    Db(String),
    /// A migration failure.
    Migration(String),
}

/// The text of a data error.
pub open spec fn data_error_text(e: DataError) -> Seq<char> {
    match e {
        DataError::Validation(v) => "candle series validation failed: "@ + validation_error_text(v),
        DataError::Gap { expected, found } => "gap in candle series: expected open_time "@
            + signed_digits(expected as int) + " ms, found "@ + signed_digits(found as int)
            + " ms"@,
        DataError::Parse(m) => "parse error: "@ + m@,
        DataError::Io(m) => "io error: "@ + m@,
        DataError::SnapshotExists { path } =>
            "snapshot already exists with differing content at "@ + path@,
        DataError::StrategyNameTaken { name } => "a strategy named "@ + name@ + " already exists"@,
        DataError::Db(m) => "database error: "@ + m@,
        DataError::Migration(m) => "migration error: "@ + m@,
    }
}

impl DataError {
    /// The text of the error.
    pub fn to_string(&self) -> (t: String)
        ensures
            t@ == data_error_text(*self),
    {
        match self {
            DataError::Validation(v) => concat2(
                "candle series validation failed: ",
                v.to_string().as_str(),
            ),
            DataError::Gap { expected, found } => {
                let mut t = concat3(
                    "gap in candle series: expected open_time ",
                    i64_text(*expected).as_str(),
                    " ms, found ",
                );
                t.append(i64_text(*found).as_str());
                t.append(" ms");
                t
            },
            DataError::Parse(m) => concat2("parse error: ", m.as_str()),
            DataError::Io(m) => concat2("io error: ", m.as_str()),
            DataError::SnapshotExists { path } => concat2(
                "snapshot already exists with differing content at ",
                path.as_str(),
            ),
            DataError::StrategyNameTaken { name } => concat3(
                "a strategy named ",
                name.as_str(),
                " already exists",
            ),
            DataError::Db(m) => concat2("database error: ", m.as_str()),
            DataError::Migration(m) => concat2("migration error: ", m.as_str()),
        }
    }
}

} // verus!
