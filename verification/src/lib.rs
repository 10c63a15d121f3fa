//! Payment processing engine.
//!
//! Transaction records are replayed, in input order, against per-client
//! accounts. Amounts are fixed-point integers counted in ten-thousandths of
//! the currency unit, so every balance is exact.
//!
//! * [`model`]: records, ledger entries and accounts.
//! * [`ledger`]: the replay rules as a function from state and record to state.
//! * [`bounds`]: the invariant of the state, and why no balance overflows.
//! * [`engine`]: the executable replay, proved against the rules.
//! * [`laws`]: what follows from the rules.
//! * [`numbers`], [`input`]: the CSV input format.
//! * [`report`]: the CSV output format.
//! * [`cli`]: the command line.

pub mod model;
pub mod ledger;
pub mod bounds;
pub mod engine;
pub mod laws;
pub mod numbers;
pub mod input;
pub mod report;
pub mod cli;

pub use cli::{parse_args, Args, ArgsError};
pub use engine::process_record;
pub use input::{records_from_rows, ParseError, RowProblem};
pub use model::{Amount, Balance, Client, ClientId, Entry, Record, TransactionId, Type};
pub use report::{format_amount, report_rows};
