//! The input format: a CSV table whose header names the columns `type`,
//! `client`, `tx` and `amount`, and whose rows are transaction records.

use vstd::prelude::*;
use vstd::string::StringSliceAdditionalSpecFns;
use crate::model::{Amount, ClientId, Record, TransactionId, Type};
use crate::numbers::{amount_of, read_amount, read_unsigned, unsigned_of};

verus! {

/// Where a column stands in a header.
#[derive(Clone, Copy, Debug, PartialEq, Eq, Structural)]
pub enum Column {
    /// No column has the name.
    Absent,
    /// Exactly one column has the name: the one at this position.
    At(usize),
    /// Several columns have the name.
    Repeated,
}

/// Where the four columns of a record stand in a table.
#[derive(Clone, Copy, Debug, PartialEq, Eq)]
pub struct Layout {
    /// Position of the column `type`.
    pub ty: usize,
    /// Position of the column `client`.
    pub client: usize,
    /// Position of the column `tx`.
    pub tx: usize,
    /// Position of the column `amount`, if the table has one.
    pub amount: Option<usize>,
    /// Number of columns.
    pub width: usize,
}

/// Why a row of the table is no record.
#[derive(Clone, Copy, Debug, PartialEq, Eq, Structural)]
pub enum RowProblem {
    /// The header lacks or repeats a column, or the row has the wrong number of fields.
    Columns,
    /// The type is none of the five known ones.
    Type,
    /// The client is no number in range.
    Client,
    /// The transaction is no number in range.
    Tx,
    /// The amount is neither blank nor a number in range.
    Amount,
}

/// Why an input is no list of records.
#[derive(Debug, PartialEq, Eq)]
pub enum ParseError {
    /// The input is no CSV table; the text says why.
    Table(String),
    /// Row `row` of the table, the header being row 0, is no record.
    Row { row: usize, problem: RowProblem },
}

/// `csv::Error`, carried from the reader to the function that renders it.
#[verifier::external_type_specification]
#[verifier::external_body]
pub struct ExCsvError(csv::Error);

/// The rows that the csv reader finds in `data`, each a list of trimmed
/// fields, the header row included; `None` where the reader reports an error.
pub uninterp spec fn csv_table(data: Seq<u8>) -> Option<Seq<Seq<Seq<u8>>>>;

/// The fields of a row.
pub open spec fn row_view(row: Vec<Vec<u8>>) -> Seq<Seq<u8>> {
    Seq::new(row@.len(), |j: int| row@[j]@)
}

/// The rows of a table.
pub open spec fn table_view(rows: Vec<Vec<Vec<u8>>>) -> Seq<Seq<Seq<u8>>> {
    Seq::new(rows@.len(), |i: int| row_view(rows@[i]))
}

/// The position of the column called `name` in `headers`.
pub open spec fn column_of(headers: Seq<Seq<u8>>, name: Seq<u8>) -> Column
    decreases headers.len(),
{
    if headers.len() == 0 {
        Column::Absent
    } else if headers.last() == name {
        match column_of(headers.drop_last(), name) {
            Column::Absent => Column::At((headers.len() - 1) as usize),
            _ => Column::Repeated,
        }
    } else {
        column_of(headers.drop_last(), name)
    }
}

/// The layout that `headers` describe: each of `type`, `client` and `tx`
/// once, and `amount` at most once.
pub open spec fn layout_of(headers: Seq<Seq<u8>>) -> Option<Layout> {
    match (
        column_of(headers, "type".spec_bytes()),
        column_of(headers, "client".spec_bytes()),
        column_of(headers, "tx".spec_bytes()),
        column_of(headers, "amount".spec_bytes()),
    ) {
        (Column::At(ty), Column::At(client), Column::At(tx), Column::At(amount)) => Some(
            Layout { ty, client, tx, amount: Some(amount), width: headers.len() as usize },
        ),
        (Column::At(ty), Column::At(client), Column::At(tx), Column::Absent) => Some(
            Layout { ty, client, tx, amount: None, width: headers.len() as usize },
        ),
        _ => None,
    }
}

/// Whether a row of `fields` fields fits the layout: it has one field for
/// each column, or it lacks the last one and that is the column `amount`.
pub open spec fn row_fits(layout: Layout, fields: int) -> bool {
    &&& layout.ty < fields
    &&& layout.client < fields
    &&& layout.tx < fields
    &&& fields == layout.width || (fields + 1 == layout.width && layout.amount == Some(
        (layout.width - 1) as usize,
    ))
}

/// The transaction type that `field` names.
pub open spec fn type_of(field: Seq<u8>) -> Option<Type> {
    if field == "chargeback".spec_bytes() {
        Some(Type::Chargeback)
    } else if field == "deposit".spec_bytes() {
        Some(Type::Deposit)
    } else if field == "dispute".spec_bytes() {
        Some(Type::Dispute)
    } else if field == "resolve".spec_bytes() {
        Some(Type::Resolve)
    } else if field == "withdrawal".spec_bytes() {
        Some(Type::Withdrawal)
    } else {
        None
    }
}

/// The amount of a row: none where the row has no amount field or a blank
/// one; an error where the field is no amount.
pub open spec fn amount_in(layout: Layout, fields: Seq<Seq<u8>>) -> Result<Option<Amount>, ()> {
    match layout.amount {
        Some(k) if k < fields.len() && fields[k as int].len() > 0 => match amount_of(
            fields[k as int],
        ) {
            Some(a) => Ok(Some(a as Amount)),
            None => Err(()),
        },
        _ => Ok(None),
    }
}

/// The record that a row means under a layout.
pub open spec fn record_in(layout: Layout, fields: Seq<Seq<u8>>) -> Result<Record, RowProblem> {
    if !row_fits(layout, fields.len() as int) {
        Err(RowProblem::Columns)
    } else if type_of(fields[layout.ty as int]) is None {
        Err(RowProblem::Type)
    } else if unsigned_of(fields[layout.client as int], 0xffff) is None {
        Err(RowProblem::Client)
    } else if unsigned_of(fields[layout.tx as int], 0xffff_ffff) is None {
        Err(RowProblem::Tx)
    } else if amount_in(layout, fields) is Err {
        Err(RowProblem::Amount)
    } else {
        Ok(
            Record {
                ty: type_of(fields[layout.ty as int]).unwrap(),
                client: unsigned_of(fields[layout.client as int], 0xffff).unwrap() as ClientId,
                tx: unsigned_of(fields[layout.tx as int], 0xffff_ffff).unwrap() as TransactionId,
                amount: amount_in(layout, fields).unwrap(),
            },
        )
    }
}

/// The record that the row `fields` means under the header `headers`.
pub open spec fn record_of(headers: Seq<Seq<u8>>, fields: Seq<Seq<u8>>) -> Result<
    Record,
    RowProblem,
> {
    match layout_of(headers) {
        Some(layout) => record_in(layout, fields),
        None => Err(RowProblem::Columns),
    }
}

/// The records that the first `n` rows of a table mean, the header being
/// row 0, or the first row that is no record and why.
pub open spec fn records_upto(rows: Seq<Seq<Seq<u8>>>, n: int) -> Result<
    Seq<Record>,
    (int, RowProblem),
>
    decreases n,
{
    if n <= 1 {
        Ok(Seq::empty())
    } else {
        match records_upto(rows, n - 1) {
            Err(e) => Err(e),
            Ok(done) => match record_of(rows[0], rows[n - 1]) {
                Ok(record) => Ok(done.push(record)),
                Err(problem) => Err((n - 1, problem)),
            },
        }
    }
}

/// The records that a table means, or the first row that is no record and why.
pub open spec fn records_of(rows: Seq<Seq<Seq<u8>>>) -> Result<Seq<Record>, (int, RowProblem)> {
    records_upto(rows, rows.len() as int)
}

/// Whether two byte strings are the same.
pub fn same_bytes(a: &[u8], b: &[u8]) -> (r: bool)
    ensures
        r == (a@ == b@),
{
    if a.len() != b.len() {
        return false;
    }
    let mut i: usize = 0;
    while i < a.len()
        invariant
            a.len() == b.len(),
            i <= a.len(),
            forall|j: int| 0 <= j < i ==> a@[j] == b@[j],
        decreases a.len() - i,
    {
        if a[i] != b[i] {
            return false;
        }
        i = i + 1;
    }
    assert(a@ =~= b@);
    true
}

/// Finds the column called `name` in `headers`.
pub fn find_column(headers: &Vec<Vec<u8>>, name: &str) -> (r: Column)
    ensures
        r == column_of(row_view(*headers), name.spec_bytes()),
{
    let ghost all = row_view(*headers);
    let mut found = Column::Absent;
    let mut i: usize = 0;
    while i < headers.len()
        invariant
            i <= headers.len(),
            all == row_view(*headers),
            found == column_of(all.take(i as int), name.spec_bytes()),
        decreases headers.len() - i,
    {
        assert(all.take(i + 1).drop_last() =~= all.take(i as int));
        assert(all.take(i + 1).last() == headers@[i as int]@);
        if same_bytes(headers[i].as_slice(), name.as_bytes()) {
            found =
            match found {
                Column::Absent => Column::At(i),
                _ => Column::Repeated,
            };
        }
        i = i + 1;
    }
    assert(all.take(i as int) =~= all);
    found
}

/// Reads the layout of a table off its header.
pub fn read_layout(headers: &Vec<Vec<u8>>) -> (r: Option<Layout>)
    ensures
        r == layout_of(row_view(*headers)),
        r matches Some(layout) ==> layout.width == headers.len(),
{
    let width = headers.len();
    match (
        find_column(headers, "type"),
        find_column(headers, "client"),
        find_column(headers, "tx"),
        find_column(headers, "amount"),
    ) {
        (Column::At(ty), Column::At(client), Column::At(tx), Column::At(amount)) => Some(
            Layout { ty, client, tx, amount: Some(amount), width },
        ),
        (Column::At(ty), Column::At(client), Column::At(tx), Column::Absent) => Some(
            Layout { ty, client, tx, amount: None, width },
        ),
        _ => None,
    }
}

/// Reads a transaction type.
pub fn read_type(field: &[u8]) -> (r: Option<Type>)
    ensures
        r == type_of(field@),
{
    if same_bytes(field, "chargeback".as_bytes()) {
        Some(Type::Chargeback)
    } else if same_bytes(field, "deposit".as_bytes()) {
        Some(Type::Deposit)
    } else if same_bytes(field, "dispute".as_bytes()) {
        Some(Type::Dispute)
    } else if same_bytes(field, "resolve".as_bytes()) {
        Some(Type::Resolve)
    } else if same_bytes(field, "withdrawal".as_bytes()) {
        Some(Type::Withdrawal)
    } else {
        None
    }
}

/// Reads one row under a layout.
pub fn read_record(layout: &Layout, fields: &Vec<Vec<u8>>) -> (r: Result<Record, RowProblem>)
    ensures
        r == record_in(*layout, row_view(*fields)),
{
    let n = fields.len();
    let fits = layout.ty < n && layout.client < n && layout.tx < n && (n == layout.width || (n
        < layout.width && n + 1 == layout.width && layout.amount == Some(layout.width - 1)));
    if !fits {
        return Err(RowProblem::Columns);
    }
    let ty = match read_type(fields[layout.ty].as_slice()) {
        Some(ty) => ty,
        None => {
            return Err(RowProblem::Type);
        },
    };
    let client = match read_unsigned(fields[layout.client].as_slice(), 0xffff) {
        Some(client) => client as ClientId,
        None => {
            return Err(RowProblem::Client);
        },
    };
    let tx = match read_unsigned(fields[layout.tx].as_slice(), 0xffff_ffff) {
        Some(tx) => tx,
        None => {
            return Err(RowProblem::Tx);
        },
    };
    let amount = match layout.amount {
        Some(k) if k < n && fields[k].len() > 0 => match read_amount(fields[k].as_slice()) {
            Some(amount) => Some(amount),
            None => {
                return Err(RowProblem::Amount);
            },
        },
        _ => None,
    };
    Ok(Record { ty, client, tx, amount })
}

/// Reads the records of a table: row 0 is the header, every further row is
/// one record. Stops at the first row that is no record.
pub fn records_from_rows(rows: &Vec<Vec<Vec<u8>>>) -> (r: Result<Vec<Record>, ParseError>)
    ensures
        match records_of(table_view(*rows)) {
            Ok(records) => r matches Ok(found) && found@ == records,
            Err((row, problem)) => r == Err::<Vec<Record>, ParseError>(
                ParseError::Row { row: row as usize, problem },
            ),
        },
{
    let mut records: Vec<Record> = Vec::new();
    if rows.len() <= 1 {
        return Ok(records);
    }
    let ghost table = table_view(*rows);
    let layout = read_layout(&rows[0]);
    let mut i: usize = 1;
    while i < rows.len()
        invariant
            1 <= i <= rows.len(),
            table == table_view(*rows),
            layout == layout_of(table[0]),
            records_upto(table, i as int) == Ok::<Seq<Record>, (int, RowProblem)>(records@),
        decreases rows.len() - i,
    {
        let found = match &layout {
            Some(layout) => read_record(layout, &rows[i]),
            None => Err(RowProblem::Columns),
        };
        assert(found == record_of(table[0], table[i as int]));
        match found {
            Ok(record) => {
                records.push(record);
            },
            Err(problem) => {
                proof {
                    lemma_records_stop(table, i as int + 1, rows.len() as int);
                }
                return Err(ParseError::Row { row: i, problem });
            },
        }
        i = i + 1;
    }
    Ok(records)
}

/// Once a row is no record, reading further rows changes nothing.
pub proof fn lemma_records_stop(rows: Seq<Seq<Seq<u8>>>, n: int, m: int)
    requires
        n <= m,
        records_upto(rows, n) is Err,
    ensures
        records_upto(rows, m) == records_upto(rows, n),
    decreases m - n,
{
    if n < m {
        lemma_records_stop(rows, n, m - 1);
    }
}

/// Runs the csv reader over `data`: no header row set apart, rows of any
/// length, every field trimmed (`csv::ReaderBuilder` with `has_headers(false)`,
/// `flexible(true)`, `trim(csv::Trim::All)`, then `Reader::records`).
/// Trusted: the rows depend on the bytes alone, so they have a name.
#[verifier::external_body]
fn csv_rows(data: &[u8]) -> (r: Result<Vec<Vec<Vec<u8>>>, csv::Error>)
    ensures
        match r {
            Ok(rows) => csv_table(data@) == Some(table_view(rows)),
            Err(_) => csv_table(data@) is None,
        },
{
    let mut reader = csv::ReaderBuilder::new()
        .has_headers(false)
        .flexible(true)
        .trim(csv::Trim::All)
        .from_reader(data);
    let mut rows: Vec<Vec<Vec<u8>>> = Vec::new();
    for row in reader.records() {
        rows.push(row?.iter().map(Vec::from).collect());
    }
    Ok(rows)
}

/// Renders a `csv::Error` (`Display` of `csv::Error`).
/// Trusted; nothing is claimed of the text.
#[verifier::external_body]
fn csv_message(error: &csv::Error) -> String {
    error.to_string()
}

impl Record {
    /// Parses the bytes of a CSV file into transaction records.
    ///
    /// Fails where the csv reader fails, and at the first row that is no record.
    pub fn from_bytes(data: &[u8]) -> (r: Result<Vec<Record>, ParseError>)
        ensures
            match csv_table(data@) {
                None => r matches Err(ParseError::Table(_)),
                Some(rows) => match records_of(rows) {
                    Ok(records) => r matches Ok(found) && found@ == records,
                    Err((row, problem)) => r == Err::<Vec<Record>, ParseError>(
                        ParseError::Row { row: row as usize, problem },
                    ),
                },
            },
    {
        match csv_rows(data) {
            Ok(rows) => records_from_rows(&rows),
            Err(error) => Err(ParseError::Table(csv_message(&error))),
        }
    }
}

} // verus!
