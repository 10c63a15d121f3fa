//! The output format: one row of five fields per account, under a header.

use vstd::prelude::*;
use vstd::string::StringSliceAdditionalSpecFns;
use crate::input::{row_view, table_view};
use crate::model::{Balance, Client};
use crate::numbers::{
    all_digits, amount_of, digit_value, digits_value, fraction_value, lemma_point_position,
    magnitude_of, place, point_position,
};

verus! {

/// The decimal digits of `n`, most significant first, without leading zeros.
pub open spec fn decimal_digits(n: nat) -> Seq<u8>
    decreases n,
{
    if n < 10 {
        seq![(0x30 + n) as u8]
    } else {
        decimal_digits(n / 10).push((0x30 + n % 10) as u8)
    }
}

/// The digits behind the point of `f` ten-thousandths: four places, cut
/// after the last one that is not zero, but never before the first.
pub open spec fn fraction_digits(f: nat) -> Seq<u8> {
    let places = seq![
        (0x30 + f / 1000 % 10) as u8,
        (0x30 + f / 100 % 10) as u8,
        (0x30 + f / 10 % 10) as u8,
        (0x30 + f % 10) as u8,
    ];
    if f % 10 != 0 {
        places
    } else if f % 100 != 0 {
        places.take(3)
    } else if f % 1000 != 0 {
        places.take(2)
    } else {
        places.take(1)
    }
}

/// The size of an amount in ten-thousandths.
pub open spec fn magnitude(x: int) -> nat {
    if x < 0 {
        (-x) as nat
    } else {
        x as nat
    }
}

/// An amount of `x` ten-thousandths as a decimal number: a minus sign if it
/// is negative, the whole units, a point, and one to four further digits.
pub open spec fn amount_text(x: int) -> Seq<u8> {
    let sign = if x < 0 {
        seq![0x2du8]
    } else {
        Seq::<u8>::empty()
    };
    sign + decimal_digits(magnitude(x) / 10000).push(0x2e) + fraction_digits(magnitude(x) % 10000)
}

/// `true` or `false`.
pub open spec fn flag_text(flag: bool) -> Seq<u8> {
    if flag {
        "true".spec_bytes()
    } else {
        "false".spec_bytes()
    }
}

/// The five fields of an account's row.
pub open spec fn account_row(account: Client) -> Seq<Seq<u8>> {
    seq![
        decimal_digits(account.client as nat),
        amount_text(account.available as int),
        amount_text(account.held as int),
        amount_text(account.total as int),
        flag_text(account.locked),
    ]
}

/// The names of the five columns.
pub open spec fn header_row() -> Seq<Seq<u8>> {
    seq![
        "client".spec_bytes(),
        "available".spec_bytes(),
        "held".spec_bytes(),
        "total".spec_bytes(),
        "locked".spec_bytes(),
    ]
}

/// The table that reports `accounts`: nothing at all where there is no
/// account, else the header and one row per account, in the order given.
pub open spec fn report_of(accounts: Seq<Client>) -> Seq<Seq<Seq<u8>>> {
    if accounts.len() == 0 {
        Seq::empty()
    } else {
        seq![header_row()] + Seq::new(accounts.len(), |i: int| account_row(accounts[i]))
    }
}

/// Appends the decimal digits of `n` to `out`.
pub fn push_decimal(n: u128, out: &mut Vec<u8>)
    ensures
        final(out)@ == old(out)@ + decimal_digits(n as nat),
    decreases n,
{
    if n >= 10 {
        push_decimal(n / 10, out);
    }
    out.push(0x30 + (n % 10) as u8);
    assert(final(out)@ =~= old(out)@ + decimal_digits(n as nat));
}

/// Appends the bytes of `text` to `out`.
pub fn push_text(text: &str, out: &mut Vec<u8>)
    ensures
        final(out)@ == old(out)@ + text.spec_bytes(),
{
    let bytes = text.as_bytes();
    let mut i: usize = 0;
    while i < bytes.len()
        invariant
            i <= bytes.len(),
            out@ == old(out)@ + bytes@.take(i as int),
        decreases bytes.len() - i,
    {
        out.push(bytes[i]);
        assert(out@ =~= old(out)@ + bytes@.take(i + 1));
        i = i + 1;
    }
    assert(bytes@.take(i as int) =~= bytes@);
}

/// Writes an amount as a decimal number.
pub fn format_amount(x: Balance) -> (r: Vec<u8>)
    ensures
        r@ == amount_text(x as int),
{
    let mut out: Vec<u8> = Vec::new();
    let size: u128 = if x < 0 {
        out.push(0x2d);
        (-(x + 1)) as u128 + 1
    } else {
        x as u128
    };
    assert(size == magnitude(x as int));
    push_decimal(size / 10000, &mut out);
    out.push(0x2e);
    let f: u128 = size % 10000;
    let places: usize = if f % 10 != 0 {
        4
    } else if f % 100 != 0 {
        3
    } else if f % 1000 != 0 {
        2
    } else {
        1
    };
    out.push(0x30 + (f / 1000 % 10) as u8);
    if places >= 2 {
        out.push(0x30 + (f / 100 % 10) as u8);
    }
    if places >= 3 {
        out.push(0x30 + (f / 10 % 10) as u8);
    }
    if places >= 4 {
        out.push(0x30 + (f % 10) as u8);
    }
    assert(out@ =~= amount_text(x as int));
    out
}

impl Client {
    /// The five fields of the account's row: client, available, held, total, locked.
    pub fn fields(&self) -> (r: Vec<Vec<u8>>)
        ensures
            row_view(r) == account_row(*self),
    {
        let mut client: Vec<u8> = Vec::new();
        push_decimal(self.client as u128, &mut client);
        let mut locked: Vec<u8> = Vec::new();
        push_text(
            if self.locked {
                "true"
            } else {
                "false"
            },
            &mut locked,
        );
        let mut row: Vec<Vec<u8>> = Vec::new();
        row.push(client);
        row.push(format_amount(self.available));
        row.push(format_amount(self.held));
        row.push(format_amount(self.total));
        row.push(locked);
        assert(row_view(row) =~= account_row(*self));
        row
    }
}

/// The names of the five columns.
pub fn header_fields() -> (r: Vec<Vec<u8>>)
    ensures
        row_view(r) == header_row(),
{
    let mut row: Vec<Vec<u8>> = Vec::new();
    let mut name: Vec<u8> = Vec::new();
    push_text("client", &mut name);
    row.push(name);
    let mut name: Vec<u8> = Vec::new();
    push_text("available", &mut name);
    row.push(name);
    let mut name: Vec<u8> = Vec::new();
    push_text("held", &mut name);
    row.push(name);
    let mut name: Vec<u8> = Vec::new();
    push_text("total", &mut name);
    row.push(name);
    let mut name: Vec<u8> = Vec::new();
    push_text("locked", &mut name);
    row.push(name);
    assert(row_view(row) =~= header_row());
    row
}

/// The table that reports `accounts`: nothing where there is no account,
/// else the header and one row per account, in the order given.
pub fn report_rows(accounts: &[Client]) -> (r: Vec<Vec<Vec<u8>>>)
    ensures
        table_view(r) == report_of(accounts@),
{
    let mut rows: Vec<Vec<Vec<u8>>> = Vec::new();
    if accounts.len() == 0 {
        assert(table_view(rows) =~= report_of(accounts@));
        return rows;
    }
    rows.push(header_fields());
    let mut i: usize = 0;
    while i < accounts.len()
        invariant
            i <= accounts.len(),
            rows@.len() == i + 1,
            row_view(rows@[0]) == header_row(),
            forall|j: int| 0 <= j < i ==> row_view(#[trigger] rows@[j + 1])
                == account_row(accounts@[j]),
        decreases accounts.len() - i,
    {
        rows.push(accounts[i].fields());
        i = i + 1;
    }
    assert forall|k: int| 0 <= k < rows@.len() implies table_view(rows)[k] == report_of(
        accounts@,
    )[k] by {
        if k > 0 {
            assert(row_view(rows@[(k - 1) + 1]) == account_row(accounts@[k - 1]));
        }
    }
    assert(table_view(rows) =~= report_of(accounts@));
    rows
}

/// The decimal digits of a number are digits, hold no point, and write that number.
pub proof fn lemma_decimal_digits(n: nat)
    ensures
        decimal_digits(n).len() > 0,
        all_digits(decimal_digits(n), 10),
        digits_value(decimal_digits(n), 10) == n,
        forall|i: int| 0 <= i < decimal_digits(n).len() ==> decimal_digits(n)[i] != 0x2e,
        decimal_digits(n)[0] != 0x2b && decimal_digits(n)[0] != 0x2d,
    decreases n,
{
    let s = decimal_digits(n);
    if n < 10 {
        assert(s.drop_last() =~= Seq::<u8>::empty());
        assert(digits_value(Seq::<u8>::empty(), 10) == 0);
        assert(digit_value(s.last(), 10) == Some(n as int));
        assert(digits_value(s, 10) == n);
    } else {
        lemma_decimal_digits(n / 10);
        let front = decimal_digits(n / 10);
        assert(s.drop_last() =~= front);
        assert(digit_value(s.last(), 10) == Some((n % 10) as int));
        assert forall|i: int| 0 <= i < s.len() implies (#[trigger] digit_value(s[i], 10))
            is Some && s[i] != 0x2e by {
            if i < front.len() {
                assert(s[i] == front[i]);
                assert(digit_value(front[i], 10) is Some);
            }
        }
        assert(s[0] == front[0]);
        assert(digits_value(s, 10) == digits_value(front, 10) * 10 + n % 10);
    }
}

/// The digits behind the point are digits and write the ten-thousandths they stand for.
pub proof fn lemma_fraction_digits(f: nat)
    requires
        f < 10000,
    ensures
        fraction_digits(f).len() > 0,
        all_digits(fraction_digits(f), 10),
        fraction_value(fraction_digits(f)) == f,
{
    let s = fraction_digits(f);
    assert forall|i: int| 0 <= i < s.len() implies (#[trigger] digit_value(s[i], 10)) is Some by {
        assert(0 <= f / 1000 % 10 <= 9 && 0 <= f / 100 % 10 <= 9 && 0 <= f / 10 % 10 <= 9);
    }
    assert(place(s, 0) == f / 1000 % 10);
    assert(place(s, 1) == f / 100 % 10);
    assert(place(s, 2) == f / 10 % 10);
    assert(place(s, 3) == f % 10);
    assert(place(s, 4) == 0);
}

/// An amount that is written and read again is the same amount.
pub proof fn lemma_amount_text_reads_back(x: int)
    requires
        -0x7fff_ffff_ffff_ffff <= x <= 0x7fff_ffff_ffff_ffff,
    ensures
        amount_of(amount_text(x)) == Some(x),
{
    let m = magnitude(x);
    let whole = decimal_digits(m / 10000);
    let fraction = fraction_digits(m % 10000);
    let text = amount_text(x);
    let body = whole.push(0x2e) + fraction;
    lemma_decimal_digits(m / 10000);
    lemma_fraction_digits(m % 10000);
    if x < 0 {
        assert(text[0] == 0x2d);
        assert(text.skip(1) =~= body);
    } else {
        assert(text =~= body);
        assert(text[0] == whole[0]);
    }
    let k = whole.len() as int;
    assert forall|j: int| 0 <= j < k implies body[j] != 0x2e by {
        assert(body[j] == whole[j]);
    }
    assert(body[k] == 0x2e);
    lemma_point_position(body, k);
    assert(body.take(k) =~= whole);
    assert(body.skip(k + 1) =~= fraction);
    assert(magnitude_of(body) == Some(m as int));
}

} // verus!
