//! The input and output formats on concrete text.
use transactions::input::{find_column, read_layout, read_type, Column, Layout};
use transactions::numbers::{read_amount, read_unsigned};
use transactions::{
    format_amount, records_from_rows, report_rows, Client, ParseError, Record, RowProblem, Type,
};

fn row(fields: &[&str]) -> Vec<Vec<u8>> {
    fields.iter().map(|field| field.as_bytes().to_vec()).collect()
}

fn text(bytes: Vec<u8>) -> String {
    String::from_utf8(bytes).unwrap()
}

#[test]
fn unsigned_numbers() {
    assert_eq!(read_unsigned(b"0", 0xffff), Some(0));
    assert_eq!(read_unsigned(b"65535", 0xffff), Some(65535));
    assert_eq!(read_unsigned(b"65536", 0xffff), None);
    assert_eq!(read_unsigned(b"4294967295", u32::MAX), Some(u32::MAX));
    assert_eq!(read_unsigned(b"4294967296", u32::MAX), None);
    assert_eq!(read_unsigned(b"99999999999999999999999999999", u32::MAX), None);
    assert_eq!(read_unsigned(b"+12", 0xffff), Some(12));
    assert_eq!(read_unsigned(b"007", 0xffff), Some(7));
    assert_eq!(read_unsigned(b"0x1f", 0xffff), Some(31));
    assert_eq!(read_unsigned(b"0xFFFF", 0xffff), Some(65535));
    assert_eq!(read_unsigned(b"0x10000", 0xffff), None);
    assert_eq!(read_unsigned(b"", 0xffff), None);
    assert_eq!(read_unsigned(b"+", 0xffff), None);
    assert_eq!(read_unsigned(b"0x", 0xffff), None);
    assert_eq!(read_unsigned(b"-1", 0xffff), None);
    assert_eq!(read_unsigned(b"1f", 0xffff), None);
    assert_eq!(read_unsigned(b"1 ", 0xffff), None);
}

#[test]
fn amounts() {
    assert_eq!(read_amount(b"1.0"), Some(10_000));
    assert_eq!(read_amount(b"1"), Some(10_000));
    assert_eq!(read_amount(b"1."), Some(10_000));
    assert_eq!(read_amount(b".5"), Some(5_000));
    assert_eq!(read_amount(b"0.0001"), Some(1));
    assert_eq!(read_amount(b"2.742"), Some(27_420));
    assert_eq!(read_amount(b"-3.0"), Some(-30_000));
    assert_eq!(read_amount(b"+3.25"), Some(32_500));
    assert_eq!(read_amount(b"0.00004"), Some(0));
    assert_eq!(read_amount(b"0.00005"), Some(1));
    assert_eq!(read_amount(b"-0.99995"), Some(-10_000));
    assert_eq!(read_amount(b"1.23456789"), Some(12_346));
    assert_eq!(read_amount(b"922337203685477.5807"), Some(i64::MAX));
    assert_eq!(read_amount(b"-922337203685477.5807"), Some(-i64::MAX));
    assert_eq!(read_amount(b"922337203685477.5808"), None);
    assert_eq!(read_amount(b"922337203685477.58075"), None);
    assert_eq!(read_amount(b"922337203685478"), None);
    assert_eq!(read_amount(b""), None);
    assert_eq!(read_amount(b"."), None);
    assert_eq!(read_amount(b"-"), None);
    assert_eq!(read_amount(b"1.2.3"), None);
    assert_eq!(read_amount(b"1e3"), None);
    assert_eq!(read_amount(b"--1"), None);
    assert_eq!(read_amount(b"1,5"), None);
    assert_eq!(read_amount(b"abc"), None);
}

#[test]
fn types() {
    assert_eq!(read_type(b"chargeback"), Some(Type::Chargeback));
    assert_eq!(read_type(b"deposit"), Some(Type::Deposit));
    assert_eq!(read_type(b"dispute"), Some(Type::Dispute));
    assert_eq!(read_type(b"resolve"), Some(Type::Resolve));
    assert_eq!(read_type(b"withdrawal"), Some(Type::Withdrawal));
    assert_eq!(read_type(b"Deposit"), None);
    assert_eq!(read_type(b"deposits"), None);
    assert_eq!(read_type(b""), None);
}

#[test]
fn columns() {
    let headers = row(&["tx", "note", "type", "tx"]);
    assert_eq!(find_column(&headers, "type"), Column::At(2));
    assert_eq!(find_column(&headers, "tx"), Column::Repeated);
    assert_eq!(find_column(&headers, "amount"), Column::Absent);
    assert_eq!(read_layout(&headers), None);
    assert_eq!(
        read_layout(&row(&["amount", "tx", "client", "type"])),
        Some(Layout { ty: 3, client: 2, tx: 1, amount: Some(0), width: 4 })
    );
    assert_eq!(
        read_layout(&row(&["type", "client", "tx"])),
        Some(Layout { ty: 0, client: 1, tx: 2, amount: None, width: 3 })
    );
}

#[test]
fn rows_become_records() {
    let rows = vec![
        row(&["type", "client", "tx", "amount"]),
        row(&["deposit", "1", "2", "3.5"]),
        row(&["dispute", "1", "2", ""]),
        row(&["resolve", "1", "2"]),
    ];
    assert_eq!(
        records_from_rows(&rows),
        Ok(vec![
            Record::new(Type::Deposit, 1, 2, Some(35_000)),
            Record::new(Type::Dispute, 1, 2, None),
            Record::new(Type::Resolve, 1, 2, None),
        ])
    );
    assert_eq!(records_from_rows(&Vec::new()), Ok(Vec::new()));
    assert_eq!(records_from_rows(&vec![row(&["no", "columns"])]), Ok(Vec::new()));
}

#[test]
fn columns_may_stand_in_any_order() {
    let rows = vec![
        row(&["amount", "note", "tx", "type", "client"]),
        row(&["0.5", "first", "9", "withdrawal", "0x10"]),
    ];
    assert_eq!(
        records_from_rows(&rows),
        Ok(vec![Record::new(Type::Withdrawal, 16, 9, Some(5_000))])
    );
}

#[test]
fn first_bad_row_is_reported() {
    let header = row(&["type", "client", "tx", "amount"]);
    let good = row(&["deposit", "1", "2", "3.5"]);
    let problem = |bad: Vec<Vec<u8>>| {
        records_from_rows(&vec![header.clone(), good.clone(), bad, row(&["x"])])
    };
    let at = |problem| Err(ParseError::Row { row: 2, problem });
    assert_eq!(problem(row(&["deposit", "1"])), at(RowProblem::Columns));
    assert_eq!(problem(row(&["deposit", "1", "2", "3", "4"])), at(RowProblem::Columns));
    assert_eq!(problem(row(&["transfer", "1", "2", "3"])), at(RowProblem::Type));
    assert_eq!(problem(row(&["deposit", "65536", "2", "3"])), at(RowProblem::Client));
    assert_eq!(problem(row(&["deposit", "1", "two", "3"])), at(RowProblem::Tx));
    assert_eq!(problem(row(&["deposit", "1", "2", "1e3"])), at(RowProblem::Amount));
    assert_eq!(
        records_from_rows(&vec![row(&["type", "client", "amount"]), good.clone()]),
        Err(ParseError::Row { row: 1, problem: RowProblem::Columns })
    );
    assert_eq!(
        records_from_rows(&vec![row(&["type", "client", "tx", "tx"]), good]),
        Err(ParseError::Row { row: 1, problem: RowProblem::Columns })
    );
}

#[test]
fn bytes_are_trimmed_and_split_by_the_reader() {
    let input = b"  type ,client,  tx,amount \n\n deposit ,\t7 , 8,\"1.25 \"\nchargeback,7,8\n";
    assert_eq!(
        Record::from_bytes(input),
        Ok(vec![
            Record::new(Type::Deposit, 7, 8, Some(12_500)),
            Record::new(Type::Chargeback, 7, 8, None),
        ])
    );
}

#[test]
fn broken_table_is_reported() {
    let input = b"type,client,tx,amount\ndeposit,1,1,\xff\n";
    assert!(matches!(Record::from_bytes(input), Err(ParseError::Table(message)) if !message.is_empty()));
    let input = b"type,client,tx,amount\ndeposit,one,1,1.0\n";
    assert_eq!(
        Record::from_bytes(input),
        Err(ParseError::Row { row: 1, problem: RowProblem::Client })
    );
}

#[test]
fn amounts_are_written_with_one_to_four_places() {
    assert_eq!(text(format_amount(0)), "0.0");
    assert_eq!(text(format_amount(1)), "0.0001");
    assert_eq!(text(format_amount(10)), "0.001");
    assert_eq!(text(format_amount(1_200)), "0.12");
    assert_eq!(text(format_amount(5_000)), "0.5");
    assert_eq!(text(format_amount(9_999)), "0.9999");
    assert_eq!(text(format_amount(10_000)), "1.0");
    assert_eq!(text(format_amount(30_000)), "3.0");
    assert_eq!(text(format_amount(1_234_567_891)), "123456.7891");
    assert_eq!(text(format_amount(-15_000)), "-1.5");
    assert_eq!(text(format_amount(-1)), "-0.0001");
    assert_eq!(
        text(format_amount(i128::MAX)),
        "17014118346046923173168730371588410.5727"
    );
    assert_eq!(
        text(format_amount(i128::MIN)),
        "-17014118346046923173168730371588410.5728"
    );
}

#[test]
fn written_amounts_read_back() {
    for amount in [0i64, 1, -1, 9_999, 10_000, -123_456_789, i64::MAX, -i64::MAX] {
        assert_eq!(read_amount(&format_amount(amount as i128)), Some(amount));
    }
}

#[test]
fn report_has_a_header_and_a_row_per_account() {
    assert!(report_rows(&[]).is_empty());
    let accounts = [
        Client { client: 65535, available: 15_000, held: 1, total: 15_001, locked: true },
        Client::new(3),
    ];
    assert_eq!(
        report_rows(&accounts),
        vec![
            row(&["client", "available", "held", "total", "locked"]),
            row(&["65535", "1.5", "0.0001", "1.5001", "true"]),
            row(&["3", "0.0", "0.0", "0.0", "false"]),
        ]
    );
    assert_eq!(accounts[1].fields(), row(&["3", "0.0", "0.0", "0.0", "false"]));
}
