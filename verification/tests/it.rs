//! Integration tests
use std::collections::HashMap;
use transactions::{Client, ClientId, Record, Type};

#[test]
fn from_path() {
    let file = "type,client,tx,amount
deposit,1,1,1.0
deposit,2,2,2.0
deposit,1,3,2.0
withdrawal,1,4,1.5
withdrawal,2,5,3.0
";

    let records = Record::from_bytes(file.as_bytes()).unwrap();
    let expected_records = vec![
        Record::new(Type::Deposit, 1, 1, Some(10_000)),
        Record::new(Type::Deposit, 2, 2, Some(20_000)),
        Record::new(Type::Deposit, 1, 3, Some(20_000)),
        Record::new(Type::Withdrawal, 1, 4, Some(15_000)),
        Record::new(Type::Withdrawal, 2, 5, Some(30_000)),
    ];
    assert_eq!(records, expected_records);
}

#[test]
fn process() {
    let records: Vec<Record> = vec![
        Record::new(Type::Deposit, 1, 1, Some(10_000)),
        Record::new(Type::Deposit, 2, 2, Some(20_000)),
        Record::new(Type::Deposit, 1, 3, Some(20_000)),
        Record::new(Type::Withdrawal, 1, 4, Some(15_000)),
        Record::new(Type::Withdrawal, 2, 5, Some(30_000)),
        Record::new(Type::Withdrawal, 2, 6, Some(-30_000)),
    ];
    let expected_result: HashMap<ClientId, Client> = [
        (
            1,
            Client {
                client: 1,
                available: 15_000,
                held: 0,
                total: 15_000,
                locked: false,
            },
        ),
        (
            2,
            Client {
                client: 2,
                available: 20_000,
                held: 0,
                total: 20_000,
                locked: false,
            },
        ),
    ]
    .iter()
    .cloned()
    .collect();

    let result = Record::process(&records);
    assert_eq!(result, expected_result);
}
