use rinha::{
    commit_date_after, decide_transaction, description_is_valid, validate_request, ClientData, CodeError, ErrorResponse, ExtractData,
    Ledger, TransactionRequest, TransactionResponse, TransactionType,
};

fn request(value: u64, transaction_type: TransactionType, description: &str) -> TransactionRequest {
    TransactionRequest {
        value,
        transaction_type,
        description: description.to_owned(),
    }
}

fn seeded(data: &[(u32, u32)]) -> Ledger {
    let mut ledger = Ledger::new();
    ledger.seed_data(data);
    ledger
}

#[test]
fn test_concurrent_transaction() {
    let mut ledger = seeded(&[(1, 1000)]);
    let tx = request(550, TransactionType::Debit, "Tx");

    let result = vec![
        ledger.add_transaction(1, tx.clone(), 10),
        ledger.add_transaction(1, tx.clone(), 11),
    ];

    let client = ledger.get_client(1).unwrap();
    let extract = ledger.get_extract(1, 12).unwrap();

    assert_eq!(client.balance, -550);
    assert_eq!(extract.transactions.len(), 1);
    assert!(result.iter().any(|r| r.is_err()));
    assert_eq!(result[0], Ok(TransactionResponse { limit: 1000, balance: -550 }));
    assert_eq!(result[1], Err(ErrorResponse::NotEnoughLimit));
}

#[test]
fn credit_then_debits_against_limit_of_two_thousand() {
    let mut ledger = seeded(&[(1, 2000)]);
    assert_eq!(
        ledger.add_transaction(1, request(1000, TransactionType::Credit, "salary"), 1),
        Ok(TransactionResponse { limit: 2000, balance: 1000 })
    );
    assert_eq!(
        ledger.add_transaction(1, request(2500, TransactionType::Debit, "rent"), 2),
        Ok(TransactionResponse { limit: 2000, balance: -1500 })
    );
    assert_eq!(
        ledger.add_transaction(1, request(2500, TransactionType::Debit, "car"), 3),
        Err(ErrorResponse::NotEnoughLimit)
    );
    let client = ledger.get_client(1).unwrap();
    assert_eq!(client.balance, -1500);
    assert_eq!(ledger.get_extract(1, 4).unwrap().transactions.len(), 2);
}

#[test]
fn credit_then_debit_beyond_limit_is_refused() {
    let mut ledger = seeded(&[(1, 2000)]);
    assert_eq!(
        ledger.add_transaction(1, request(1000, TransactionType::Credit, "in"), 1),
        Ok(TransactionResponse { limit: 2000, balance: 1000 })
    );
    assert_eq!(
        ledger.add_transaction(1, request(3001, TransactionType::Debit, "out"), 2),
        Err(ErrorResponse::NotEnoughLimit)
    );
    assert_eq!(ledger.get_client(1).unwrap().balance, 1000);
}

#[test]
fn limit_is_inclusive_on_the_ledger() {
    let mut ledger = seeded(&[(1, 1000)]);
    assert_eq!(
        ledger.add_transaction(1, request(1001, TransactionType::Debit, "a"), 1),
        Err(ErrorResponse::NotEnoughLimit)
    );
    assert_eq!(
        ledger.add_transaction(1, request(1000, TransactionType::Debit, "a"), 2),
        Ok(TransactionResponse { limit: 1000, balance: -1000 })
    );
}

#[test]
fn description_lengths() {
    assert!(!description_is_valid(&String::new()));
    assert!(description_is_valid(&"a".to_owned()));
    assert!(description_is_valid(&"0123456789".to_owned()));
    assert!(!description_is_valid(&"0123456789a".to_owned()));
    // nine characters, eleven bytes
    assert!(description_is_valid(&"Transação".to_owned()));
}

#[test]
fn invalid_description_is_refused_before_the_account() {
    let mut ledger = seeded(&[(1, 1000)]);
    assert_eq!(
        ledger.add_transaction(1, request(10, TransactionType::Credit, ""), 1),
        Err(ErrorResponse::InvalidDescription)
    );
    assert_eq!(
        ledger.add_transaction(1, request(10, TransactionType::Credit, "01234567890"), 1),
        Err(ErrorResponse::InvalidDescription)
    );
    // unknown client: the description still decides first
    assert_eq!(
        ledger.add_transaction(9, request(10, TransactionType::Credit, ""), 1),
        Err(ErrorResponse::InvalidDescription)
    );
    assert_eq!(ledger.get_client(1).unwrap().balance, 0);
    assert!(ledger.get_extract(1, 2).unwrap().transactions.is_empty());
}

#[test]
fn unknown_client_is_not_found() {
    let mut ledger = seeded(&[(1, 1000)]);
    assert_eq!(
        ledger.add_transaction(7, request(10, TransactionType::Credit, "x"), 1),
        Err(ErrorResponse::ClientNotFound(7))
    );
    assert_eq!(ledger.get_client(7), Err(ErrorResponse::ClientNotFound(7)));
    assert_eq!(ledger.get_extract(7, 1), Err(ErrorResponse::ClientNotFound(7)));
}

#[test]
fn value_beyond_stored_range_is_a_storage_failure() {
    let mut ledger = seeded(&[(1, 1000)]);
    ledger.add_transaction(1, request(1000, TransactionType::Debit, "x"), 1).unwrap();
    // -1000 + 2^63 fits a balance, but 2^63 itself is no stored value
    let r = ledger.add_transaction(1, request(1u64 << 63, TransactionType::Credit, "x"), 2);
    assert!(matches!(r, Err(ErrorResponse::Transient(_))));
    assert_eq!(ledger.get_client(1).unwrap().balance, -1000);
    // from zero the same credit gives a balance that cannot be represented:
    // a storage failure as well, not a matter of limit
    let mut fresh = seeded(&[(1, 1000)]);
    let r = fresh.add_transaction(1, request(1u64 << 63, TransactionType::Credit, "x"), 1);
    assert!(matches!(r, Err(ErrorResponse::Transient(_))));
    assert_eq!(fresh.get_client(1).unwrap().balance, 0);
    assert!(fresh.get_extract(1, 2).unwrap().transactions.is_empty());
}

#[test]
fn balance_reconciles_with_log() {
    let mut ledger = seeded(&[(1, 100000), (2, 5)]);
    let steps = [
        (1u32, 300u64, TransactionType::Credit),
        (1, 1200, TransactionType::Debit),
        (2, 7, TransactionType::Credit),
        (1, 50, TransactionType::Credit),
        (2, 12, TransactionType::Debit),
        (2, 1, TransactionType::Debit),
    ];
    for (k, (id, value, kind)) in steps.iter().enumerate() {
        let _ = ledger.add_transaction(*id, request(*value, *kind, "s"), k as i64);
    }
    for id in [1u32, 2] {
        let client = ledger.get_client(id).unwrap();
        let extract = ledger.get_extract(id, 100).unwrap();
        let sum: i64 = extract
            .transactions
            .iter()
            .map(|t| match t.transaction_type {
                TransactionType::Credit => t.value,
                TransactionType::Debit => -t.value,
            })
            .sum();
        assert_eq!(client.balance, sum);
        assert!(client.balance >= -(client.limit as i64));
    }
    assert_eq!(ledger.get_client(1).unwrap().balance, -850);
    assert_eq!(ledger.get_client(2).unwrap().balance, -5);
}

#[test]
fn extract_read_twice_is_identical() {
    let mut ledger = seeded(&[(1, 1000)]);
    ledger.add_transaction(1, request(5, TransactionType::Credit, "a"), 1).unwrap();
    ledger.add_transaction(1, request(3, TransactionType::Debit, "b"), 2).unwrap();
    let first = ledger.get_extract(1, 50);
    let second = ledger.get_extract(1, 50);
    assert_eq!(first, second);
    assert_eq!(
        first.unwrap().balance,
        ExtractData { total: 2, date: 50, limit: 1000 }
    );
}

#[test]
fn extract_lists_last_ten_newest_first() {
    let mut ledger = seeded(&[(1, 1000), (2, 0)]);
    for k in 0..12u64 {
        ledger
            .add_transaction(1, request(k + 1, TransactionType::Credit, "c"), 100 + k as i64)
            .unwrap();
        ledger
            .add_transaction(2, request(1, TransactionType::Credit, "other"), 100 + k as i64)
            .unwrap();
    }
    let extract = ledger.get_extract(1, 500).unwrap();
    assert_eq!(extract.transactions.len(), 10);
    let values: Vec<i64> = extract.transactions.iter().map(|t| t.value).collect();
    assert_eq!(values, vec![12, 11, 10, 9, 8, 7, 6, 5, 4, 3]);
    for pair in extract.transactions.windows(2) {
        assert!(pair[0].date >= pair[1].date);
    }
    assert_eq!(extract.balance.total, 78);
}

#[test]
fn extract_with_fewer_than_ten() {
    let mut ledger = seeded(&[(1, 1000)]);
    ledger.add_transaction(1, request(4, TransactionType::Debit, "d"), 1).unwrap();
    ledger.add_transaction(1, request(9, TransactionType::Credit, "c"), 2).unwrap();
    let extract = ledger.get_extract(1, 3).unwrap();
    assert_eq!(extract.transactions.len(), 2);
    assert_eq!(extract.transactions[0].value, 9);
    assert_eq!(extract.transactions[0].transaction_type, TransactionType::Credit);
    assert_eq!(extract.transactions[0].description, "c");
    assert_eq!(extract.transactions[1].value, 4);
    assert_eq!(extract.transactions[1].transaction_type, TransactionType::Debit);
}

#[test]
fn commit_dates_never_go_back() {
    let mut ledger = seeded(&[(1, 1000)]);
    ledger.add_transaction(1, request(1, TransactionType::Credit, "a"), 100).unwrap();
    ledger.add_transaction(1, request(2, TransactionType::Credit, "b"), 40).unwrap();
    let extract = ledger.get_extract(1, 0).unwrap();
    assert_eq!(extract.transactions[0].date, 100);
    assert_eq!(extract.transactions[1].date, 100);
}

#[test]
fn seeding_ignores_known_ids() {
    let mut ledger = seeded(&[(1, 1000), (2, 500), (1, 7)]);
    assert_eq!(ledger.get_client(1).unwrap(), ClientData { id: 1, limit: 1000, balance: 0 });
    ledger.add_transaction(2, request(100, TransactionType::Debit, "x"), 1).unwrap();
    ledger.seed_data(&[(2, 9), (3, 30)]);
    assert_eq!(ledger.get_client(2).unwrap(), ClientData { id: 2, limit: 500, balance: -100 });
    assert_eq!(ledger.get_client(3).unwrap(), ClientData { id: 3, limit: 30, balance: 0 });
}

#[test]
fn decision_follows_account_lookup() {
    let c = ClientData { id: 3, limit: 100, balance: 0 };
    assert_eq!(
        decide_transaction(3, &request(50, TransactionType::Debit, "ok"), Some(c)),
        Ok(TransactionResponse { limit: 100, balance: -50 })
    );
    assert_eq!(
        decide_transaction(3, &request(150, TransactionType::Debit, "ok"), Some(c)),
        Err(ErrorResponse::NotEnoughLimit)
    );
    assert_eq!(
        decide_transaction(3, &request(50, TransactionType::Debit, "ok"), None),
        Err(ErrorResponse::ClientNotFound(3))
    );
    assert_eq!(
        decide_transaction(3, &request(50, TransactionType::Debit, ""), None),
        Err(ErrorResponse::InvalidDescription)
    );
}

#[test]
fn transaction_type_codes() {
    assert_eq!(TransactionType::Debit.code(), b'd');
    assert_eq!(TransactionType::Credit.code(), b'c');
    assert_eq!(TransactionType::from_code(b"d"), Ok(TransactionType::Debit));
    assert_eq!(TransactionType::from_code(b"credit"), Ok(TransactionType::Credit));
    assert_eq!(TransactionType::from_code(b""), Err(CodeError::Empty));
    assert_eq!(TransactionType::from_code(b"x"), Err(CodeError::Unknown(b'x')));
}

#[test]
fn error_status_codes() {
    assert_eq!(ErrorResponse::ClientNotFound(1).status_code(), 404);
    assert_eq!(ErrorResponse::NotEnoughLimit.status_code(), 422);
    assert_eq!(ErrorResponse::InvalidDescription.status_code(), 400);
    assert_eq!(ErrorResponse::InvalidValue.status_code(), 400);
    assert_eq!(ErrorResponse::Transient("disk".to_owned()).status_code(), 500);
}

#[test]
fn zero_value_is_invalid_input() {
    let mut ledger = seeded(&[(1, 1000)]);
    assert_eq!(
        ledger.add_transaction(1, request(0, TransactionType::Credit, "zero"), 1),
        Err(ErrorResponse::InvalidValue)
    );
    // the shape is checked before the account: unknown client, same answer
    assert_eq!(
        ledger.add_transaction(9, request(0, TransactionType::Debit, "zero"), 1),
        Err(ErrorResponse::InvalidValue)
    );
    // an invalid description is reported before the value
    assert_eq!(
        ledger.add_transaction(1, request(0, TransactionType::Debit, ""), 1),
        Err(ErrorResponse::InvalidDescription)
    );
    assert!(ledger.get_extract(1, 2).unwrap().transactions.is_empty());
    assert_eq!(ledger.get_client(1).unwrap().balance, 0);
}

#[test]
fn request_shape_checks() {
    assert_eq!(validate_request(&request(1, TransactionType::Debit, "ok")), Ok(()));
    assert_eq!(
        validate_request(&request(0, TransactionType::Debit, "ok")),
        Err(ErrorResponse::InvalidValue)
    );
    assert_eq!(
        validate_request(&request(5, TransactionType::Credit, "01234567890")),
        Err(ErrorResponse::InvalidDescription)
    );
}

#[test]
fn unrepresentable_balance_is_a_storage_failure() {
    let c = ClientData { id: 1, limit: 0, balance: i64::MAX - 5 };
    assert_eq!(
        decide_transaction(1, &request(5, TransactionType::Credit, "ok"), Some(c)),
        Ok(TransactionResponse { limit: 0, balance: i64::MAX })
    );
    let r = decide_transaction(1, &request(6, TransactionType::Credit, "ok"), Some(c));
    assert!(matches!(r, Err(ErrorResponse::Transient(_))));
    let deep = ClientData { id: 1, limit: u64::MAX, balance: i64::MIN + 10 };
    let r = decide_transaction(1, &request(11, TransactionType::Debit, "ok"), Some(deep));
    assert!(matches!(r, Err(ErrorResponse::Transient(_))));
}

#[test]
fn commit_dates_follow_the_last_record() {
    assert_eq!(commit_date_after(None, 7), 7);
    assert_eq!(commit_date_after(Some(3), 7), 7);
    assert_eq!(commit_date_after(Some(9), 7), 9);
}

#[test]
fn extract_records_are_well_formed() {
    let mut ledger = seeded(&[(1, 1000)]);
    let _ = ledger.add_transaction(1, request(0, TransactionType::Credit, "zero"), 1);
    let _ = ledger.add_transaction(1, request(3, TransactionType::Credit, ""), 2);
    ledger.add_transaction(1, request(3, TransactionType::Credit, "three"), 3).unwrap();
    let extract = ledger.get_extract(1, 4).unwrap();
    assert_eq!(extract.transactions.len(), 1);
    for t in &extract.transactions {
        assert!(t.value > 0);
        let n = t.description.chars().count();
        assert!((1..=10).contains(&n));
    }
}
