use arb_portfolio::amount::Amount;
use arb_portfolio::category::{SwapSubCategory, TransactionCategory};
use arb_portfolio::ingest::internal::{normalize_internal_row, Internal};
use arb_portfolio::ingest::token::{normalize_token_row, Token as TokenRow};
use arb_portfolio::ingest::transaction::{normalize_tx_row, Transaction as TxRow};
use arb_portfolio::token::{resolve_token, Token, TokenMeta};
use arb_portfolio::transaction::to_transactions;
use arb_portfolio::transfer::{Transfer, TransferDirection};

fn meta_table() -> Vec<(String, TokenMeta)> {
    vec![
        (
            "0xabc".to_string(),
            TokenMeta {
                asset: "Alpha".to_string(),
                symbol: "ALP".to_string(),
                is_debt: false,
                stable_usd_value: None,
            },
        ),
        (
            "0xusd".to_string(),
            TokenMeta {
                asset: "Dollar".to_string(),
                symbol: "USD".to_string(),
                is_debt: false,
                stable_usd_value: Some(Amount::from_whole(1)),
            },
        ),
    ]
}

#[test]
fn resolver_matches_addresses_case_insensitively() {
    let t = resolve_token(&"0xABC".to_string(), &meta_table());
    assert_eq!(t.symbol, "ALP");
    assert_eq!(t.address, "0xABC");
    assert!(!t.is_usd);

    let u = resolve_token(&"0xUSD".to_string(), &meta_table());
    assert!(u.is_usd);
    assert_eq!(u.stable_usd_value, Some(Amount::from_whole(1)));
}

#[test]
fn resolver_falls_back_to_the_placeholder() {
    let t = resolve_token(&"0xnone".to_string(), &meta_table());
    assert_eq!(t.symbol, "Unknown");
    assert_eq!(t.asset, "Unknown");
    assert_eq!(t.address, "0xnone");
    assert_eq!(t.stable_usd_value, None);
}

#[test]
fn same_token_ignores_ascii_case() {
    let a = Token {
        asset: "A".to_string(),
        symbol: "A".to_string(),
        stable_usd_value: None,
        address: "0xAbCd".to_string(),
        is_usd: false,
        is_debt: false,
    };
    let mut b = a.clone();
    b.address = "0xaBcD".to_string();
    assert!(a.same_token(&b));
    b.address = "0xaBcE".to_string();
    assert!(!a.same_token(&b));
}

#[test]
fn token_row_normalizes_directionally() {
    let row = TokenRow {
        transaction_hash: "h1".to_string(),
        datetime_utc: "2020-01-01".to_string(),
        from: "0xME".to_string(),
        to: "0xother".to_string(),
        token_value: Amount::from_whole(3),
        usd_value_day_of_tx: Some(Amount::from_whole(12)),
        contract_address: "0xabc".to_string(),
    };
    let t = normalize_token_row(&"0xme".to_string(), &row, &meta_table());
    assert_eq!(t.transfer_id, "h1");
    assert_eq!(t.value, Amount::from_whole(-3));
    assert!(matches!(t.direction(), TransferDirection::Outgoing));
    assert_eq!(t.usd_value, Some(Amount::from_whole(-12)));
    assert_eq!(t.counterparty, vec!["0xother".to_string()]);
    assert_eq!(t.token.symbol, "ALP");
}

#[test]
fn token_row_prefers_the_static_price() {
    let row = TokenRow {
        transaction_hash: "h2".to_string(),
        datetime_utc: "2020-01-01".to_string(),
        from: "0xother".to_string(),
        to: "0xme".to_string(),
        token_value: Amount::from_whole(5),
        usd_value_day_of_tx: Some(Amount::from_whole(999)),
        contract_address: "0xusd".to_string(),
    };
    let t = normalize_token_row(&"0xme".to_string(), &row, &meta_table());
    assert_eq!(t.value, Amount::from_whole(5));
    assert_eq!(t.usd_value, Some(Amount::from_whole(5)));
    assert_eq!(t.counterparty, vec!["0xother".to_string()]);
}

#[test]
fn transaction_row_normalizes_the_moved_side() {
    let row = TxRow {
        txhash: "h3".to_string(),
        datetime_utc: "2020-01-01".to_string(),
        from: "0xme".to_string(),
        to: "0xother".to_string(),
        value_in_eth: None,
        value_out_eth: Some(Amount::from_whole(2)),
        historical_price_eth: Some(Amount::from_whole(1000)),
    };
    let t = normalize_tx_row(&"0xme".to_string(), &row);
    assert_eq!(t.value, Amount::from_whole(-2));
    assert_eq!(t.usd_value, Some(Amount::from_whole(-2000)));
    assert_eq!(t.token.symbol, "ETH");
    assert_eq!(t.counterparty, vec!["0xother".to_string()]);
}

#[test]
fn transaction_row_without_movement_is_zero() {
    let row = TxRow {
        txhash: "h4".to_string(),
        datetime_utc: "2020-01-01".to_string(),
        from: "0xother".to_string(),
        to: "0xme".to_string(),
        value_in_eth: None,
        value_out_eth: None,
        historical_price_eth: Some(Amount::from_whole(1000)),
    };
    let t = normalize_tx_row(&"0xme".to_string(), &row);
    assert_eq!(t.value, Amount::from_whole(0));
    assert_eq!(t.usd_value, None);
}

#[test]
fn internal_row_normalizes_directionally() {
    let row = Internal {
        transaction_hash: "h5".to_string(),
        datetime_utc: "2020-01-01".to_string(),
        from: "0xother".to_string(),
        tx_to: "0xme".to_string(),
        value_in_eth: Some(Amount::from_whole(7)),
        value_out_eth: None,
        historical_price_eth: None,
    };
    let t = normalize_internal_row(&"0xme".to_string(), &row);
    assert_eq!(t.value, Amount::from_whole(7));
    assert_eq!(t.usd_value, None);
    assert_eq!(t.counterparty, vec!["0xother".to_string()]);
}

#[test]
fn amounts_multiply_and_divide_exactly() {
    let a = Amount::from_whole(6);
    let b = Amount::from_units(2_500_000_000); // 2.5
    assert_eq!(a.mul_scaled(&b), Amount::from_whole(15));
    assert_eq!(Amount::from_whole(15).div_scaled(&a), b);
    assert_eq!(Amount::from_whole(-7).abs(), Amount::from_whole(7));
    assert_eq!(Amount::from_whole(5).half(), Amount::from_units(2_500_000_000));
}

#[test]
fn transactions_group_and_name_their_assets() {
    let alp = resolve_token(&"0xabc".to_string(), &meta_table());
    let usd = resolve_token(&"0xusd".to_string(), &meta_table());
    let a = Transfer {
        transfer_id: "g".to_string(),
        datetime: "2020-01-01".to_string(),
        token: alp,
        value: Amount::from_whole(5),
        usd_value: Some(Amount::from_whole(110)),
        counterparty: vec![],
    };
    let b = Transfer {
        transfer_id: "g".to_string(),
        datetime: "2020-01-01".to_string(),
        token: usd,
        value: Amount::from_whole(-90),
        usd_value: Some(Amount::from_whole(-90)),
        counterparty: vec![],
    };
    let c = Transfer {
        transfer_id: "h".to_string(),
        datetime: "2020-01-02".to_string(),
        token: b.token.clone(),
        value: Amount::from_whole(1),
        usd_value: None,
        counterparty: vec![],
    };
    let table = vec![("g".to_string(), "Swap".to_string())];
    let txs = to_transactions(vec![a, b, c], &table);
    assert_eq!(txs.len(), 2);
    assert_eq!(txs[0].transfer_id, "g");
    assert_eq!(txs[0].assets, "ALP|USD");
    match &txs[0].category {
        TransactionCategory::Swap(SwapSubCategory::TwoAsset(two)) => {
            assert_eq!(two.cost_basis, Amount::from_whole(100));
        },
        _ => panic!("expected a two-asset swap"),
    }
    assert_eq!(txs[1].transfer_id, "h");
    assert!(matches!(txs[1].category, TransactionCategory::Unknown));
    assert_eq!(txs[1].assets, "USD");
}

#[test]
fn category_names_render_flat() {
    assert_eq!(TransactionCategory::Trade.name(), "Trade");
    assert_eq!(TransactionCategory::Unknown.name(), "Unknown");
    assert_eq!(
        TransactionCategory::Swap(SwapSubCategory::UnknownSwap).name(),
        "SwapUnknown"
    );
}
