use arb_portfolio::amount::Amount;
use arb_portfolio::category::{
    classify, DebtDirection, SwapSubCategory, TransactionCategory,
};
use arb_portfolio::token::Token;
use arb_portfolio::transfer::Transfer;
use arb_portfolio::usd::{apply_manual_usd, populate_usd};

fn token(address: &str) -> Token {
    Token {
        asset: address.to_string(),
        symbol: address.to_string(),
        stable_usd_value: None,
        address: address.to_string(),
        is_usd: false,
        is_debt: false,
    }
}

fn transfer(id: &str, tok: Token, value: i64, usd_value: Option<i64>) -> Transfer {
    Transfer {
        transfer_id: id.to_string(),
        datetime: "2020-01-01".to_string(),
        token: tok,
        value: Amount::from_whole(value),
        usd_value: usd_value.map(Amount::from_whole),
        counterparty: vec![],
    }
}

fn swap_table() -> Vec<(String, String)> {
    vec![("g".to_string(), "Swap".to_string())]
}

#[test]
fn two_asset_cost_basis_averages_both_legs() {
    let sold = transfer("g", token("0x1"), -3, Some(-90));
    let purchased = transfer("g", token("0x2"), 7, Some(110));
    let c = classify(&vec![sold, purchased], &swap_table());
    match c {
        TransactionCategory::Swap(SwapSubCategory::TwoAsset(two)) => {
            assert_eq!(two.cost_basis, Amount::from_whole(100));
            assert_eq!(two.token_sold.address, "0x1");
            assert_eq!(two.token_purchased.address, "0x2");
            assert_eq!(two.value_sold, Amount::from_whole(-3));
            assert_eq!(two.value_purchased, Amount::from_whole(7));
        },
        _ => panic!("expected a two-asset swap"),
    }
}

#[test]
fn two_asset_cost_basis_falls_back_to_the_stable_leg() {
    let mut stable = token("0x1");
    stable.is_usd = true;
    let sold = transfer("g", stable, -3, Some(-90));
    let purchased = transfer("g", token("0x2"), 7, None);
    let c = classify(&vec![sold, purchased], &swap_table());
    match c {
        TransactionCategory::Swap(SwapSubCategory::TwoAsset(two)) => {
            assert_eq!(two.cost_basis, Amount::from_whole(90));
        },
        _ => panic!("expected a two-asset swap"),
    }

    // And symmetrically when only the purchased leg is the stable asset.
    let sold = transfer("g", token("0x1"), -3, None);
    let mut stable = token("0x2");
    stable.is_usd = true;
    let purchased = transfer("g", stable, 7, Some(110));
    let c = classify(&vec![sold, purchased], &swap_table());
    match c {
        TransactionCategory::Swap(SwapSubCategory::TwoAsset(two)) => {
            assert_eq!(two.cost_basis, Amount::from_whole(110));
        },
        _ => panic!("expected a two-asset swap"),
    }
}

#[test]
fn same_direction_debt_pair_is_a_debt_swap() {
    let mut debt = token("0xd");
    debt.is_debt = true;
    let a = transfer("g", debt, 4, Some(40));
    let b = transfer("g", token("0x2"), 4, Some(40));
    let c = classify(&vec![a, b], &swap_table());
    match c {
        TransactionCategory::Swap(SwapSubCategory::Debt(d)) => {
            assert!(matches!(d.direction, DebtDirection::Borrow));
            assert_eq!(d.debt_token.address, "0xd");
            assert_eq!(d.debt_value, Amount::from_whole(4));
            assert_eq!(d.token.address, "0x2");
        },
        _ => panic!("expected a debt swap"),
    }
}

#[test]
fn outgoing_debt_pair_is_a_repayment() {
    let mut debt = token("0xd");
    debt.is_debt = true;
    let a = transfer("g", token("0x2"), -4, Some(-40));
    let b = transfer("g", debt, -4, Some(-40));
    let c = classify(&vec![a, b], &swap_table());
    match c {
        TransactionCategory::Swap(SwapSubCategory::Debt(d)) => {
            assert!(matches!(d.direction, DebtDirection::Repayment));
        },
        _ => panic!("expected a debt swap"),
    }
}

#[test]
fn stable_priced_pair_is_a_simple_swap() {
    // Same direction, no debt flags: the two-asset and debt rules fail and
    // the one statically priced leg decides.
    let mut stable = token("0xs");
    stable.stable_usd_value = Some(Amount::from_whole(1));
    let a = transfer("g", stable, 50, Some(50));
    let b = transfer("g", token("0x2"), 5, None);
    let c = classify(&vec![a, b], &swap_table());
    match c {
        TransactionCategory::Swap(SwapSubCategory::Simple(s)) => {
            assert_eq!(s.cost_basis, Amount::from_whole(50));
            assert_eq!(s.token.address, "0x2");
            assert_eq!(s.value, Amount::from_whole(5));
        },
        _ => panic!("expected a simple swap"),
    }
}

#[test]
fn unmatched_swap_shape_is_unknown_swap() {
    let a = transfer("g", token("0x1"), 1, None);
    let b = transfer("g", token("0x2"), 2, None);
    let d = transfer("g", token("0x3"), 3, None);
    let c = classify(&vec![a, b, d], &swap_table());
    assert!(matches!(
        c,
        TransactionCategory::Swap(SwapSubCategory::UnknownSwap)
    ));
}

#[test]
fn unmapped_group_is_unknown() {
    let a = transfer("g", token("0x1"), 1, None);
    let c = classify(&vec![a], &Vec::new());
    assert!(matches!(c, TransactionCategory::Unknown));
}

#[test]
fn counterparty_lookup_decides_the_category() {
    let mut a = transfer("g", token("0x1"), 1, None);
    a.counterparty = vec!["0xdef".to_string()];
    let table = vec![("0xdef".to_string(), "Airdrop".to_string())];
    let c = classify(&vec![a], &table);
    assert!(matches!(c, TransactionCategory::Airdrop));
}

#[test]
fn flat_categories_map_through() {
    let table = vec![
        ("t".to_string(), "Trade".to_string()),
        ("x".to_string(), "Transfer".to_string()),
        ("i".to_string(), "Ignore".to_string()),
    ];
    let t = transfer("t", token("0x1"), 1, None);
    assert!(matches!(classify(&vec![t], &table), TransactionCategory::Trade));
    let x = transfer("x", token("0x1"), 1, None);
    assert!(matches!(
        classify(&vec![x], &table),
        TransactionCategory::Transfer
    ));
    let i = transfer("i", token("0x1"), 1, None);
    assert!(matches!(classify(&vec![i], &table), TransactionCategory::Ignore));
}

#[test]
fn backfill_values_the_counter_leg_of_a_two_leg_group() {
    let mut stable = token("0xs");
    stable.stable_usd_value = Some(Amount::from_whole(1));
    let a = transfer("g", stable, -100, None);
    let b = transfer("g", token("0x2"), 5, None);
    let mut v = vec![a, b];
    populate_usd(&mut v);
    assert_eq!(v[0].usd_value, Some(Amount::from_whole(-100)));
    assert_eq!(v[1].usd_value, Some(Amount::from_whole(100)));
}

#[test]
fn backfill_leaves_larger_groups_alone() {
    let mut stable = token("0xs");
    stable.stable_usd_value = Some(Amount::from_whole(1));
    let a = transfer("g", stable, -100, None);
    let b = transfer("g", token("0x2"), 5, Some(7));
    let c = transfer("g", token("0x3"), 6, None);
    let mut v = vec![a, b, c];
    populate_usd(&mut v);
    // The stable leg is still valued at its own price; the others keep
    // whatever they had.
    assert_eq!(v[0].usd_value, Some(Amount::from_whole(-100)));
    assert_eq!(v[1].usd_value, Some(Amount::from_whole(7)));
    assert_eq!(v[2].usd_value, None);
}

#[test]
fn manual_override_takes_precedence() {
    let mut a = transfer("g", token("0x1"), 5, Some(50));
    a.usd_value = Some(Amount::from_whole(50));
    let mut b = transfer("g", token("0x2"), -5, Some(-50));
    let mut v = vec![a, b.clone()];
    let overrides = vec![("g".to_string(), Amount::from_whole(75))];
    apply_manual_usd(&mut v, &overrides);
    assert_eq!(v[0].usd_value, Some(Amount::from_whole(75)));
    assert_eq!(v[1].usd_value, Some(Amount::from_whole(-75)));

    // A missing entry is a no-op.
    b.transfer_id = "other".to_string();
    let mut w = vec![b];
    apply_manual_usd(&mut w, &overrides);
    assert_eq!(w[0].usd_value, Some(Amount::from_whole(-50)));
}
