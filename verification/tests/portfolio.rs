use arb_portfolio::amount::Amount;
use arb_portfolio::portfolio::transfers_to_sales;
use arb_portfolio::token::Token;
use arb_portfolio::transfer::Transfer;

fn dummy_token() -> Token {
    Token {
        asset: "ABC".to_string(),
        symbol: "ABC".to_string(),
        stable_usd_value: None,
        address: "0x0".to_string(),
        is_usd: false,
        is_debt: false,
    }
}

fn transfer(id: &str, datetime: &str, value: i64, usd_value: Option<i64>) -> Transfer {
    Transfer {
        transfer_id: id.to_string(),
        datetime: datetime.to_string(),
        token: dummy_token(),
        value: Amount::from_whole(value),
        usd_value: usd_value.map(Amount::from_whole),
        counterparty: vec![],
    }
}

#[test]
fn single_lot_sale() {
    let buy = transfer("1", "2020-01-01", 10, Some(100));
    let sell = transfer("2", "2020-01-02", -4, Some(-80));

    let sales = transfers_to_sales(vec![buy, sell]);
    assert_eq!(sales.len(), 1);
    let s = &sales[0];
    assert_eq!(s.amount, Amount::from_whole(4));
    assert_eq!(s.cost_basis_usd, Amount::from_whole(40));
    assert_eq!(s.proceeds_usd, Amount::from_whole(80));
    assert_eq!(s.gain_usd, Amount::from_whole(40));
}

#[test]
fn multi_lot_sale_split() {
    let buy1 = transfer("1", "2020-01-01", 4, Some(40));
    let buy2 = transfer("2", "2020-01-03", 6, Some(90));
    let sell = transfer("3", "2020-01-04", -8, Some(-160));

    let sales = transfers_to_sales(vec![buy1, buy2, sell]);
    assert_eq!(sales.len(), 2);

    assert_eq!(sales[0].amount, Amount::from_whole(4));
    assert_eq!(sales[0].cost_basis_usd, Amount::from_whole(40));
    assert_eq!(sales[0].proceeds_usd, Amount::from_whole(80));
    assert_eq!(sales[0].gain_usd, Amount::from_whole(40));

    assert_eq!(sales[1].amount, Amount::from_whole(4));
    assert_eq!(sales[1].cost_basis_usd, Amount::from_whole(60));
    assert_eq!(sales[1].proceeds_usd, Amount::from_whole(80));
    assert_eq!(sales[1].gain_usd, Amount::from_whole(20));
}

#[test]
fn sale_without_lots_has_zero_cost_basis() {
    let sell = transfer("1", "2020-01-02", -3, Some(-30));

    let sales = transfers_to_sales(vec![sell]);
    assert_eq!(sales.len(), 1);
    assert_eq!(sales[0].amount, Amount::from_whole(3));
    assert_eq!(sales[0].cost_basis_usd, Amount::from_whole(0));
    assert_eq!(sales[0].proceeds_usd, Amount::from_whole(30));
    assert_eq!(sales[0].gain_usd, Amount::from_whole(30));
}

#[test]
fn sold_amounts_are_conserved() {
    let transfers = vec![
        transfer("1", "2020-01-01", 5, Some(50)),
        transfer("2", "2020-01-02", -2, Some(-30)),
        transfer("3", "2020-01-03", 4, None),
        transfer("4", "2020-01-04", -6, Some(-90)),
    ];
    let sales = transfers_to_sales(transfers);
    let total: i128 = sales.iter().map(|s| s.amount.units).sum();
    assert_eq!(total, Amount::from_whole(8).units);
}

#[test]
fn untracked_purchase_gives_full_gain_when_lots_run_out() {
    // The purchase carries no USD value, so no lot is opened; the later
    // sale is uncovered and reports its full proceeds as gain.
    let buy = transfer("1", "2020-01-01", 5, None);
    let sell = transfer("2", "2020-01-02", -5, Some(-25));

    let sales = transfers_to_sales(vec![buy, sell]);
    assert_eq!(sales.len(), 1);
    assert_eq!(sales[0].cost_basis_usd, Amount::from_whole(0));
    assert_eq!(sales[0].gain_usd, Amount::from_whole(25));
}
