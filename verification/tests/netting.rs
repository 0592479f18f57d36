use arb_portfolio::amount::Amount;
use arb_portfolio::token::Token;
use arb_portfolio::transfer::{net_transfers, Transfer};

fn token(address: &str, symbol: &str) -> Token {
    Token {
        asset: symbol.to_string(),
        symbol: symbol.to_string(),
        stable_usd_value: None,
        address: address.to_string(),
        is_usd: false,
        is_debt: false,
    }
}

fn transfer(id: &str, address: &str, value: i64, usd_value: Option<i64>) -> Transfer {
    Transfer {
        transfer_id: id.to_string(),
        datetime: "2020-01-01".to_string(),
        token: token(address, "TOK"),
        value: Amount::from_whole(value),
        usd_value: usd_value.map(Amount::from_whole),
        counterparty: vec![],
    }
}

fn key_of(t: &Transfer) -> (String, String) {
    (t.transfer_id.clone(), t.token.address.to_ascii_lowercase())
}

#[test]
fn netting_merges_same_event_and_token() {
    let netted = net_transfers(vec![
        transfer("a", "0x1", 3, Some(30)),
        transfer("a", "0x1", 4, Some(40)),
        transfer("a", "0x2", 5, None),
    ]);
    assert_eq!(netted.len(), 2);
    assert_eq!(netted[0].value, Amount::from_whole(7));
    assert_eq!(netted[0].usd_value, Some(Amount::from_whole(70)));
    assert_eq!(netted[1].value, Amount::from_whole(5));
    assert_eq!(netted[1].usd_value, None);
}

#[test]
fn netting_is_idempotent() {
    let input = vec![
        transfer("a", "0x1", 3, Some(30)),
        transfer("a", "0x1", -1, None),
        transfer("b", "0x1", 2, None),
        transfer("a", "0x2", -2, Some(-20)),
    ];
    let once = net_transfers(input);
    let twice = net_transfers(once.clone());
    assert_eq!(once.len(), twice.len());
    for (x, y) in once.iter().zip(twice.iter()) {
        assert_eq!(x.transfer_id, y.transfer_id);
        assert_eq!(x.token.address, y.token.address);
        assert_eq!(x.value, y.value);
        assert_eq!(x.usd_value, y.usd_value);
        assert_eq!(x.datetime, y.datetime);
    }
}

#[test]
fn zero_sum_movements_vanish() {
    let netted = net_transfers(vec![
        transfer("a", "0x1", 5, Some(50)),
        transfer("a", "0x1", -5, Some(-50)),
        transfer("b", "0x1", 1, None),
    ]);
    assert_eq!(netted.len(), 1);
    assert_eq!(netted[0].transfer_id, "b");
}

#[test]
fn netted_keys_are_distinct() {
    let netted = net_transfers(vec![
        transfer("a", "0x1", 1, None),
        transfer("a", "0x1", 2, None),
        transfer("a", "0x2", 3, None),
        transfer("b", "0x1", 4, None),
        transfer("a", "0x1", 5, None),
    ]);
    let mut keys: Vec<(String, String)> = netted.iter().map(key_of).collect();
    let before = keys.len();
    keys.sort();
    keys.dedup();
    assert_eq!(keys.len(), before);
    assert_eq!(before, 3);
}

#[test]
fn usd_merge_treats_absent_as_zero() {
    let netted = net_transfers(vec![
        transfer("a", "0x1", 1, Some(10)),
        transfer("a", "0x1", 2, None),
    ]);
    assert_eq!(netted.len(), 1);
    assert_eq!(netted[0].value, Amount::from_whole(3));
    assert_eq!(netted[0].usd_value, Some(Amount::from_whole(10)));
}

#[test]
fn per_key_sums_do_not_depend_on_input_order() {
    let a = transfer("a", "0x1", 3, Some(30));
    let b = transfer("a", "0x1", -1, None);
    let c = transfer("b", "0x2", 2, Some(20));
    let one = net_transfers(vec![a.clone(), b.clone(), c.clone()]);
    let two = net_transfers(vec![c, b, a]);
    assert_eq!(one.len(), two.len());
    for x in &one {
        let y = two
            .iter()
            .find(|y| y.transfer_id == x.transfer_id && y.token.address == x.token.address)
            .expect("key present in both orders");
        assert_eq!(x.value, y.value);
        assert_eq!(x.usd_value, y.usd_value);
    }
}

#[test]
fn tokens_net_case_insensitively() {
    let netted = net_transfers(vec![
        transfer("a", "0xAB", 1, None),
        transfer("a", "0xab", 2, None),
    ]);
    assert_eq!(netted.len(), 1);
    assert_eq!(netted[0].value, Amount::from_whole(3));
}
