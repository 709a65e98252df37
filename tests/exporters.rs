use dropcamp_exporter::archid::{AddressNames, ArchId};
use dropcamp_exporter::astrovault::{Astrovault, AstrovaultPosition, WalletStats};
use dropcamp_exporter::balances::{
    AddressBalances, Balances, map_coins, price_ids, usd_total, value_coins, Balance,
};
use dropcamp_exporter::coin::{Amount, ArithmeticError, Coin, to_bigdecimal};
use dropcamp_exporter::csv::{header_fields, render_row, Item};
use dropcamp_exporter::liquid::{AddressBalance, LiquidError, LiquidFinance};
use dropcamp_exporter::ranking::{Activity, Curve};
use dropcamp_exporter::staking::{ActiveDelegations, Delegation, Staking, StakingError};
use dropcamp_exporter::text::ParseIntError;
use dropcamp_exporter::tokens::{BankCoin, TokenInfo, TokenMap};

fn activity() -> Activity {
    Activity { weight: 100, goal: 0, curve: Curve { numerator: 10000, denominator: 5000 } }
}

fn table() -> TokenMap {
    TokenMap(vec![
        (
            "aarch".to_string(),
            TokenInfo { denom: "ARCH".to_string(), decimals: 18, coingecko_id: Some("archway".to_string()) },
        ),
        (
            "ibc/ATOM".to_string(),
            TokenInfo { denom: "ATOM".to_string(), decimals: 6, coingecko_id: Some("cosmos".to_string()) },
        ),
        ("ibc/NOPRICE".to_string(), TokenInfo { denom: "NP".to_string(), decimals: 6, coingecko_id: None }),
    ])
}

fn bank(denom: &str, amount: &str) -> BankCoin {
    BankCoin { denom: denom.to_string(), amount: amount.to_string() }
}

#[test]
fn headers_are_the_documented_ones() {
    let line = |h: Vec<&'static str>| render_row(&header_fields(&h));
    assert_eq!(line(AddressBalances::header_row()), "address;ranking;usd_total;balances\n");
    assert_eq!(line(ActiveDelegations::header_row()), "address;ranking;total_delegated;validators\n");
    assert_eq!(line(AddressNames::header_row()), "address;ranking;name_count;names\n");
    assert_eq!(line(AddressBalance::header_row()), "address;ranking;balance\n");
    assert_eq!(line(AstrovaultPosition::header_row()), "address;ranking;has_lpd;has_traded;tvl\n");
}

#[test]
fn token_map_get() {
    let t = table();
    assert_eq!(t.get(&"ibc/ATOM".to_string()).unwrap().decimals, 6);
    assert!(t.get(&"uosmo".to_string()).is_none());
}

#[test]
fn unknown_denominations_are_dropped() {
    let coins = map_coins(&table(), vec![bank("uosmo", "5"), bank("ibc/ATOM", "2500000")]).unwrap();
    assert_eq!(coins.len(), 1);
    assert_eq!(coins[0].denom, "ATOM");
    assert_eq!(coins[0].amount.to_u128(), Some(2_500_000));
    assert_eq!(coins[0].amount.scale, 6);
}

#[test]
fn unreadable_amount_fails() {
    let r = map_coins(&table(), vec![bank("ibc/ATOM", "12x")]);
    assert_eq!(r.err(), Some(ParseIntError));
}

#[test]
fn coins_without_price_id_are_not_priced() {
    let coins = map_coins(&table(), vec![bank("ibc/NOPRICE", "7"), bank("aarch", "1")]).unwrap();
    assert_eq!(price_ids(&coins), vec!["archway".to_string()]);
}

#[test]
fn balances_row() {
    let coins = map_coins(
        &table(),
        vec![bank("aarch", "2000000000000000000"), bank("ibc/ATOM", "2500000"), bank("ibc/NOPRICE", "9")],
    )
    .unwrap();
    // ARCH at 0.10 USD, ATOM at 8.00 USD, in nano-dollars.
    let prices = vec![("archway".to_string(), 100_000_000u128), ("cosmos".to_string(), 8_000_000_000)];
    let exporter = Balances { activity: activity() };
    let row = exporter.record("archway1abc".to_string(), coins, &prices).unwrap();
    assert_eq!(row.usd, 2020);
    assert_eq!(row.ranking, activity().ranking(2020));
    let rows = row.to_rows();
    assert_eq!(rows[0][0], "archway1abc");
    assert_eq!(rows[0][2], "20.20");
    assert_eq!(rows[0][3], "2.00ARCH,2.50ATOM");
}

#[test]
fn coin_value_and_overflow() {
    let c = Coin::build("ATOM".to_string(), "2500000".to_string(), 6, None).unwrap();
    assert_eq!(c.total_value(8_000_000_000), Ok(20_000_000_000));
    let big = Coin::build("X".to_string(), u128::MAX.to_string(), 0, None).unwrap();
    assert_eq!(big.total_value(2), Err(ArithmeticError));
    assert_eq!(Coin::build("X".to_string(), String::new(), 0, None).err(), Some(ParseIntError));
}

#[test]
fn total_overflow_is_an_error() {
    let coin = Coin::build("X".to_string(), "1".to_string(), 0, None).unwrap();
    let b = |v: u128| Balance { balance: coin.clone(), total_value: v };
    assert_eq!(usd_total(&vec![b(1), b(2)]), Ok(3));
    assert_eq!(usd_total(&vec![b(u128::MAX), b(1)]), Err(ArithmeticError));
}

#[test]
fn valued_coins_keep_order() {
    let coins = map_coins(&table(), vec![bank("ibc/ATOM", "1000000"), bank("aarch", "0")]).unwrap();
    let prices = vec![("archway".to_string(), 1u128), ("cosmos".to_string(), 1_000_000_000)];
    let v = value_coins(coins, &prices).unwrap();
    assert_eq!(v.len(), 2);
    assert_eq!(v[0].total_value, 1_000_000_000);
    assert_eq!(v[1].total_value, 0);
}

#[test]
fn amount_text_and_scale() {
    let a = Amount::parse("123456789", 6).unwrap();
    let cut = a.with_scale(2);
    assert_eq!(cut.to_u128(), Some(12345));
    assert_eq!(cut.to_text(), "123.45");
    assert_eq!(Amount::parse("5", 0).unwrap().with_scale(2).to_text(), "5.00");
    let b = to_bigdecimal("1500000000000000000").unwrap();
    assert_eq!((b.to_u128(), b.scale), (Some(1_500_000_000_000_000_000), 18));
    assert_eq!(Amount::from_u128(0, 2).to_text(), "0");
    assert_eq!(Amount::from_u128(1234, 2).to_text(), "12.34");
}

#[test]
fn amounts_beyond_u128_are_read() {
    let big = "3402823669209384634633746074317682114560";
    let a = Amount::parse(big, 0).unwrap();
    assert_eq!(a.to_u128(), None);
    assert_eq!(a.with_scale(2).to_text(), format!("{}.00", big));
    assert_eq!(a.with_scale(0).digits.len(), 40);
    let c = Coin::build("X".to_string(), big.to_string(), 18, None).unwrap();
    assert_eq!(c.with_scale(2).to_text(), "3402823669209384634633.74X");
    assert_eq!(c.total_value(2), Err(ArithmeticError));
    assert_eq!(c.total_value(0), Ok(0));
}

#[test]
fn coin_text_has_denom() {
    let c = Coin::build("ARCH".to_string(), "1234".to_string(), 2, None).unwrap();
    assert_eq!(c.to_text(), "12.34ARCH");
}

#[test]
fn staking_row() {
    let exporter = Staking { activity: activity() };
    let delegations = vec![
        Delegation { validator: Some("valA".to_string()), amount: Some("1500000000000000000".to_string()) },
        Delegation { validator: None, amount: Some("1".to_string()) },
        Delegation { validator: Some("valB".to_string()), amount: Some("2250000000000000000".to_string()) },
    ];
    let row = exporter.record("archway1abc".to_string(), delegations).unwrap();
    assert_eq!(row.validators, vec!["valA".to_string(), "valB".to_string()]);
    assert_eq!(row.delegated, 375);
    assert_eq!(row.delegated_text, "3.75");
    let rows = row.to_rows();
    assert_eq!(rows[0][2], "3.75");
    assert_eq!(rows[0][3], "valA,valB");
}

#[test]
fn staking_unreadable_amount_fails() {
    let exporter = Staking { activity: activity() };
    let delegations = vec![Delegation { validator: Some("v".to_string()), amount: Some("x".to_string()) }];
    assert_eq!(
        exporter.record("a".to_string(), delegations).err(),
        Some(StakingError::Decode(ParseIntError))
    );
}

#[test]
fn archid_row() {
    let exporter = ArchId { activity: activity() };
    let row = exporter.record("a".to_string(), Some(vec!["one.arch".to_string(), "two.arch".to_string()]));
    assert_eq!(row.ranking, activity().ranking(200));
    let rows = row.to_rows();
    assert_eq!(rows[0][2], "2");
    assert_eq!(rows[0][3], "one.arch,two.arch");
    let none = exporter.record("b".to_string(), None);
    assert!(none.names.is_empty());
    assert_eq!(none.ranking, 0);
}

#[test]
fn liquid_row() {
    let exporter = LiquidFinance { activity: activity(), decimals: 6 };
    let row = exporter.record("a".to_string(), "50000000".to_string()).unwrap();
    assert_eq!(row.balance.to_u128(), Some(5000));
    assert_eq!(row.balance_text, "50.00");
    assert_eq!(row.ranking, 5000);
    assert_eq!(row.to_rows()[0][2], "50.00");
    assert_eq!(
        exporter.record("a".to_string(), "".to_string()).err(),
        Some(LiquidError::Decode(ParseIntError))
    );
    let whole = LiquidFinance { activity: activity(), decimals: 0 };
    let big = format!("{}0", u128::MAX);
    let row = whole.record("a".to_string(), big.clone()).unwrap();
    assert_eq!(row.balance_text, format!("{}.00", big));
    assert_eq!(row.ranking, 10000);
}

#[test]
fn staking_keeps_one_entry_per_validator() {
    let exporter = Staking { activity: activity() };
    let delegations = vec![
        Delegation { validator: Some("valA".to_string()), amount: Some("1000000000000000000".to_string()) },
        Delegation { validator: Some("valB".to_string()), amount: Some("2000000000000000000".to_string()) },
        Delegation { validator: Some("valA".to_string()), amount: Some("500000000000000000".to_string()) },
    ];
    let row = exporter.record("a".to_string(), delegations).unwrap();
    assert_eq!(row.validators, vec!["valA".to_string(), "valB".to_string()]);
    assert_eq!(row.delegated, 250);
    assert_eq!(row.to_rows()[0][2], "2.50");
}

#[test]
fn amounts_read_as_num_bigint_reads_them() {
    let c = |s: &str| Coin::build("X".to_string(), s.to_string(), 0, None).map(|c| c.amount.to_u128());
    assert_eq!(c("+1"), Ok(Some(1)));
    assert_eq!(c("1_000"), Ok(Some(1000)));
    assert_eq!(c("0"), Ok(Some(0)));
    assert_eq!(c("+").err(), Some(ParseIntError));
    assert_eq!(c("++1").err(), Some(ParseIntError));
    assert_eq!(c("_1").err(), Some(ParseIntError));
    assert_eq!(c("1.5").err(), Some(ParseIntError));
    assert_eq!(c("-1").err(), Some(ParseIntError));
}

#[test]
fn astrovault_row() {
    let exporter = Astrovault { activity: activity() };
    let row = exporter.record(
        "a".to_string(),
        WalletStats { has_lpd: true, has_traded: false },
        500000,
        "5000.123".to_string(),
    );
    assert_eq!(row.ranking, 9901);
    let rows = row.to_rows();
    assert_eq!(rows[0], vec!["a", "99.01", "true", "false", "5000.123"]);
}

#[test]
fn coin_amount_with_sign_and_separators() {
    let c = Coin::build("ATOM".to_string(), "+2_500_000".to_string(), 6, None).unwrap();
    assert_eq!(c.amount.to_u128(), Some(2_500_000));
}

#[test]
fn item_impls_give_header_and_rows() {
    use_item::<AddressNames>(
        AddressNames { address: "a".to_string(), names: vec!["x".to_string(), "y".to_string()], ranking: 0 },
        "address;ranking;name_count;names\n",
        "a;0.00;2;x,y\n",
    );
}

fn use_item<T: Item>(item: T, header: &str, line: &str) {
    assert_eq!(render_row(&header_fields(&T::header())), header);
    assert_eq!(render_row(&item.rows()[0]), line);
}
