use dropcamp_exporter::assets::AddressAssets;
use dropcamp_exporter::config::{Chain, Config, ConfigError};
use dropcamp_exporter::liquid::{LiquidFinance, TokenInfoResponse};
use dropcamp_exporter::ranking::{Activity, Curve};
use dropcamp_exporter::tokens::BankCoin;

fn url() -> url::Url {
    url::Url::parse("https://rpc.example.org:443").unwrap()
}

#[test]
fn config_builder_builds() {
    let config = Config::builder()
        .chain("archway-1".to_string(), "aarch".to_string())
        .rpc(url(), Some(5))
        .build()
        .unwrap();
    assert_eq!(config.chain, Chain { id: "archway-1".to_string(), denom: "aarch".to_string() });
    assert_eq!(config.rpc.rate_limit, Some(5));
    assert_eq!(config.rpc.url, url());
}

#[test]
fn config_builder_missing_parts() {
    assert_eq!(Config::builder().rpc(url(), None).build().err(), Some(ConfigError::MissingChain));
    assert_eq!(
        Config::builder().chain("c".to_string(), "d".to_string()).build().err(),
        Some(ConfigError::MissingRpc)
    );
}

#[test]
fn asset_rows_one_per_balance() {
    let assets = AddressAssets {
        address: "archway1abc".to_string(),
        balances: vec![
            BankCoin { denom: "aarch".to_string(), amount: "10".to_string() },
            BankCoin { denom: "ibc/X".to_string(), amount: "7".to_string() },
        ],
    };
    assert_eq!(
        assets.to_rows(),
        vec![vec!["archway1abc", "aarch", "10"], vec!["archway1abc", "ibc/X", "7"]]
    );
    assert_eq!(AddressAssets::header_row(), vec!["address", "denom", "amount"]);
}

#[test]
fn liquid_exporter_takes_token_decimals() {
    let info = TokenInfoResponse {
        name: "Liquid ARCH".to_string(),
        symbol: "sARCH".to_string(),
        decimals: 18,
        total_supply: "1".to_string(),
    };
    let activity = Activity { weight: 100, goal: 0, curve: Curve { numerator: 10000, denominator: 100 } };
    let exporter = LiquidFinance::for_token(activity, &info);
    assert_eq!(exporter.decimals, 18);
    let row = exporter.record("a".to_string(), "1000000000000000000".to_string()).unwrap();
    assert_eq!(row.to_rows()[0][2], "1.00");
}
