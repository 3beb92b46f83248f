//! Accounts, assets and tokens as text.

use dex_aggregator::account::AccountId;
use dex_aggregator::asset::{AssetId, ParseAssetError};
use dex_aggregator::json::Json;
use dex_aggregator::providers::intear_plach::{AccountOrDexId, ParseHolderError};
use dex_aggregator::types::TokenId;

fn account(name: &str) -> AccountId {
    AccountId::parse(name).unwrap()
}

#[test]
fn accounts_are_checked() {
    assert_eq!(AccountId::parse("Trader.near"), None);
    assert_eq!(AccountId::parse("a"), None);
    assert_eq!(AccountId::parse("a..near"), None);
    assert_eq!(account("trader.near").as_str(), "trader.near");
    assert!(account("token.aidols.near").is_sub_account_of("aidols.near"));
    assert!(!account("a.token.aidols.near").is_sub_account_of("aidols.near"));
    assert!(!account("aidols.near").is_sub_account_of("aidols.near"));
    assert!(!account("xaidols.near").is_sub_account_of("aidols.near"));
}

#[test]
fn assets_read_back() {
    for asset in [
        AssetId::Near,
        AssetId::Nep141(account("wrap.near")),
        AssetId::Nep245(account("token.near"), "token-id".to_string()),
        AssetId::Nep171(account("token.near"), "a:b".to_string()),
    ] {
        assert_eq!(AssetId::from_str(&asset.to_text()), Ok(asset));
    }
    assert_eq!(AssetId::Nep245(account("token.near"), "id".to_string()).to_text(), "nep245:token.near:id");
}

#[test]
fn bad_assets_are_refused() {
    assert_eq!(AssetId::from_str("wrap.near"), Err(ParseAssetError::InvalidAssetId));
    assert_eq!(AssetId::from_str("nep245:token.near"), Err(ParseAssetError::InvalidAssetId));
    assert_eq!(AssetId::from_str("nep999:token.near"), Err(ParseAssetError::InvalidAssetId));
    assert_eq!(AssetId::from_str("nep141:No Account"), Err(ParseAssetError::InvalidAccountId));
    assert_eq!(AssetId::from_str("nep171:BAD:1"), Err(ParseAssetError::InvalidAccountId));
}

#[test]
fn tokens_read_back() {
    let wrap = account("wrap.near");
    assert_eq!(TokenId::from_str("near"), Ok(TokenId::Near));
    assert_eq!(TokenId::from_str("nep141:wrap.near"), Ok(TokenId::Nep141(wrap.clone())));
    assert_eq!(TokenId::from_str("wrap.near"), Ok(TokenId::Nep141(wrap.clone())));
    assert_eq!(TokenId::from_str("rhea-nep141:wrap.near"), Ok(TokenId::Nep141OnRhea(wrap.clone())));
    assert_eq!(TokenId::from_str("intear-dex:near"), Ok(TokenId::TokenOnIntearDex(AssetId::Near)));
    assert_eq!(
        TokenId::from_str("intear-dex:nep141:wrap.near"),
        Ok(TokenId::TokenOnIntearDex(AssetId::Nep141(wrap.clone())))
    );
    assert_eq!(TokenId::from_str("intear-dex:wrap.near"), Err(ParseAssetError::InvalidAssetId));
    assert_eq!(TokenId::from_str("other:wrap.near"), Err(ParseAssetError::InvalidAccountId));
    assert_eq!(TokenId::from_str("Wrap.near"), Err(ParseAssetError::InvalidAccountId));
    for token in [
        TokenId::Near,
        TokenId::Nep141(wrap.clone()),
        TokenId::Nep141OnRhea(wrap.clone()),
        TokenId::TokenOnIntearDex(AssetId::Nep171(wrap, "7".to_string())),
    ] {
        assert_eq!(TokenId::from_str(&token.to_text()), Ok(token));
    }
}

#[test]
fn holders_are_read() {
    assert_eq!(
        AccountOrDexId::from_str("account:trader.near"),
        Ok(AccountOrDexId::Account(account("trader.near")))
    );
    assert_eq!(
        AccountOrDexId::from_str("dex:slimedragon.near/xyk"),
        Ok(AccountOrDexId::Dex("slimedragon.near/xyk".to_string()))
    );
    assert_eq!(AccountOrDexId::from_str("account:No"), Err(ParseHolderError::InvalidAccountId));
    assert_eq!(AccountOrDexId::from_str("trader.near"), Err(ParseHolderError::InvalidFormat));
    let json = AccountOrDexId::Account(account("trader.near")).to_json();
    match json {
        Json::Object(fields) => {
            assert_eq!(fields.len(), 1);
            assert_eq!(fields[0].key, "Account");
            assert_eq!(fields[0].value, Json::Text("trader.near".to_string()));
        }
        other => panic!("{other:?}"),
    }
}
