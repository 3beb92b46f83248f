//! Moving tokens between their locations, and merging transactions.

use dex_aggregator::account::AccountId;
use dex_aggregator::asset::AssetId;
use dex_aggregator::ident::IdentPair;
use dex_aggregator::merging::optimize_execution_instructions;
use dex_aggregator::network::{needs_storage_deposit, Network, INTEAR_STORAGE, RHEA_STORAGE};
use dex_aggregator::shared_utils::{
    base_token, convert_to, convert_to_native, convert_to_nep141, create_intear_dex_withdraw_action,
    create_intear_nep141_deposit_action, create_rhea_nep141_deposit_action, create_rhea_withdraw_action,
    create_storage_deposit_action, create_storage_deposit_action_for_contract,
    create_storage_deposit_action_for_someone, create_unwrap_action, create_wrap_action,
    deposit_storage_if_needed, deposit_storage_on_contract_if_needed, is_near, BaseTokenId, INTEAR_CONTRACT,
    RHEA_CONTRACT, TGAS, TOKEN_STORAGE, WRAP_NEAR,
};
use dex_aggregator::types::{Action, ExecutionInstruction, FunctionCallAction, TokenId};

fn account(name: &str) -> AccountId {
    AccountId::parse(name).unwrap()
}

fn tx(receiver: &str, actions: Vec<Action>) -> ExecutionInstruction {
    ExecutionInstruction::NearTransaction { receiver_id: account(receiver), actions }
}

fn on_intear(name: &str) -> TokenId {
    TokenId::TokenOnIntearDex(AssetId::Nep141(account(name)))
}

fn args(action: &Action) -> String {
    let Action::FunctionCall(call) = action;
    String::from_utf8(call.args.clone()).unwrap()
}

/// A network where the trader and the exchanges are registered everywhere.
fn registered() -> Network {
    let mut network = Network::new();
    for holder in ["trader.near", RHEA_CONTRACT, INTEAR_CONTRACT] {
        for token in ["ft", WRAP_NEAR] {
            let key = IdentPair { first: account(holder), second: account(token) };
            network.storage_totals.insert(key, 1);
        }
    }
    for token in ["ft", WRAP_NEAR] {
        network.rhea_registered.insert(IdentPair { first: account("trader.near"), second: account(token) }, true);
        let asset = AssetId::Nep141(account(token));
        network.intear_registered.insert(IdentPair { first: account("trader.near"), second: asset }, true);
    }
    network.intear_registered.insert(IdentPair { first: account("trader.near"), second: AssetId::Near }, true);
    network.rhea_available.insert(account("trader.near"), RHEA_STORAGE + 1);
    network.intear_available.insert(account("trader.near"), INTEAR_STORAGE + 1);
    network
}

#[test]
fn actions_carry_their_arguments() {
    assert_eq!(
        create_wrap_action(7),
        Action::FunctionCall(FunctionCallAction {
            method_name: "near_deposit".to_string(),
            args: b"{}".to_vec(),
            gas: 2 * TGAS,
            deposit: 7,
        })
    );
    assert_eq!(args(&create_unwrap_action(7)), r#"{"amount":"7"}"#);
    assert_eq!(
        args(&create_rhea_withdraw_action(&account("ft"), 7, true)),
        r#"{"amount":"7","skip_unwrap_near":false,"token_id":"ft"}"#
    );
    assert_eq!(
        args(&create_intear_dex_withdraw_action(&AssetId::Near, 7)),
        r#"{"amount":{"Exact":"7"},"asset_id":"near"}"#
    );
    assert_eq!(
        args(&create_rhea_nep141_deposit_action(&account(RHEA_CONTRACT), 7)),
        r#"{"amount":"7","msg":"","receiver_id":"v2.ref-finance.near"}"#
    );
    assert_eq!(
        create_intear_nep141_deposit_action(&account("x.near"), 7),
        create_rhea_nep141_deposit_action(&account("x.near"), 7)
    );
    assert_eq!(args(&create_storage_deposit_action_for_contract(1, true)), r#"{"registration_only":true}"#);
    assert_eq!(
        args(&create_storage_deposit_action_for_someone(1, &account("x.near"))),
        r#"{"account_id":"x.near","registration_only":true}"#
    );
}

#[test]
fn storage_is_paid_where_it_is_needed() {
    let trader = Some(account("trader.near"));
    let ft = TokenId::Nep141(account("ft"));
    let nothing = Network::new();
    let all = registered();
    assert_eq!(
        deposit_storage_if_needed(&nothing, &ft, &trader),
        vec![tx("ft", vec![create_storage_deposit_action_for_contract(TOKEN_STORAGE, true)])]
    );
    assert_eq!(deposit_storage_if_needed(&nothing, &ft, &None), vec![]);
    assert_eq!(deposit_storage_if_needed(&nothing, &TokenId::Near, &trader), vec![]);
    assert_eq!(deposit_storage_if_needed(&all, &ft, &trader), vec![]);
    assert_eq!(
        deposit_storage_on_contract_if_needed(&nothing, &account("ft"), &trader, 5),
        vec![tx("ft", vec![create_storage_deposit_action_for_contract(5, true)])]
    );
    assert_eq!(deposit_storage_on_contract_if_needed(&all, &account("ft"), &trader, 5), vec![]);
    let on_rhea = TokenId::Nep141OnRhea(account("ft"));
    assert!(!needs_storage_deposit(&all, &account("trader.near"), &on_rhea));
    assert!(needs_storage_deposit(&all, &account("other.near"), &on_rhea));
    let mut low = registered();
    low.rhea_available.insert(account("trader.near"), RHEA_STORAGE);
    assert!(needs_storage_deposit(&low, &account("trader.near"), &on_rhea));
    let mut unregistered = registered();
    unregistered.intear_registered.remove(&IdentPair { first: account("trader.near"), second: AssetId::Near });
    let near_inside = TokenId::TokenOnIntearDex(AssetId::Near);
    assert!(needs_storage_deposit(&unregistered, &account("trader.near"), &near_inside));
    assert!(!needs_storage_deposit(&all, &account("trader.near"), &near_inside));
    match &create_storage_deposit_action(&on_rhea)[..] {
        [ExecutionInstruction::NearTransaction { receiver_id, actions }] => {
            assert_eq!(receiver_id, &account(RHEA_CONTRACT));
            assert_eq!(args(&actions[0]), r#"{"registration_only":false}"#);
            assert_eq!(args(&actions[1]), r#"{"token_ids":["ft"]}"#);
        }
        other => panic!("{other:?}"),
    }
    match &create_storage_deposit_action(&near_inside)[..] {
        [ExecutionInstruction::NearTransaction { receiver_id, actions }] => {
            assert_eq!(receiver_id, &account(INTEAR_CONTRACT));
            assert_eq!(args(&actions[0]), "{}");
            assert_eq!(args(&actions[1]), r#"{"asset_ids":["near"]}"#);
        }
        other => panic!("{other:?}"),
    }
}

#[test]
fn tokens_go_into_the_wallet() {
    let wrap = account(WRAP_NEAR);
    assert_eq!(
        convert_to_nep141(&TokenId::Near, 5),
        Some((vec![tx(WRAP_NEAR, vec![create_wrap_action(5)])], wrap.clone()))
    );
    assert_eq!(convert_to_nep141(&TokenId::Near, 0), Some((vec![], wrap.clone())));
    assert_eq!(convert_to_nep141(&TokenId::Nep141(account("ft")), 5), Some((vec![], account("ft"))));
    let inside = TokenId::TokenOnIntearDex(AssetId::Near);
    assert_eq!(
        convert_to_nep141(&inside, 5),
        Some((
            vec![
                tx(INTEAR_CONTRACT, vec![create_intear_dex_withdraw_action(&AssetId::Near, 5)]),
                tx(WRAP_NEAR, vec![create_wrap_action(5)]),
            ],
            wrap.clone()
        ))
    );
    let nft = TokenId::TokenOnIntearDex(AssetId::Nep171(account("nft.near"), "1".to_string()));
    assert_eq!(convert_to_nep141(&nft, 5), None);
    assert_eq!(convert_to_native(&TokenId::Near, 0), Some(vec![]));
    assert_eq!(
        convert_to_native(&TokenId::Nep141(wrap.clone()), 5),
        Some(vec![tx(WRAP_NEAR, vec![create_unwrap_action(5)])])
    );
    assert_eq!(convert_to_native(&TokenId::Nep141(wrap.clone()), 0), None);
    assert_eq!(convert_to_native(&TokenId::Nep141(account("ft")), 5), None);
    assert_eq!(
        convert_to_native(&TokenId::Nep141OnRhea(wrap.clone()), 5),
        Some(vec![tx(RHEA_CONTRACT, vec![create_rhea_withdraw_action(&wrap, 5, true)])])
    );
    assert_eq!(convert_to_native(&inside, 0), None);
    assert_eq!(
        convert_to_native(&on_intear(WRAP_NEAR), 5),
        Some(vec![
            tx(INTEAR_CONTRACT, vec![create_intear_dex_withdraw_action(&AssetId::Nep141(wrap.clone()), 5)]),
            tx(WRAP_NEAR, vec![create_unwrap_action(5)]),
        ])
    );
    assert_eq!(convert_to_native(&nft, 5), None);
    assert!(is_near(&inside) && is_near(&on_intear(WRAP_NEAR)) && !is_near(&nft) && !is_near(&on_intear("ft")));
    assert_eq!(base_token(&on_intear("ft")), Some(BaseTokenId::Nep141(account("ft"))));
    assert_eq!(base_token(&inside), Some(BaseTokenId::Near));
    assert_eq!(base_token(&nft), None);
}

#[test]
fn conversion_withdraws_then_deposits() {
    let trader = Some(account("trader.near"));
    let all = registered();
    let wrap = account(WRAP_NEAR);
    assert_eq!(convert_to(&all, &TokenId::Near, &TokenId::Near, 5, &trader), vec![]);
    assert_eq!(
        convert_to(&all, &TokenId::Nep141OnRhea(wrap.clone()), &TokenId::Near, 5, &trader),
        vec![tx(RHEA_CONTRACT, vec![create_rhea_withdraw_action(&wrap, 5, true)])]
    );
    assert_eq!(
        convert_to(&all, &TokenId::Nep141OnRhea(account("ft")), &on_intear("ft"), 5, &trader),
        vec![
            tx(RHEA_CONTRACT, vec![create_rhea_withdraw_action(&account("ft"), 5, false)]),
            tx("ft", vec![create_intear_nep141_deposit_action(&account(INTEAR_CONTRACT), 5)]),
        ]
    );
    assert_eq!(
        convert_to(&all, &TokenId::Near, &TokenId::Nep141OnRhea(wrap.clone()), 5, &trader),
        vec![
            tx(WRAP_NEAR, vec![create_wrap_action(5)]),
            tx(WRAP_NEAR, vec![create_rhea_nep141_deposit_action(&account(RHEA_CONTRACT), 5)]),
        ]
    );
    let to_near_inside =
        convert_to(&all, &TokenId::Nep141(wrap.clone()), &TokenId::TokenOnIntearDex(AssetId::Near), 5, &trader);
    assert_eq!(to_near_inside.len(), 2);
    assert_eq!(to_near_inside[0], tx(WRAP_NEAR, vec![create_unwrap_action(5)]));
    let unregistered = convert_to(&Network::new(), &TokenId::Nep141(account("ft")), &on_intear("ft"), 5, &trader);
    assert_eq!(
        unregistered[1],
        tx(
            "ft",
            vec![
                create_storage_deposit_action_for_contract(TOKEN_STORAGE, true),
                create_storage_deposit_action_for_someone(TOKEN_STORAGE, &account(INTEAR_CONTRACT)),
            ]
        )
    );
    let nft = TokenId::TokenOnIntearDex(AssetId::Nep171(account("nft.near"), "1".to_string()));
    assert_eq!(convert_to(&all, &nft, &TokenId::Near, 5, &trader), vec![]);
}

#[test]
fn neighbours_are_merged() {
    let a = || create_wrap_action(1);
    let b = || create_unwrap_action(2);
    let quote = || ExecutionInstruction::IntentsQuote {
        message_to_sign: "m".to_string(),
        quote_hash: "h".to_string(),
    };
    let merged = optimize_execution_instructions(&vec![
        tx("x.near", vec![a()]),
        tx("y.near", vec![]),
        tx("x.near", vec![b()]),
        quote(),
        tx("x.near", vec![a()]),
        tx("y.near", vec![b()]),
    ]);
    assert_eq!(
        merged,
        vec![
            tx("x.near", vec![a(), b()]),
            quote(),
            tx("x.near", vec![a()]),
            tx("y.near", vec![b()]),
        ]
    );
    assert_eq!(optimize_execution_instructions(&merged), merged);
    assert_eq!(optimize_execution_instructions(&vec![]), vec![]);
}
