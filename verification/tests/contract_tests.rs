use payxpay_escrow::balance::{Balance, Coin, Cw20Coin, GenericBalance};
use payxpay_escrow::contract::{
    execute_approve, execute_create, execute_refund, execute_set_recipient, execute_top_up,
    instantiate, query_details, query_list, State, TransferInstruction,
};
use payxpay_escrow::error::ContractError;
use payxpay_escrow::msg::{CreateMsg, DetailsResponse};
use payxpay_escrow::state::{EscrowType, InvoiceAmount};

const MOCK_HEIGHT: u64 = 12345;
const MOCK_TIME_NANOS: u64 = 1571797419879305533;

fn coin(amount: u128, denom: &str) -> Coin {
    Coin {
        denom: denom.to_string(),
        amount,
    }
}

fn cw20(amount: u128, address: &str) -> Cw20Coin {
    Cw20Coin {
        address: address.to_string(),
        amount,
    }
}

fn invoice_type() -> EscrowType {
    EscrowType::Invoice {
        amount: InvoiceAmount {
            amount: "123".to_string(),
            currency: "USD".to_string(),
        },
    }
}

fn base_create(
    id: &str,
    recipient: Option<&str>,
    end_height: Option<u64>,
    cw20_whitelist: Option<Vec<String>>,
) -> CreateMsg {
    CreateMsg {
        id: id.to_string(),
        escrow_type: invoice_type(),
        recipient: recipient.map(|r| r.to_string()),
        recepient_email: None,
        recepient_telegram_id: Some("456".to_string()),
        source_telegram_id: Some("123".to_string()),
        title: "some_title".to_string(),
        description: "some_description".to_string(),
        end_height,
        end_time: None,
        cw20_whitelist,
    }
}

fn arbitrated_state() -> State {
    instantiate("arbitrate".to_string())
}

#[test]
fn happy_path_native() {
    let mut state = arbitrated_state();

    // create an escrow
    let create = base_create("foobar", Some("recd"), Some(123456), None);
    let sender = "source".to_string();
    let balance = vec![coin(100, "tokens")];
    let res = execute_create(&mut state, create.clone(), Balance::Native(balance.clone()), &sender);
    assert!(res.is_ok());

    // ensure the details are what we expect
    let details = query_details(&state.escrows, "foobar".to_string()).unwrap();
    assert_eq!(
        details,
        DetailsResponse {
            escrow_type: invoice_type(),
            recepient_email: None,
            source_telegram_id: Some("123".to_string()),
            recepient_telegram_id: Some("456".to_string()),
            id: "foobar".to_string(),
            recipient: Some(String::from("recd")),
            source: String::from("source"),
            title: "some_title".to_string(),
            description: "some_description".to_string(),
            end_height: Some(123456),
            end_time: None,
            native_balance: balance.clone(),
            cw20_balance: vec![],
            cw20_whitelist: vec![],
        }
    );

    // approve it
    let arbiter = "arbitrate".to_string();
    let res = execute_approve(
        &mut state,
        MOCK_HEIGHT,
        MOCK_TIME_NANOS,
        &arbiter,
        create.id.clone(),
    )
    .unwrap();
    assert_eq!(1, res.len());
    assert_eq!(
        res[0],
        TransferInstruction::Native {
            to_address: create.recipient.unwrap(),
            amount: balance,
        }
    );

    // second attempt fails (not found)
    let err = execute_approve(&mut state, MOCK_HEIGHT, MOCK_TIME_NANOS, &arbiter, create.id)
        .unwrap_err();
    assert!(matches!(err, ContractError::InvalidEscrow { .. }));
}

#[test]
fn happy_path_cw20() {
    let mut state = arbitrated_state();

    // create an escrow funded through a token-received notification
    let create = base_create(
        "foobar",
        Some("recd"),
        None,
        Some(vec![String::from("other-token")]),
    );
    let token_contract = String::from("my-cw20-token");
    let sender = "source".to_string();
    let res = execute_create(
        &mut state,
        create.clone(),
        Balance::Cw20(cw20(100, &token_contract)),
        &sender,
    );
    assert!(res.is_ok());

    // ensure the whitelist is what we expect
    let details = query_details(&state.escrows, "foobar".to_string()).unwrap();
    assert_eq!(
        details,
        DetailsResponse {
            id: "foobar".to_string(),
            escrow_type: invoice_type(),
            recepient_email: None,
            source_telegram_id: Some("123".to_string()),
            recepient_telegram_id: Some("456".to_string()),
            recipient: Some(String::from("recd")),
            source: String::from("source"),
            title: "some_title".to_string(),
            description: "some_description".to_string(),
            end_height: None,
            end_time: None,
            native_balance: vec![],
            cw20_balance: vec![cw20(100, "my-cw20-token")],
            cw20_whitelist: vec![String::from("other-token"), String::from("my-cw20-token")],
        }
    );

    // approve it
    let arbiter = "arbitrate".to_string();
    let res = execute_approve(
        &mut state,
        MOCK_HEIGHT,
        MOCK_TIME_NANOS,
        &arbiter,
        create.id.clone(),
    )
    .unwrap();
    assert_eq!(1, res.len());
    assert_eq!(
        res[0],
        TransferInstruction::Cw20 {
            contract_addr: token_contract,
            recipient: create.recipient.unwrap(),
            amount: 100,
        }
    );

    // second attempt fails (not found)
    let err = execute_approve(&mut state, MOCK_HEIGHT, MOCK_TIME_NANOS, &arbiter, create.id)
        .unwrap_err();
    assert!(matches!(err, ContractError::InvalidEscrow { .. }));
}

#[test]
fn set_recipient_after_creation() {
    let mut state = arbitrated_state();

    // create an escrow without a recipient
    let create = base_create("foobar", None, Some(123456), None);
    let sender = "source".to_string();
    let balance = vec![coin(100, "tokens")];
    let res = execute_create(&mut state, create.clone(), Balance::Native(balance.clone()), &sender);
    assert!(res.is_ok());

    // ensure the details are what we expect
    let details = query_details(&state.escrows, "foobar".to_string()).unwrap();
    assert_eq!(
        details,
        DetailsResponse {
            id: "foobar".to_string(),
            escrow_type: invoice_type(),
            recepient_email: None,
            source_telegram_id: Some("123".to_string()),
            recepient_telegram_id: Some("456".to_string()),
            recipient: None,
            source: String::from("source"),
            title: "some_title".to_string(),
            description: "some_description".to_string(),
            end_height: Some(123456),
            end_time: None,
            native_balance: balance.clone(),
            cw20_balance: vec![],
            cw20_whitelist: vec![],
        }
    );

    // approve it: should fail as no recipient is set
    let arbiter = "arbitrate".to_string();
    let res = execute_approve(
        &mut state,
        MOCK_HEIGHT,
        MOCK_TIME_NANOS,
        &arbiter,
        create.id.clone(),
    );
    match res {
        Err(ContractError::RecipientNotSet) => {}
        _ => panic!("Expect recipient not set error"),
    }

    // setting the recipient as someone who is not the arbiter fails
    let someone = "someoneelse".to_string();
    let res = execute_set_recipient(&mut state, &someone, create.id.clone(), "recp".to_string());
    match res {
        Err(ContractError::Unauthorized) => {}
        _ => panic!("Expect unauthorized error"),
    }

    // setting the recipient as the arbiter succeeds
    let res = execute_set_recipient(&mut state, &arbiter, create.id.clone(), "recp".to_string());
    assert!(res.is_ok());

    // approve now works, paying out to the new recipient
    let res = execute_approve(
        &mut state,
        MOCK_HEIGHT,
        MOCK_TIME_NANOS,
        &arbiter,
        create.id.clone(),
    )
    .unwrap();
    assert_eq!(1, res.len());
    assert_eq!(
        res[0],
        TransferInstruction::Native {
            to_address: "recp".to_string(),
            amount: balance,
        }
    );
}

#[test]
fn add_tokens_proper() {
    let mut tokens = GenericBalance::default();
    tokens.add_tokens(Balance::Native(vec![coin(123, "atom"), coin(789, "eth")]));
    tokens.add_tokens(Balance::Native(vec![coin(456, "atom"), coin(12, "btc")]));
    assert_eq!(
        tokens.native,
        vec![coin(579, "atom"), coin(789, "eth"), coin(12, "btc")]
    );
}

#[test]
fn add_cw_tokens_proper() {
    let mut tokens = GenericBalance::default();
    tokens.add_tokens(Balance::Cw20(cw20(12345, "foo_token")));
    tokens.add_tokens(Balance::Cw20(cw20(777, "bar_token")));
    tokens.add_tokens(Balance::Cw20(cw20(23400, "foo_token")));
    assert_eq!(
        tokens.cw20,
        vec![cw20(35745, "foo_token"), cw20(777, "bar_token")]
    );
}

#[test]
fn top_up_mixed_tokens() {
    let mut state = arbitrated_state();

    // only accept these tokens
    let whitelist = vec![String::from("bar_token"), String::from("foo_token")];

    // create an escrow with 2 native tokens
    let create = base_create("foobar", Some("recd"), None, Some(whitelist));
    let sender = "source".to_string();
    let balance = vec![coin(100, "fee"), coin(200, "stake")];
    let res = execute_create(&mut state, create.clone(), Balance::Native(balance), &sender);
    assert!(res.is_ok());

    // top it up with 2 more native tokens
    let extra_native = vec![coin(250, "random"), coin(300, "stake")];
    let res = execute_top_up(&mut state, create.id.clone(), Balance::Native(extra_native));
    assert!(res.is_ok());

    // top up with one foreign token
    let bar_token = String::from("bar_token");
    let res = execute_top_up(
        &mut state,
        create.id.clone(),
        Balance::Cw20(cw20(7890, &bar_token)),
    );
    assert!(res.is_ok());

    // top up with a foreign token not on the whitelist
    let baz_token = String::from("baz_token");
    let err = execute_top_up(
        &mut state,
        create.id.clone(),
        Balance::Cw20(cw20(7890, &baz_token)),
    )
    .unwrap_err();
    assert_eq!(err, ContractError::NotInWhitelist);

    // top up with the second foreign token
    let foo_token = String::from("foo_token");
    let res = execute_top_up(
        &mut state,
        create.id.clone(),
        Balance::Cw20(cw20(888, &foo_token)),
    );
    assert!(res.is_ok());

    // approve it
    let arbiter = "arbitrate".to_string();
    let res = execute_approve(
        &mut state,
        MOCK_HEIGHT,
        MOCK_TIME_NANOS,
        &arbiter,
        create.id.clone(),
    )
    .unwrap();
    assert_eq!(3, res.len());

    // first message releases all native coins
    assert_eq!(
        res[0],
        TransferInstruction::Native {
            to_address: create.recipient.clone().unwrap(),
            amount: vec![coin(100, "fee"), coin(500, "stake"), coin(250, "random")],
        }
    );

    // second one releases the bar token
    assert_eq!(
        res[1],
        TransferInstruction::Cw20 {
            contract_addr: bar_token,
            recipient: create.recipient.clone().unwrap(),
            amount: 7890,
        }
    );

    // third one releases the foo token
    assert_eq!(
        res[2],
        TransferInstruction::Cw20 {
            contract_addr: foo_token,
            recipient: create.recipient.unwrap(),
            amount: 888,
        }
    );
}

#[test]
fn create_rejects_empty_balance() {
    let mut state = arbitrated_state();
    let sender = "source".to_string();

    let create = base_create("foobar", Some("recd"), None, None);
    let err = execute_create(&mut state, create, Balance::Native(vec![]), &sender).unwrap_err();
    assert_eq!(err, ContractError::EmptyBalance);

    // a batch of zero-valued coins is just as empty
    let create = base_create("foobar", Some("recd"), None, None);
    let err = execute_create(
        &mut state,
        create,
        Balance::Native(vec![coin(0, "tokens")]),
        &sender,
    )
    .unwrap_err();
    assert_eq!(err, ContractError::EmptyBalance);

    let create = base_create("foobar", Some("recd"), None, None);
    let err =
        execute_create(&mut state, create, Balance::Cw20(cw20(0, "bar_token")), &sender).unwrap_err();
    assert_eq!(err, ContractError::EmptyBalance);
}

#[test]
fn create_rejects_duplicate_id() {
    let mut state = arbitrated_state();
    let sender = "source".to_string();

    let create = base_create("foobar", Some("recd"), None, None);
    let res = execute_create(
        &mut state,
        create,
        Balance::Native(vec![coin(100, "tokens")]),
        &sender,
    );
    assert!(res.is_ok());

    // the second create with the same id fails and the stored record is unchanged
    let other_sender = "random".to_string();
    let create = base_create("foobar", Some("recp"), None, None);
    let err = execute_create(
        &mut state,
        create,
        Balance::Native(vec![coin(5, "other")]),
        &other_sender,
    )
    .unwrap_err();
    assert_eq!(err, ContractError::AlreadyInUse);

    let details = query_details(&state.escrows, "foobar".to_string()).unwrap();
    assert_eq!(details.source, "source".to_string());
    assert_eq!(details.recipient, Some("recd".to_string()));
    assert_eq!(details.native_balance, vec![coin(100, "tokens")]);
}

#[test]
fn create_rejects_malformed_whitelist_entry() {
    let mut state = arbitrated_state();
    let sender = "source".to_string();

    // an uppercase letter makes the identity ill-formed
    let create = base_create("foobar", Some("recd"), None, Some(vec!["Bar_Token".to_string()]));
    let err = execute_create(
        &mut state,
        create,
        Balance::Native(vec![coin(100, "tokens")]),
        &sender,
    )
    .unwrap_err();
    assert_eq!(err, ContractError::InvalidIdentity);

    // so does a too-short one
    let create = base_create("foobar", Some("recd"), None, Some(vec!["ab".to_string()]));
    let err = execute_create(
        &mut state,
        create,
        Balance::Native(vec![coin(100, "tokens")]),
        &sender,
    )
    .unwrap_err();
    assert_eq!(err, ContractError::InvalidIdentity);
}

#[test]
fn set_recipient_rejects_malformed_identity() {
    let mut state = arbitrated_state();
    let sender = "source".to_string();
    let create = base_create("foobar", None, None, None);
    execute_create(
        &mut state,
        create,
        Balance::Native(vec![coin(100, "tokens")]),
        &sender,
    )
    .unwrap();

    let arbiter = "arbitrate".to_string();
    let err = execute_set_recipient(&mut state, &arbiter, "foobar".to_string(), "Recp".to_string())
        .unwrap_err();
    assert_eq!(err, ContractError::InvalidIdentity);
}

#[test]
fn top_up_rejects_absent_and_empty() {
    let mut state = arbitrated_state();
    let err = execute_top_up(
        &mut state,
        "missing".to_string(),
        Balance::Native(vec![coin(1, "tokens")]),
    )
    .unwrap_err();
    assert_eq!(
        err,
        ContractError::InvalidEscrow {
            id: "missing".to_string()
        }
    );

    let err = execute_top_up(&mut state, "missing".to_string(), Balance::Native(vec![]))
        .unwrap_err();
    assert_eq!(err, ContractError::EmptyBalance);
}

#[test]
fn refund_gated_by_expiry() {
    let mut state = arbitrated_state();
    let sender = "source".to_string();
    let create = base_create("foobar", None, Some(1000), None);
    execute_create(
        &mut state,
        create,
        Balance::Native(vec![coin(100, "tokens")]),
        &sender,
    )
    .unwrap();

    // a non-arbiter refund before expiry is unauthorized
    let anyone = "random".to_string();
    let err = execute_refund(&mut state, 999, 0, &anyone, "foobar".to_string()).unwrap_err();
    assert_eq!(err, ContractError::Unauthorized);

    // the same call after expiry succeeds and pays back the source
    let res = execute_refund(&mut state, 1001, 0, &anyone, "foobar".to_string()).unwrap();
    assert_eq!(1, res.len());
    assert_eq!(
        res[0],
        TransferInstruction::Native {
            to_address: "source".to_string(),
            amount: vec![coin(100, "tokens")],
        }
    );

    // a second refund finds nothing: the record is gone
    let err = execute_refund(&mut state, 1001, 0, &anyone, "foobar".to_string()).unwrap_err();
    assert_eq!(
        err,
        ContractError::InvalidEscrow {
            id: "foobar".to_string()
        }
    );
}

#[test]
fn refund_by_arbiter_any_time() {
    let mut state = arbitrated_state();
    let sender = "source".to_string();
    // no recipient is needed for a refund
    let create = base_create("foobar", None, Some(1000), None);
    execute_create(
        &mut state,
        create,
        Balance::Native(vec![coin(100, "tokens")]),
        &sender,
    )
    .unwrap();

    let arbiter = "arbitrate".to_string();
    let res = execute_refund(&mut state, 1, 0, &arbiter, "foobar".to_string()).unwrap();
    assert_eq!(1, res.len());
    assert_eq!(
        res[0],
        TransferInstruction::Native {
            to_address: "source".to_string(),
            amount: vec![coin(100, "tokens")],
        }
    );
}

#[test]
fn approve_rejects_expired_escrow() {
    let mut state = arbitrated_state();
    let sender = "source".to_string();
    let create = base_create("foobar", Some("recd"), Some(1000), None);
    execute_create(
        &mut state,
        create,
        Balance::Native(vec![coin(100, "tokens")]),
        &sender,
    )
    .unwrap();

    let arbiter = "arbitrate".to_string();
    let err = execute_approve(&mut state, 1001, 0, &arbiter, "foobar".to_string()).unwrap_err();
    assert_eq!(err, ContractError::Expired);
}

#[test]
fn scenario_invoice_lifecycle() {
    let mut state = arbitrated_state();
    let sender = "source".to_string();
    let arbiter = "arbitrate".to_string();

    let create = base_create("inv1", None, Some(1000), None);
    execute_create(
        &mut state,
        create,
        Balance::Native(vec![coin(100, "atom")]),
        &sender,
    )
    .unwrap();

    let details = query_details(&state.escrows, "inv1".to_string()).unwrap();
    assert_eq!(details.native_balance, vec![coin(100, "atom")]);

    // approve at height 1 with no recipient set
    let err = execute_approve(&mut state, 1, 0, &arbiter, "inv1".to_string()).unwrap_err();
    assert_eq!(err, ContractError::RecipientNotSet);

    // the arbiter names a recipient, then approves
    execute_set_recipient(&mut state, &arbiter, "inv1".to_string(), "bob".to_string()).unwrap();
    let res = execute_approve(&mut state, 1, 0, &arbiter, "inv1".to_string()).unwrap();
    assert_eq!(
        res,
        vec![TransferInstruction::Native {
            to_address: "bob".to_string(),
            amount: vec![coin(100, "atom")],
        }]
    );

    // the record is gone
    let err = query_details(&state.escrows, "inv1".to_string()).unwrap_err();
    assert_eq!(
        err,
        ContractError::NotFound {
            id: "inv1".to_string()
        }
    );
}

#[test]
fn scenario_token_whitelist() {
    let mut state = arbitrated_state();
    let sender = "source".to_string();

    // opening with a token appends its contract to the supplied whitelist
    let create = base_create("inv2", Some("recd"), None, Some(vec!["token2".to_string()]));
    execute_create(&mut state, create, Balance::Cw20(cw20(50, "token1")), &sender).unwrap();

    let details = query_details(&state.escrows, "inv2".to_string()).unwrap();
    assert_eq!(
        details.cw20_whitelist,
        vec!["token2".to_string(), "token1".to_string()]
    );

    let res = execute_top_up(&mut state, "inv2".to_string(), Balance::Cw20(cw20(30, "token2")));
    assert!(res.is_ok());

    let err = execute_top_up(&mut state, "inv2".to_string(), Balance::Cw20(cw20(5, "token3")))
        .unwrap_err();
    assert_eq!(err, ContractError::NotInWhitelist);
}

#[test]
fn list_all_ids_ascending() {
    let mut state = arbitrated_state();
    let sender = "source".to_string();
    for id in ["zen", "assign", "lazy"] {
        let create = base_create(id, Some("recd"), None, None);
        execute_create(
            &mut state,
            create,
            Balance::Native(vec![coin(1, "tokens")]),
            &sender,
        )
        .unwrap();
    }
    let listed = query_list(&state.escrows);
    assert_eq!(
        listed.escrows,
        vec!["assign".to_string(), "lazy".to_string(), "zen".to_string()]
    );
}

#[test]
fn conservation_independent_of_order() {
    // merging the same assets in two different orders yields the same amount
    // under every key (line order may differ)
    let batches = [
        vec![coin(123, "atom"), coin(789, "eth")],
        vec![coin(456, "atom"), coin(12, "btc")],
        vec![coin(1, "eth"), coin(2, "atom")],
    ];
    let mut forward = GenericBalance::default();
    for b in batches.iter() {
        forward.add_tokens(Balance::Native(b.clone()));
    }
    let mut backward = GenericBalance::default();
    for b in batches.iter().rev() {
        backward.add_tokens(Balance::Native(b.clone()));
    }
    for key in ["atom", "eth", "btc"] {
        let amount = |bal: &GenericBalance| -> u128 {
            bal.native
                .iter()
                .filter(|c| c.denom == key)
                .map(|c| c.amount)
                .sum()
        };
        assert_eq!(amount(&forward), amount(&backward));
    }
    assert_eq!(
        forward.native,
        vec![coin(581, "atom"), coin(790, "eth"), coin(12, "btc")]
    );
}

#[test]
fn create_rejects_malformed_recipient() {
    let mut state = arbitrated_state();
    let sender = "source".to_string();

    // an uppercase letter makes the supplied recipient ill-formed
    let create = base_create("foobar", Some("Recd"), None, None);
    let err = execute_create(
        &mut state,
        create,
        Balance::Native(vec![coin(100, "tokens")]),
        &sender,
    )
    .unwrap_err();
    assert_eq!(err, ContractError::InvalidIdentity);

    // nothing was stored
    let err = query_details(&state.escrows, "foobar".to_string()).unwrap_err();
    assert_eq!(
        err,
        ContractError::NotFound {
            id: "foobar".to_string()
        }
    );
}
