use payxpay_escrow::balance::{Balance, Coin, GenericBalance};
use payxpay_escrow::msg::{is_valid_identity, is_valid_name};
use payxpay_escrow::state::{
    normalize_string, query_all_escrow_ids, query_by_recepient_email,
    query_by_recepient_email_balance, query_by_telegram_id, query_by_telegram_id_balance, Escrow,
    EscrowStore, EscrowType, InvoiceAmount, TransferType,
};

fn dummy_escrow() -> Escrow {
    Escrow {
        escrow_type: EscrowType::Invoice {
            amount: InvoiceAmount {
                amount: "123".to_string(),
                currency: "USD".to_string(),
            },
        },
        arbiter: "arb".to_string(),
        recipient: Some("recip".to_string()),
        recepient_telegram_id: Some("receiver_id".to_string()),
        recepient_email: None,
        source: "source".to_string(),
        title: "some_escrow".to_string(),
        description: "some escrow desc".to_string(),
        end_height: None,
        end_time: None,
        balance: GenericBalance::default(),
        cw20_whitelist: vec![],
        source_telegram_id: Some("issuer_id".to_string()),
    }
}

fn blind_email_escrow(email: &str) -> Escrow {
    let mut escrow = dummy_escrow();
    escrow.escrow_type = EscrowType::BlindTransfer {
        transfer: TransferType::Email,
    };
    escrow.recepient_email = Some(email.to_string());
    escrow.balance.add_tokens(Balance::Native(vec![Coin {
        denom: "atom".to_string(),
        amount: 77,
    }]));
    escrow
}

fn blind_telegram_escrow(tg_id: &str) -> Escrow {
    let mut escrow = dummy_escrow();
    escrow.escrow_type = EscrowType::BlindTransfer {
        transfer: TransferType::Telegram,
    };
    escrow.recepient_telegram_id = Some(tg_id.to_string());
    escrow.balance.add_tokens(Balance::Native(vec![Coin {
        denom: "atom".to_string(),
        amount: 55,
    }]));
    escrow
}

#[test]
fn no_escrow_ids() {
    let store = EscrowStore::new();
    let ids = query_all_escrow_ids(&store);
    assert_eq!(0, ids.len());
}

#[test]
fn all_escrow_ids_in_order() {
    let mut store = EscrowStore::new();
    store.insert("lazy".to_string(), dummy_escrow());
    store.insert("assign".to_string(), dummy_escrow());
    store.insert("zen".to_string(), dummy_escrow());

    let ids = query_all_escrow_ids(&store);
    assert_eq!(3, ids.len());
    assert_eq!(
        vec!["assign".to_string(), "lazy".to_string(), "zen".to_string()],
        ids
    )
}

#[test]
fn find_by_email_normalizes_both_sides() {
    let mut store = EscrowStore::new();
    store.insert("blind1".to_string(), blind_email_escrow("bob@example.com"));

    // the lookup key is trimmed and lowercased before the index is ranged
    let found = query_by_recepient_email(&store, "  Bob@Example.com ");
    assert_eq!(1, found.len());
    assert_eq!(found[0].recepient_email, Some("bob@example.com".to_string()));

    let found = query_by_recepient_email(&store, "nobody@example.com");
    assert_eq!(0, found.len());

    // an input that normalizes to the empty key matches nothing
    let found = query_by_recepient_email(&store, "   ");
    assert_eq!(0, found.len());

    // the stored side is normalized on write as well
    store.insert("blind2".to_string(), blind_email_escrow(" CAROL@example.com"));
    let found = query_by_recepient_email(&store, "carol@example.com");
    assert_eq!(1, found.len());
}

#[test]
fn find_by_email_ignores_other_kinds() {
    let mut store = EscrowStore::new();
    // an invoice escrow is not indexed by its recipient email
    let mut invoice = dummy_escrow();
    invoice.recepient_email = Some("bob@example.com".to_string());
    store.insert("inv".to_string(), invoice);

    let found = query_by_recepient_email(&store, "bob@example.com");
    assert_eq!(0, found.len());

    // a telegram blind transfer is not indexed by email either
    store.insert("tg".to_string(), blind_telegram_escrow("tgid42"));
    let found = query_by_recepient_email(&store, "");
    assert_eq!(0, found.len());
}

#[test]
fn find_by_telegram_id_and_balances() {
    let mut store = EscrowStore::new();
    store.insert("blind1".to_string(), blind_telegram_escrow("TgId42"));
    store.insert("blind2".to_string(), blind_telegram_escrow("other"));

    let found = query_by_telegram_id(&store, " tgid42 ");
    assert_eq!(1, found.len());
    assert_eq!(found[0].recepient_telegram_id, Some("TgId42".to_string()));

    let balances = query_by_telegram_id_balance(&store, "TGID42");
    assert_eq!(1, balances.len());
    assert_eq!(balances[0].native_balance.len(), 1);
    assert_eq!(balances[0].native_balance[0].denom, "atom".to_string());
    assert_eq!(balances[0].native_balance[0].amount, 55);
    assert_eq!(balances[0].cw20_balance.len(), 0);
}

#[test]
fn find_by_email_balances() {
    let mut store = EscrowStore::new();
    store.insert("blind1".to_string(), blind_email_escrow("bob@example.com"));

    let balances = query_by_recepient_email_balance(&store, "BOB@EXAMPLE.COM");
    assert_eq!(1, balances.len());
    assert_eq!(balances[0].native_balance.len(), 1);
    assert_eq!(balances[0].native_balance[0].amount, 77);
}

#[test]
fn normalize_trims_and_lowercases() {
    assert_eq!(normalize_string("  AbC "), "abc".to_string());
    assert_eq!(normalize_string(""), "".to_string());
    assert_eq!(normalize_string("already"), "already".to_string());
}

#[test]
fn valid_names_are_uuid_shaped() {
    assert!(is_valid_name("123e4567-e89b-12d3-a456-426614174000"));
    assert!(!is_valid_name("too-short"));
}

#[test]
fn identity_validation() {
    assert!(is_valid_identity("recd"));
    assert!(is_valid_identity("my-cw20-token"));
    assert!(!is_valid_identity("ab"));
    assert!(!is_valid_identity("Recd"));
    let long = "a".repeat(55);
    assert!(!is_valid_identity(&long));
}
