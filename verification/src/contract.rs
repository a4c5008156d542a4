//! The lifecycle engine: validates and applies the five mutating operations
//! (create, top-up, set-recipient, approve, refund) and serves the read-only
//! queries.
//!
//! Every operation either fully commits or fully fails: each one is modeled
//! by a specification-level transition from the old state to either the new
//! state (with the transfer instructions it emits) or a typed error, and the
//! executable functions are proved to follow their transition exactly. The
//! transfer instructions are declarative outputs for the host to execute
//! after the state transition has committed.

use vstd::prelude::*;

use crate::balance::{
    add_line, amount_of, clone_coins, keys_unique, merge_lines, value_zero, Balance,
    BalanceLine, BalanceView, Coin, GenericBalance, GenericBalanceView,
};
use crate::error::{ContractError, ContractErrorView};
use crate::msg::{
    is_valid_identity, spec_valid_identity, valid_whitelist, CreateMsg, CreateMsgView,
    DetailsResponse, DetailsResponseView, ListResponse,
};
use crate::state::{
    contains_id, escrow_of, first_id_index, ids_of, insert_pos, spec_entry, spec_is_expired,
    store_sorted, Escrow, EscrowStore, EscrowView,
};
use crate::text::str_eq;
use crate::views_of;

verus! {

/// The engine state: the arbiter identity fixed once at initialization, and
/// the escrow record store.
pub struct State {
    pub arbiter: String,
    pub escrows: EscrowStore,
}

/// The model of the engine state.
pub struct StateView {
    pub arbiter: Seq<char>,
    pub escrows: Seq<crate::state::StoredEscrowView>,
}

impl View for State {
    type V = StateView;

    open spec fn view(&self) -> StateView {
        StateView { arbiter: self.arbiter@, escrows: self.escrows@ }
    }
}

/// A record's internal invariant: balance lines per key are never duplicated,
/// and a token's contract identity is in the whitelist once it has
/// contributed funds.
pub open spec fn escrow_wf(e: EscrowView) -> bool {
    &&& keys_unique(e.balance.native)
    &&& keys_unique(e.balance.cw20)
    &&& forall|i: int|
        0 <= i < e.balance.cw20.len() ==> e.cw20_whitelist.contains(
            #[trigger] e.balance.cw20[i].key,
        )
}

/// The state invariant: records stand in strictly ascending id order, each
/// carries exactly the index keys derived from its record, and every record
/// is well-formed.
pub open spec fn state_wf(st: StateView) -> bool {
    &&& store_sorted(st.escrows)
    &&& crate::state::entries_consistent(st.escrows)
    &&& forall|i: int| 0 <= i < st.escrows.len() ==> escrow_wf(#[trigger] st.escrows[i].escrow)
}

impl State {
    /// The state invariant.
    pub open spec fn wf(&self) -> bool {
        state_wf(self@)
    }
}

/// One-time bootstrap: the initializing caller is recorded as the arbiter,
/// immutable thereafter.
pub fn instantiate(sender: String) -> (st: State)
    ensures
        st@.arbiter == sender@,
        st@.escrows =~= Seq::<crate::state::StoredEscrowView>::empty(),
        st.wf(),
{
    State { arbiter: sender, escrows: EscrowStore::new() }
}

/// One declarative transfer instruction, executed by the host after the
/// state transition has committed.
#[derive(Debug, PartialEq, Eq)]
pub enum TransferInstruction {
    /// One combined payment of native coins.
    Native { to_address: String, amount: Vec<Coin> },
    /// One token transfer, to be carried out by the token's own contract.
    Cw20 { contract_addr: String, recipient: String, amount: u128 },
}

/// The model of a transfer instruction.
pub enum TransferInstructionView {
    Native { to_address: Seq<char>, amount: Seq<BalanceLine> },
    Cw20 { contract_addr: Seq<char>, recipient: Seq<char>, amount: nat },
}

impl View for TransferInstruction {
    type V = TransferInstructionView;

    open spec fn view(&self) -> TransferInstructionView {
        match self {
            TransferInstruction::Native { to_address, amount } => TransferInstructionView::Native {
                to_address: to_address@,
                amount: views_of(amount@),
            },
            TransferInstruction::Cw20 { contract_addr, recipient, amount } => {
                TransferInstructionView::Cw20 {
                    contract_addr: contract_addr@,
                    recipient: recipient@,
                    amount: *amount as nat,
                }
            },
        }
    }
}

/// The instructions that disburse a balance to one identity: the combined
/// native payment first, if any native line exists, then one token
/// instruction per token line, in line order.
pub open spec fn spec_send_tokens(to: Seq<char>, b: GenericBalanceView) -> Seq<
    TransferInstructionView,
> {
    (if b.native.len() == 0 {
        Seq::<TransferInstructionView>::empty()
    } else {
        seq![TransferInstructionView::Native { to_address: to, amount: b.native }]
    }) + b.cw20.map_values(
        |l: BalanceLine| TransferInstructionView::Cw20 {
            contract_addr: l.key,
            recipient: to,
            amount: l.amount,
        },
    )
}

/// Build the transfer instructions that disburse a balance to one identity.
fn send_tokens(to: &String, balance: &GenericBalance) -> (r: Vec<TransferInstruction>)
    ensures
        views_of(r@) == spec_send_tokens(to@, balance@),
{
    let ghost b = balance@;
    let mut msgs: Vec<TransferInstruction> = Vec::new();
    if balance.native.len() > 0 {
        msgs.push(
            TransferInstruction::Native {
                to_address: to.clone(),
                amount: clone_coins(&balance.native),
            },
        );
    }
    let ghost head = views_of(msgs@);
    proof {
        if b.native.len() == 0 {
            assert(head =~= Seq::<TransferInstructionView>::empty());
        } else {
            assert(head =~= seq![
                TransferInstructionView::Native { to_address: to@, amount: b.native },
            ]);
        }
    }
    let mut i: usize = 0;
    while i < balance.cw20.len()
        invariant
            0 <= i <= balance.cw20@.len(),
            b == balance@,
            b.cw20.len() == balance.cw20@.len(),
            forall|j: int|
                0 <= j < balance.cw20@.len() ==> b.cw20[j] == #[trigger] balance.cw20@[j]@,
            msgs@.len() == head.len() + i,
            forall|j: int| 0 <= j < head.len() ==> #[trigger] msgs@[j]@ == head[j],
            forall|j: int|
                head.len() <= j < msgs@.len() ==> #[trigger] msgs@[j]@
                    == (TransferInstructionView::Cw20 {
                    contract_addr: b.cw20[j - head.len()].key,
                    recipient: to@,
                    amount: b.cw20[j - head.len()].amount,
                }),
        decreases balance.cw20@.len() - i,
    {
        let c = &balance.cw20[i];
        msgs.push(
            TransferInstruction::Cw20 {
                contract_addr: c.address.clone(),
                recipient: to.clone(),
                amount: c.amount,
            },
        );
        i = i + 1;
    }
    proof {
        assert forall|j: int|
            0 <= j < msgs@.len() implies views_of(msgs@)[j] == spec_send_tokens(to@, b)[j] by {
            assert(views_of(msgs@)[j] == msgs@[j]@);
            if j >= head.len() {
                assert(msgs@[j]@ == (TransferInstructionView::Cw20 {
                    contract_addr: b.cw20[j - head.len()].key,
                    recipient: to@,
                    amount: b.cw20[j - head.len()].amount,
                }));
            }
        }
        assert(views_of(msgs@) =~= spec_send_tokens(to@, b));
    }
    msgs
}

/// Whether a list of identities holds one equal to the given identity.
fn contains_string(v: &Vec<String>, s: &String) -> (r: bool)
    ensures
        r == views_of(v@).contains(s@),
{
    let ghost names = views_of(v@);
    let mut i: usize = 0;
    while i < v.len()
        invariant
            0 <= i <= v@.len(),
            names == views_of(v@),
            names.len() == v@.len(),
            forall|j: int| 0 <= j < v@.len() ==> names[j] == #[trigger] v@[j]@,
            forall|j: int| 0 <= j < i ==> names[j] != s@,
        decreases v@.len() - i,
    {
        if str_eq(v[i].as_str(), s.as_str()) {
            proof {
                assert(names[i as int] == s@);
            }
            return true;
        }
        i = i + 1;
    }
    proof {
        if names.contains(s@) {
            let j = choose|j: int| 0 <= j < names.len() && names[j] == s@;
            assert(names[j] != s@);
        }
    }
    false
}


/// The whitelist an escrow opens with: the caller-supplied list, with the
/// opening asset's token contract appended if the asset is a token not
/// already listed.
pub open spec fn spec_create_whitelist(wl: Option<Seq<Seq<char>>>, bal: BalanceView) -> Seq<
    Seq<char>,
> {
    let base = match wl {
        Some(list) => list,
        None => Seq::<Seq<char>>::empty(),
    };
    match bal {
        BalanceView::Native(_) => base,
        BalanceView::Cw20(token) => if base.contains(token.key) {
            base
        } else {
            base.push(token.key)
        },
    }
}

/// The record a create opens: the attached asset becomes the balance, the
/// recipient is the supplied one (the transition has already required it to
/// be well-formed), and the arbiter is the one fixed at initialization.
pub open spec fn spec_created_escrow(
    arbiter: Seq<char>,
    msg: CreateMsgView,
    bal: BalanceView,
    sender: Seq<char>,
) -> EscrowView {
    EscrowView {
        escrow_type: msg.escrow_type,
        arbiter: arbiter,
        recipient: msg.recipient,
        recepient_email: msg.recepient_email,
        recepient_telegram_id: msg.recepient_telegram_id,
        source: sender,
        source_telegram_id: msg.source_telegram_id,
        title: msg.title,
        description: msg.description,
        end_height: msg.end_height,
        end_time: msg.end_time,
        balance: match bal {
            BalanceView::Native(lines) => GenericBalanceView {
                native: lines,
                cw20: Seq::<BalanceLine>::empty(),
            },
            BalanceView::Cw20(l) => GenericBalanceView {
                native: Seq::<BalanceLine>::empty(),
                cw20: seq![l],
            },
        },
        cw20_whitelist: spec_create_whitelist(msg.cw20_whitelist, bal),
    }
}

/// The create transition: fails EmptyBalance on an asset of zero total
/// value, InvalidIdentity on an ill-formed whitelist entry or an ill-formed
/// supplied recipient, AlreadyInUse on an id already present; otherwise the
/// new record is stored at its place in ascending id order, and nothing else
/// changes.
pub open spec fn spec_create(
    st: StateView,
    msg: CreateMsgView,
    bal: BalanceView,
    sender: Seq<char>,
) -> Result<StateView, ContractErrorView> {
    if value_zero(bal) {
        Err(ContractErrorView::EmptyBalance)
    } else if !valid_whitelist(msg.cw20_whitelist) {
        Err(ContractErrorView::InvalidIdentity)
    } else if msg.recipient matches Some(rv) && !spec_valid_identity(rv) {
        Err(ContractErrorView::InvalidIdentity)
    } else if contains_id(st.escrows, msg.id) {
        Err(ContractErrorView::AlreadyInUse)
    } else {
        Ok(
            StateView {
                arbiter: st.arbiter,
                escrows: st.escrows.insert(
                    insert_pos(st.escrows, msg.id),
                    spec_entry(msg.id, spec_created_escrow(st.arbiter, msg, bal, sender)),
                ),
            },
        )
    }
}

/// Open an escrow under a fresh id, holding the attached asset. A supplied
/// recipient must be a well-formed identity. The operation follows
/// `spec_create`: on failure no state changes; on success the record is
/// stored and no transfer instruction is emitted.
pub fn execute_create(
    state: &mut State,
    msg: CreateMsg,
    balance: Balance,
    sender: &String,
) -> (r: Result<(), ContractError>)
    requires
        old(state).wf(),
        balance matches Balance::Native(coins) ==> keys_unique(views_of(coins@)),
    ensures
        final(state).wf(),
        match spec_create(old(state)@, msg@, balance@, sender@) {
            Ok(stv) => r is Ok && final(state)@ == stv,
            Err(ev) => (r matches Err(e) && e@ == ev) && final(state)@ == old(state)@,
        },
{
    let ghost st0 = state@;
    let ghost msgv = msg@;
    let ghost balv = balance@;
    if balance.is_empty() {
        return Err(ContractError::EmptyBalance);
    }
    let mut cw20_whitelist = match msg.addr_whitelist() {
        Ok(v) => v,
        Err(e) => {
            return Err(e);
        },
    };
    if let Some(r) = &msg.recipient {
        if !is_valid_identity(r.as_str()) {
            return Err(ContractError::InvalidIdentity);
        }
    }
    let ghost wl_base = views_of(cw20_whitelist@);
    let escrow_balance = match balance {
        Balance::Native(coins) => GenericBalance { native: coins, cw20: Vec::new() },
        Balance::Cw20(token) => {
            let ghost line = token@;
            if !contains_string(&cw20_whitelist, &token.address) {
                cw20_whitelist.push(token.address.clone());
                proof {
                    assert(views_of(cw20_whitelist@) =~= wl_base.push(line.key));
                }
            }
            let mut v: Vec<crate::balance::Cw20Coin> = Vec::new();
            v.push(token);
            proof {
                assert(views_of(v@) =~= seq![line]);
            }
            GenericBalance { native: Vec::new(), cw20: v }
        },
    };
    proof {
        assert(views_of(Seq::<Coin>::empty()) =~= Seq::<BalanceLine>::empty());
        assert(views_of(Seq::<crate::balance::Cw20Coin>::empty()) =~= Seq::<
            BalanceLine,
        >::empty());
        assert(escrow_balance@ == spec_created_escrow(st0.arbiter, msgv, balv, sender@).balance);
        assert(views_of(cw20_whitelist@) == spec_create_whitelist(msgv.cw20_whitelist, balv));
    }
    let CreateMsg {
        id,
        escrow_type,
        recipient,
        recepient_email,
        recepient_telegram_id,
        source_telegram_id,
        title,
        description,
        end_height,
        end_time,
        cw20_whitelist: _,
    } = msg;
    let escrow = Escrow {
        escrow_type,
        arbiter: state.arbiter.clone(),
        recipient,
        recepient_email,
        recepient_telegram_id,
        source: sender.clone(),
        source_telegram_id,
        title,
        description,
        end_height,
        end_time,
        balance: escrow_balance,
        cw20_whitelist,
    };
    proof {
        assert(escrow@ == spec_created_escrow(st0.arbiter, msgv, balv, sender@));
    }
    if state.escrows.has(id.as_str()) {
        return Err(ContractError::AlreadyInUse);
    }
    let ghost ev = escrow@;
    proof {
        assert(escrow_wf(ev)) by {
            match balv {
                BalanceView::Native(lines) => {
                    assert(keys_unique(ev.balance.native));
                },
                BalanceView::Cw20(l) => {
                    let wl = ev.cw20_whitelist;
                    assert(ev.balance.cw20 =~= seq![l]);
                    assert(wl.contains(l.key)) by {
                        let base = spec_create_whitelist(msgv.cw20_whitelist, balv);
                        if !(match msgv.cw20_whitelist {
                            Some(list) => list,
                            None => Seq::<Seq<char>>::empty(),
                        }).contains(l.key) {
                            assert(base.last() == l.key);
                        }
                    }
                },
            }
        }
    }
    state.escrows.insert(id, escrow);
    proof {
        let stv = spec_create(st0, msgv, balv, sender@)->Ok_0;
        assert(state@.escrows == stv.escrows);
        assert(state@ == stv);
        let p = insert_pos(st0.escrows, msgv.id);
        crate::state::lemma_insert_pos(st0.escrows, msgv.id);
        st0.escrows.insert_ensures(p, spec_entry(msgv.id, ev));
        assert forall|i: int|
            0 <= i < state@.escrows.len() implies escrow_wf(
            #[trigger] state@.escrows[i].escrow,
        ) by {
            if i < p {
                assert(state@.escrows[i] == st0.escrows[i]);
            } else if i > p {
                assert(state@.escrows[i] == st0.escrows[i - 1]);
            } else {
                assert(state@.escrows[i] == spec_entry(msgv.id, ev));
            }
        }
    }
    Ok(())
}


/// A balance after an incoming asset is merged into it.
pub open spec fn spec_merged_balance(b: GenericBalanceView, bal: BalanceView) -> GenericBalanceView {
    match bal {
        BalanceView::Native(lines) => GenericBalanceView {
            native: merge_lines(b.native, lines),
            cw20: b.cw20,
        },
        BalanceView::Cw20(l) => GenericBalanceView { native: b.native, cw20: add_line(b.cw20, l) },
    }
}

/// The top-up transition: fails EmptyBalance on an asset of zero total
/// value, InvalidEscrow on an absent id, NotInWhitelist on a token whose
/// contract is not already whitelisted; otherwise merges the asset into the
/// escrow's balance and changes nothing else. Any caller may top up.
pub open spec fn spec_top_up(st: StateView, id: Seq<char>, bal: BalanceView) -> Result<
    StateView,
    ContractErrorView,
> {
    if value_zero(bal) {
        Err(ContractErrorView::EmptyBalance)
    } else if !contains_id(st.escrows, id) {
        Err(ContractErrorView::InvalidEscrow { id })
    } else {
        let e = escrow_of(st.escrows, id);
        if bal matches BalanceView::Cw20(token) && !e.cw20_whitelist.contains(token.key) {
            Err(ContractErrorView::NotInWhitelist)
        } else {
            Ok(
                StateView {
                    arbiter: st.arbiter,
                    escrows: st.escrows.update(
                        first_id_index(st.escrows, id),
                        spec_entry(
                            id,
                            EscrowView { balance: spec_merged_balance(e.balance, bal), ..e },
                        ),
                    ),
                },
            )
        }
    }
}

/// Top up an open escrow with an attached asset. The operation follows
/// `spec_top_up`: on failure no state changes; afterwards the amount held
/// under each key is the amount held before plus the amount submitted.
pub fn execute_top_up(state: &mut State, id: String, balance: Balance) -> (r: Result<
    (),
    ContractError,
>)
    requires
        old(state).wf(),
        contains_id(old(state)@.escrows, id@) ==> match balance {
            Balance::Native(coins) => forall|k: Seq<char>|
                amount_of(escrow_of(old(state)@.escrows, id@).balance.native, k) + amount_of(
                    views_of(coins@),
                    k,
                ) <= u128::MAX,
            Balance::Cw20(token) => amount_of(
                escrow_of(old(state)@.escrows, id@).balance.cw20,
                token.address@,
            ) + token.amount <= u128::MAX,
        },
    ensures
        final(state).wf(),
        match spec_top_up(old(state)@, id@, balance@) {
            Ok(stv) => r is Ok && final(state)@ == stv,
            Err(ev) => (r matches Err(e) && e@ == ev) && final(state)@ == old(state)@,
        },
{
    let ghost st0 = state@;
    let ghost balv = balance@;
    if balance.is_empty() {
        return Err(ContractError::EmptyBalance);
    }
    let mut escrow: Escrow = match state.escrows.may_load(id.as_str()) {
        None => {
            return Err(ContractError::InvalidEscrow { id });
        },
        Some(e) => e.clone(),
    };
    let ghost e0 = escrow@;
    let ghost idx = first_id_index(st0.escrows, id@);
    proof {
        crate::state::lemma_first_id_index(st0.escrows, id@);
        assert(st0.escrows[idx].escrow == e0);
        assert(escrow_wf(e0));
    }
    if let Balance::Cw20(token) = &balance {
        if !contains_string(&escrow.cw20_whitelist, &token.address) {
            return Err(ContractError::NotInWhitelist);
        }
    }
    escrow.balance.add_tokens(balance);
    let ghost e1 = escrow@;
    proof {
        assert(e1 == EscrowView { balance: spec_merged_balance(e0.balance, balv), ..e0 });
        assert(escrow_wf(e1)) by {
            match balv {
                BalanceView::Native(lines) => {
                    crate::balance::lemma_merge_lines_unique(e0.balance.native, lines);
                },
                BalanceView::Cw20(l) => {
                    crate::balance::lemma_add_line_unique(e0.balance.cw20, l);
                    assert(e1.balance.cw20 == add_line(e0.balance.cw20, l));
                    if crate::balance::has_key(e0.balance.cw20, l.key) {
                        crate::balance::lemma_first_key_index(e0.balance.cw20, l.key);
                        let fi = crate::balance::first_key_index(e0.balance.cw20, l.key);
                        assert forall|i: int|
                            0 <= i < e1.balance.cw20.len() implies e1.cw20_whitelist.contains(
                            #[trigger] e1.balance.cw20[i].key,
                        ) by {
                            assert(e1.balance.cw20[i].key == e0.balance.cw20[i].key);
                        }
                    } else {
                        assert forall|i: int|
                            0 <= i < e1.balance.cw20.len() implies e1.cw20_whitelist.contains(
                            #[trigger] e1.balance.cw20[i].key,
                        ) by {
                            if i < e0.balance.cw20.len() {
                                assert(e1.balance.cw20[i] == e0.balance.cw20[i]);
                            } else {
                                assert(e1.balance.cw20[i] == l);
                            }
                        }
                    }
                },
            }
        }
    }
    state.escrows.save(id, escrow);
    proof {
        assert forall|i: int|
            0 <= i < state@.escrows.len() implies escrow_wf(
            #[trigger] state@.escrows[i].escrow,
        ) by {
            if i != idx {
                assert(state@.escrows[i] == st0.escrows[i]);
            }
        }
        let stv = spec_top_up(st0, id@, balv)->Ok_0;
        assert(state@ == stv);
    }
    Ok(())
}

/// The set-recipient transition: fails InvalidEscrow on an absent id,
/// Unauthorized unless the caller is the escrow's arbiter, InvalidIdentity
/// on an ill-formed recipient; otherwise overwrites the recipient (possibly
/// replacing a prior one) and changes nothing else.
pub open spec fn spec_set_recipient(
    st: StateView,
    caller: Seq<char>,
    id: Seq<char>,
    recipient: Seq<char>,
) -> Result<StateView, ContractErrorView> {
    if !contains_id(st.escrows, id) {
        Err(ContractErrorView::InvalidEscrow { id })
    } else {
        let e = escrow_of(st.escrows, id);
        if caller != e.arbiter {
            Err(ContractErrorView::Unauthorized)
        } else if !spec_valid_identity(recipient) {
            Err(ContractErrorView::InvalidIdentity)
        } else {
            Ok(
                StateView {
                    arbiter: st.arbiter,
                    escrows: st.escrows.update(
                        first_id_index(st.escrows, id),
                        spec_entry(id, EscrowView { recipient: Some(recipient), ..e }),
                    ),
                },
            )
        }
    }
}

/// Set an open escrow's recipient. Only the arbiter may do this; the
/// operation follows `spec_set_recipient`.
pub fn execute_set_recipient(
    state: &mut State,
    caller: &String,
    id: String,
    recipient: String,
) -> (r: Result<(), ContractError>)
    requires
        old(state).wf(),
    ensures
        final(state).wf(),
        match spec_set_recipient(old(state)@, caller@, id@, recipient@) {
            Ok(stv) => r is Ok && final(state)@ == stv,
            Err(ev) => (r matches Err(e) && e@ == ev) && final(state)@ == old(state)@,
        },
{
    let ghost st0 = state@;
    let mut escrow: Escrow = match state.escrows.may_load(id.as_str()) {
        None => {
            return Err(ContractError::InvalidEscrow { id });
        },
        Some(e) => e.clone(),
    };
    let ghost e0 = escrow@;
    let ghost idx = first_id_index(st0.escrows, id@);
    proof {
        crate::state::lemma_first_id_index(st0.escrows, id@);
        assert(st0.escrows[idx].escrow == e0);
        assert(escrow_wf(e0));
    }
    if !str_eq(caller.as_str(), escrow.arbiter.as_str()) {
        return Err(ContractError::Unauthorized);
    }
    if !is_valid_identity(recipient.as_str()) {
        return Err(ContractError::InvalidIdentity);
    }
    escrow.recipient = Some(recipient);
    proof {
        assert(escrow@ == EscrowView { recipient: Some(recipient@), ..e0 });
        assert(escrow_wf(escrow@));
    }
    state.escrows.save(id, escrow);
    proof {
        assert forall|i: int|
            0 <= i < state@.escrows.len() implies escrow_wf(
            #[trigger] state@.escrows[i].escrow,
        ) by {
            if i != idx {
                assert(state@.escrows[i] == st0.escrows[i]);
            }
        }
        let stv = spec_set_recipient(st0, caller@, id@, recipient@)->Ok_0;
        assert(state@ == stv);
    }
    Ok(())
}


/// The approve transition: fails InvalidEscrow on an absent id, Unauthorized
/// unless the caller is the escrow's arbiter, Expired once the current
/// height or time has passed the escrow's end, RecipientNotSet while no
/// recipient is set; otherwise the record is removed and the whole balance
/// is disbursed to the recipient, the combined native payment first, then
/// one token instruction per line in line order. Removal happens before any
/// instruction is produced.
pub open spec fn spec_approve(
    st: StateView,
    caller: Seq<char>,
    id: Seq<char>,
    height: u64,
    time_nanos: u64,
) -> Result<(StateView, Seq<TransferInstructionView>), ContractErrorView> {
    if !contains_id(st.escrows, id) {
        Err(ContractErrorView::InvalidEscrow { id })
    } else {
        let e = escrow_of(st.escrows, id);
        if caller != e.arbiter {
            Err(ContractErrorView::Unauthorized)
        } else if spec_is_expired(e, height, time_nanos) {
            Err(ContractErrorView::Expired)
        } else {
            match e.recipient {
                None => Err(ContractErrorView::RecipientNotSet),
                Some(rcpt) => Ok(
                    (
                        StateView {
                            arbiter: st.arbiter,
                            escrows: st.escrows.remove(first_id_index(st.escrows, id)),
                        },
                        spec_send_tokens(rcpt, e.balance),
                    ),
                ),
            }
        }
    }
}

/// Approve an open escrow, releasing its funds to the recipient. Only the
/// arbiter may do this, only before expiry, and only once a recipient is
/// set; the operation follows `spec_approve`.
pub fn execute_approve(
    state: &mut State,
    height: u64,
    time_nanos: u64,
    caller: &String,
    id: String,
) -> (r: Result<Vec<TransferInstruction>, ContractError>)
    requires
        old(state).wf(),
    ensures
        final(state).wf(),
        match spec_approve(old(state)@, caller@, id@, height, time_nanos) {
            Ok((stv, msgs)) => (r matches Ok(v) && views_of(v@) == msgs) && final(state)@ == stv,
            Err(ev) => (r matches Err(e) && e@ == ev) && final(state)@ == old(state)@,
        },
{
    let ghost st0 = state@;
    let escrow: Escrow = match state.escrows.may_load(id.as_str()) {
        None => {
            return Err(ContractError::InvalidEscrow { id });
        },
        Some(e) => e.clone(),
    };
    let ghost e0 = escrow@;
    let ghost idx = first_id_index(st0.escrows, id@);
    proof {
        crate::state::lemma_first_id_index(st0.escrows, id@);
        assert(st0.escrows[idx].escrow == e0);
    }
    if !str_eq(caller.as_str(), escrow.arbiter.as_str()) {
        return Err(ContractError::Unauthorized);
    }
    if escrow.is_expired(height, time_nanos) {
        return Err(ContractError::Expired);
    }
    let recipient: String = match escrow.recipient {
        None => {
            return Err(ContractError::RecipientNotSet);
        },
        Some(r) => r,
    };
    state.escrows.remove(id.as_str());
    let messages = send_tokens(&recipient, &escrow.balance);
    proof {
        assert forall|i: int|
            0 <= i < state@.escrows.len() implies escrow_wf(
            #[trigger] state@.escrows[i].escrow,
        ) by {
            st0.escrows.remove_ensures(idx);
            if i < idx {
                assert(state@.escrows[i] == st0.escrows[i]);
            } else {
                assert(state@.escrows[i] == st0.escrows[i + 1]);
            }
        }
        let stv = spec_approve(st0, caller@, id@, height, time_nanos)->Ok_0.0;
        assert(state@ == stv);
    }
    Ok(messages)
}

/// The refund transition: fails InvalidEscrow on an absent id, and
/// Unauthorized unless the escrow is expired or the caller is the arbiter —
/// the arbiter may refund at any time, anyone else only after expiry.
/// Otherwise the record is removed and the whole balance is disbursed back
/// to the source, in the same instruction shape as an approval. No recipient
/// check is made: refund is independent of recipient state.
pub open spec fn spec_refund(
    st: StateView,
    caller: Seq<char>,
    id: Seq<char>,
    height: u64,
    time_nanos: u64,
) -> Result<(StateView, Seq<TransferInstructionView>), ContractErrorView> {
    if !contains_id(st.escrows, id) {
        Err(ContractErrorView::InvalidEscrow { id })
    } else {
        let e = escrow_of(st.escrows, id);
        if !spec_is_expired(e, height, time_nanos) && caller != e.arbiter {
            Err(ContractErrorView::Unauthorized)
        } else {
            Ok(
                (
                    StateView {
                        arbiter: st.arbiter,
                        escrows: st.escrows.remove(first_id_index(st.escrows, id)),
                    },
                    spec_send_tokens(e.source, e.balance),
                ),
            )
        }
    }
}

/// Refund an open escrow, returning its funds to the source. The arbiter may
/// do this at any time; anyone else only after expiry. The operation follows
/// `spec_refund`.
pub fn execute_refund(
    state: &mut State,
    height: u64,
    time_nanos: u64,
    caller: &String,
    id: String,
) -> (r: Result<Vec<TransferInstruction>, ContractError>)
    requires
        old(state).wf(),
    ensures
        final(state).wf(),
        match spec_refund(old(state)@, caller@, id@, height, time_nanos) {
            Ok((stv, msgs)) => (r matches Ok(v) && views_of(v@) == msgs) && final(state)@ == stv,
            Err(ev) => (r matches Err(e) && e@ == ev) && final(state)@ == old(state)@,
        },
{
    let ghost st0 = state@;
    let escrow: Escrow = match state.escrows.may_load(id.as_str()) {
        None => {
            return Err(ContractError::InvalidEscrow { id });
        },
        Some(e) => e.clone(),
    };
    let ghost e0 = escrow@;
    let ghost idx = first_id_index(st0.escrows, id@);
    proof {
        crate::state::lemma_first_id_index(st0.escrows, id@);
        assert(st0.escrows[idx].escrow == e0);
    }
    if !escrow.is_expired(height, time_nanos) && !str_eq(caller.as_str(), escrow.arbiter.as_str())
    {
        return Err(ContractError::Unauthorized);
    }
    state.escrows.remove(id.as_str());
    let messages = send_tokens(&escrow.source, &escrow.balance);
    proof {
        assert forall|i: int|
            0 <= i < state@.escrows.len() implies escrow_wf(
            #[trigger] state@.escrows[i].escrow,
        ) by {
            st0.escrows.remove_ensures(idx);
            if i < idx {
                assert(state@.escrows[i] == st0.escrows[i]);
            } else {
                assert(state@.escrows[i] == st0.escrows[i + 1]);
            }
        }
        let stv = spec_refund(st0, caller@, id@, height, time_nanos)->Ok_0.0;
        assert(state@ == stv);
    }
    Ok(messages)
}

/// The full snapshot a Details query returns for an open escrow.
pub open spec fn spec_details(v: Seq<crate::state::StoredEscrowView>, id: Seq<char>) -> DetailsResponseView {
    let e = escrow_of(v, id);
    DetailsResponseView {
        escrow_type: e.escrow_type,
        id: id,
        recipient: e.recipient,
        recepient_email: e.recepient_email,
        recepient_telegram_id: e.recepient_telegram_id,
        source: e.source,
        source_telegram_id: e.source_telegram_id,
        title: e.title,
        description: e.description,
        end_height: e.end_height,
        end_time: e.end_time,
        balance: e.balance,
        cw20_whitelist: e.cw20_whitelist,
    }
}

/// The details of one escrow: a full snapshot, or NotFound if the id holds
/// no open escrow.
pub fn query_details(store: &EscrowStore, id: String) -> (r: Result<DetailsResponse, ContractError>)
    ensures
        contains_id(store@, id@) ==> (r matches Ok(d) && d@ == spec_details(store@, id@)),
        !contains_id(store@, id@) ==> (r matches Err(e) && e@ == (ContractErrorView::NotFound {
            id: id@,
        })),
{
    let escrow: &Escrow = match store.may_load(id.as_str()) {
        None => {
            return Err(ContractError::NotFound { id });
        },
        Some(e) => e,
    };
    let details = DetailsResponse {
        escrow_type: escrow.escrow_type.clone(),
        id,
        recipient: crate::state::clone_opt_string(&escrow.recipient),
        recepient_email: crate::state::clone_opt_string(&escrow.recepient_email),
        recepient_telegram_id: crate::state::clone_opt_string(&escrow.recepient_telegram_id),
        source: escrow.source.clone(),
        source_telegram_id: crate::state::clone_opt_string(&escrow.source_telegram_id),
        title: escrow.title.clone(),
        description: escrow.description.clone(),
        end_height: escrow.end_height,
        end_time: escrow.end_time,
        native_balance: clone_coins(&escrow.balance.native),
        cw20_balance: crate::balance::clone_cw20s(&escrow.balance.cw20),
        cw20_whitelist: escrow.human_whitelist(),
    };
    proof {
        assert(details@ == spec_details(store@, details.id@));
    }
    Ok(details)
}

/// All open escrow ids, ascending.
pub fn query_list(store: &EscrowStore) -> (r: ListResponse)
    ensures
        views_of(r.escrows@) == ids_of(store@),
{
    ListResponse { escrows: crate::state::query_all_escrow_ids(store) }
}



/// The native amount a sequence of assets submits under a key.
pub open spec fn submitted_native(assets: Seq<BalanceView>, key: Seq<char>) -> int
    decreases assets.len(),
{
    if assets.len() == 0 {
        0
    } else {
        (match assets[0] {
            BalanceView::Native(lines) => amount_of(lines, key),
            BalanceView::Cw20(_) => 0,
        }) + submitted_native(assets.skip(1), key)
    }
}

/// The token amount a sequence of assets submits under a contract identity.
pub open spec fn submitted_cw20(assets: Seq<BalanceView>, key: Seq<char>) -> int
    decreases assets.len(),
{
    if assets.len() == 0 {
        0
    } else {
        (match assets[0] {
            BalanceView::Native(_) => 0,
            BalanceView::Cw20(l) => if l.key == key {
                l.amount as int
            } else {
                0
            },
        }) + submitted_cw20(assets.skip(1), key)
    }
}

/// The state after a sequence of top-ups of one escrow, applied in order;
/// the first failure, if any, is the result.
pub open spec fn apply_top_ups(st: StateView, id: Seq<char>, assets: Seq<BalanceView>) -> Result<
    StateView,
    ContractErrorView,
>
    decreases assets.len(),
{
    if assets.len() == 0 {
        Ok(st)
    } else {
        match spec_top_up(st, id, assets[0]) {
            Ok(st2) => apply_top_ups(st2, id, assets.skip(1)),
            Err(e) => Err(e),
        }
    }
}

/// One successful top-up touches only the named escrow's balance: the record
/// keeps its place and all its other fields, every other record is
/// unchanged, and the store stays sorted.
pub proof fn lemma_top_up_step(st: StateView, id: Seq<char>, bal: BalanceView)
    requires
        store_sorted(st.escrows),
        spec_top_up(st, id, bal) is Ok,
    ensures
        ({
            let st2 = spec_top_up(st, id, bal)->Ok_0;
            let idx = first_id_index(st.escrows, id);
            &&& contains_id(st.escrows, id)
            &&& st2.arbiter == st.arbiter
            &&& st2.escrows.len() == st.escrows.len()
            &&& contains_id(st2.escrows, id)
            &&& first_id_index(st2.escrows, id) == idx
            &&& forall|j: int|
                0 <= j < st.escrows.len() && j != idx ==> st2.escrows[j] == st.escrows[j]
            &&& store_sorted(st2.escrows)
            &&& escrow_of(st2.escrows, id) == (EscrowView {
                balance: spec_merged_balance(escrow_of(st.escrows, id).balance, bal),
                ..escrow_of(st.escrows, id)
            })
        }),
{
    let st2 = spec_top_up(st, id, bal)->Ok_0;
    let idx = first_id_index(st.escrows, id);
    crate::state::lemma_first_id_index(st.escrows, id);
    let e2 = EscrowView {
        balance: spec_merged_balance(escrow_of(st.escrows, id).balance, bal),
        ..escrow_of(st.escrows, id)
    };
    assert(st2.escrows == st.escrows.update(idx, spec_entry(id, e2)));
    assert(st2.escrows[idx].id == id);
    assert forall|j: int| 0 <= j < idx implies st2.escrows[j].id != id by {
        assert(st2.escrows[j] == st.escrows[j]);
    }
    crate::state::lemma_first_id_index_char(st2.escrows, id, idx);
    assert forall|a: int, b: int|
        0 <= a < b < st2.escrows.len() implies crate::text::lex_lt(
        st2.escrows[a].id,
        st2.escrows[b].id,
    ) by {
        assert(st2.escrows[a].id == st.escrows[a].id);
        assert(st2.escrows[b].id == st.escrows[b].id);
    }
    assert(escrow_of(st2.escrows, id) == e2);
}

/// Conservation at the state level: after any sequence of successful
/// top-ups of one escrow, the amount it holds under every key equals the
/// amount it held before plus the sum of all amounts submitted under that
/// key, the record keeps all its other fields, and no other record changes.
pub proof fn lemma_top_up_conservation(
    st: StateView,
    id: Seq<char>,
    assets: Seq<BalanceView>,
    key: Seq<char>,
)
    requires
        store_sorted(st.escrows),
        contains_id(st.escrows, id),
        apply_top_ups(st, id, assets) is Ok,
    ensures
        ({
            let st2 = apply_top_ups(st, id, assets)->Ok_0;
            let idx = first_id_index(st.escrows, id);
            &&& st2.arbiter == st.arbiter
            &&& st2.escrows.len() == st.escrows.len()
            &&& contains_id(st2.escrows, id)
            &&& first_id_index(st2.escrows, id) == idx
            &&& forall|j: int|
                0 <= j < st.escrows.len() && j != idx ==> st2.escrows[j] == st.escrows[j]
            &&& store_sorted(st2.escrows)
            &&& escrow_of(st2.escrows, id) == (EscrowView {
                balance: escrow_of(st2.escrows, id).balance,
                ..escrow_of(st.escrows, id)
            })
            &&& amount_of(escrow_of(st2.escrows, id).balance.native, key) == amount_of(
                escrow_of(st.escrows, id).balance.native,
                key,
            ) + submitted_native(assets, key)
            &&& amount_of(escrow_of(st2.escrows, id).balance.cw20, key) == amount_of(
                escrow_of(st.escrows, id).balance.cw20,
                key,
            ) + submitted_cw20(assets, key)
        }),
    decreases assets.len(),
{
    crate::state::lemma_first_id_index(st.escrows, id);
    if assets.len() == 0 {
        let e0 = escrow_of(st.escrows, id);
        assert(escrow_of(st.escrows, id) == (EscrowView { balance: e0.balance, ..e0 }));
    } else {
        let st1 = spec_top_up(st, id, assets[0])->Ok_0;
        lemma_top_up_step(st, id, assets[0]);
        let e0 = escrow_of(st.escrows, id);
        let e1 = escrow_of(st1.escrows, id);
        match assets[0] {
            BalanceView::Native(lines) => {
                crate::balance::lemma_merge_lines_amount(e0.balance.native, lines, key);
            },
            BalanceView::Cw20(l) => {
                crate::balance::lemma_add_line_amount(e0.balance.cw20, l, key);
            },
        }
        lemma_top_up_conservation(st1, id, assets.skip(1), key);
        let st2 = apply_top_ups(st1, id, assets.skip(1))->Ok_0;
        let e2 = escrow_of(st2.escrows, id);
        assert(e2 == (EscrowView { balance: e2.balance, ..e0 }));
        let idx = first_id_index(st.escrows, id);
        assert forall|j: int|
            0 <= j < st.escrows.len() && j != idx implies st2.escrows[j] == st.escrows[j] by {
            assert(st1.escrows[j] == st.escrows[j]);
        }
    }
}

/// Removing one asset from a sequence removes exactly its contribution from
/// the submitted totals.
proof fn lemma_submitted_remove(assets: Seq<BalanceView>, j: int, key: Seq<char>)
    requires
        0 <= j < assets.len(),
    ensures
        submitted_native(assets, key) == submitted_native(assets.remove(j), key) + (
        match assets[j] {
            BalanceView::Native(lines) => amount_of(lines, key),
            BalanceView::Cw20(_) => 0,
        }),
        submitted_cw20(assets, key) == submitted_cw20(assets.remove(j), key) + (match assets[j] {
            BalanceView::Native(_) => 0,
            BalanceView::Cw20(l) => if l.key == key {
                l.amount as int
            } else {
                0
            },
        }),
    decreases assets.len(),
{
    if j == 0 {
        assert(assets.remove(0) =~= assets.skip(1));
    } else {
        assert(assets.remove(j).skip(1) =~= assets.skip(1).remove(j - 1));
        assert(assets.remove(j)[0] == assets[0]);
        assert(assets.skip(1)[j - 1] == assets[j]);
        lemma_submitted_remove(assets.skip(1), j - 1, key);
    }
}

/// The submitted totals do not depend on the order the assets came in.
pub proof fn lemma_submitted_permutation(
    a1: Seq<BalanceView>,
    a2: Seq<BalanceView>,
    key: Seq<char>,
)
    requires
        a1.to_multiset() == a2.to_multiset(),
    ensures
        submitted_native(a1, key) == submitted_native(a2, key),
        submitted_cw20(a1, key) == submitted_cw20(a2, key),
    decreases a1.len(),
{
    a1.to_multiset_ensures();
    a2.to_multiset_ensures();
    if a1.len() == 0 {
        assert(a2.len() == 0);
    } else {
        let x = a1[0];
        assert(a1.contains(x));
        assert(a1.to_multiset().count(x) > 0);
        assert(a2.contains(x));
        let j = choose|j: int| 0 <= j < a2.len() && a2[j] == x;
        assert(a1.remove(0).to_multiset() == a1.to_multiset().remove(x));
        assert(a2.remove(j).to_multiset() == a2.to_multiset().remove(x));
        lemma_submitted_permutation(a1.remove(0), a2.remove(j), key);
        lemma_submitted_remove(a1, 0, key);
        lemma_submitted_remove(a2, j, key);
    }
}

/// Order-independence at the state level: two sequences made of the same
/// top-up assets, both applied successfully to one escrow, leave it holding
/// the same amount under every key.
pub proof fn lemma_top_up_order_independent(
    st: StateView,
    id: Seq<char>,
    a1: Seq<BalanceView>,
    a2: Seq<BalanceView>,
    key: Seq<char>,
)
    requires
        store_sorted(st.escrows),
        contains_id(st.escrows, id),
        apply_top_ups(st, id, a1) is Ok,
        apply_top_ups(st, id, a2) is Ok,
        a1.to_multiset() == a2.to_multiset(),
    ensures
        ({
            let s1 = apply_top_ups(st, id, a1)->Ok_0;
            let s2 = apply_top_ups(st, id, a2)->Ok_0;
            &&& amount_of(escrow_of(s1.escrows, id).balance.native, key) == amount_of(
                escrow_of(s2.escrows, id).balance.native,
                key,
            )
            &&& amount_of(escrow_of(s1.escrows, id).balance.cw20, key) == amount_of(
                escrow_of(s2.escrows, id).balance.cw20,
                key,
            )
        }),
{
    lemma_top_up_conservation(st, id, a1, key);
    lemma_top_up_conservation(st, id, a2, key);
    lemma_submitted_permutation(a1, a2, key);
}

// What follows states the engine's laws over the transitions above; together
// with each operation's contract (which pins the operation to its
// transition, and pins the state unchanged on every error) they carry over
// to the executable operations.
/// Create-uniqueness: a create naming an id already present fails
/// AlreadyInUse — provided the asset has value and the identities are
/// well-formed, the checks that come first — and the record already stored
/// is unchanged, since a failed create changes nothing.
pub proof fn lemma_create_uniqueness(
    st: StateView,
    msg: CreateMsgView,
    bal: BalanceView,
    sender: Seq<char>,
)
    requires
        contains_id(st.escrows, msg.id),
        !value_zero(bal),
        valid_whitelist(msg.cw20_whitelist),
        msg.recipient matches Some(rv) ==> spec_valid_identity(rv),
    ensures
        spec_create(st, msg, bal, sender) == Err::<StateView, ContractErrorView>(
            ContractErrorView::AlreadyInUse,
        ),
{
}

/// Whitelist enforcement: a top-up with a token whose contract identity is
/// not in the escrow's whitelist fails NotInWhitelist; balance and whitelist
/// remain unchanged, since a failed top-up changes nothing.
pub proof fn lemma_whitelist_enforcement(st: StateView, id: Seq<char>, token: BalanceLine)
    requires
        contains_id(st.escrows, id),
        token.amount != 0,
        !escrow_of(st.escrows, id).cw20_whitelist.contains(token.key),
    ensures
        spec_top_up(st, id, BalanceView::Cw20(token)) == Err::<StateView, ContractErrorView>(
            ContractErrorView::NotInWhitelist,
        ),
{
}

/// Approve requires a recipient: an approve of an escrow with no recipient
/// set fails RecipientNotSet, even for the correct arbiter before expiry.
pub proof fn lemma_approve_requires_recipient(
    st: StateView,
    id: Seq<char>,
    height: u64,
    time_nanos: u64,
)
    requires
        contains_id(st.escrows, id),
        escrow_of(st.escrows, id).recipient is None,
        !spec_is_expired(escrow_of(st.escrows, id), height, time_nanos),
    ensures
        spec_approve(st, escrow_of(st.escrows, id).arbiter, id, height, time_nanos) == Err::<
            (StateView, Seq<TransferInstructionView>),
            ContractErrorView,
        >(ContractErrorView::RecipientNotSet),
{
}

/// Arbiter-only control: set-recipient and approve fail Unauthorized for any
/// caller other than the escrow's arbiter, regardless of funds state.
pub proof fn lemma_arbiter_only_control(
    st: StateView,
    caller: Seq<char>,
    id: Seq<char>,
    recipient: Seq<char>,
    height: u64,
    time_nanos: u64,
)
    requires
        contains_id(st.escrows, id),
        caller != escrow_of(st.escrows, id).arbiter,
    ensures
        spec_set_recipient(st, caller, id, recipient) == Err::<StateView, ContractErrorView>(
            ContractErrorView::Unauthorized,
        ),
        spec_approve(st, caller, id, height, time_nanos) == Err::<
            (StateView, Seq<TransferInstructionView>),
            ContractErrorView,
        >(ContractErrorView::Unauthorized),
{
}

/// Expiry-gated refund: a non-arbiter refund before expiry fails
/// Unauthorized; the same call once the escrow is expired succeeds, removing
/// the record and disbursing the whole balance back to the source.
pub proof fn lemma_expiry_gates_refund(
    st: StateView,
    caller: Seq<char>,
    id: Seq<char>,
    height: u64,
    time_nanos: u64,
)
    requires
        contains_id(st.escrows, id),
        caller != escrow_of(st.escrows, id).arbiter,
    ensures
        !spec_is_expired(escrow_of(st.escrows, id), height, time_nanos) ==> spec_refund(
            st,
            caller,
            id,
            height,
            time_nanos,
        ) == Err::<(StateView, Seq<TransferInstructionView>), ContractErrorView>(
            ContractErrorView::Unauthorized,
        ),
        spec_is_expired(escrow_of(st.escrows, id), height, time_nanos) ==> spec_refund(
            st,
            caller,
            id,
            height,
            time_nanos,
        ) == Ok::<(StateView, Seq<TransferInstructionView>), ContractErrorView>(
            (
                StateView {
                    arbiter: st.arbiter,
                    escrows: st.escrows.remove(first_id_index(st.escrows, id)),
                },
                spec_send_tokens(
                    escrow_of(st.escrows, id).source,
                    escrow_of(st.escrows, id).balance,
                ),
            ),
        ),
{
}

/// Post-removal idempotence: approve and refund on an id with no open escrow
/// fail InvalidEscrow — they never succeed twice, since a successful approve
/// or refund removes the record before any instruction is produced.
pub proof fn lemma_removed_id_rejected(
    st: StateView,
    caller: Seq<char>,
    id: Seq<char>,
    height: u64,
    time_nanos: u64,
)
    requires
        !contains_id(st.escrows, id),
    ensures
        spec_approve(st, caller, id, height, time_nanos) == Err::<
            (StateView, Seq<TransferInstructionView>),
            ContractErrorView,
        >(ContractErrorView::InvalidEscrow { id }),
        spec_refund(st, caller, id, height, time_nanos) == Err::<
            (StateView, Seq<TransferInstructionView>),
            ContractErrorView,
        >(ContractErrorView::InvalidEscrow { id }),
{
}

/// No double disbursement: once an approve or a refund of an id succeeds,
/// any further approve or refund of the same id fails InvalidEscrow.
pub proof fn lemma_no_double_disbursement(
    st: StateView,
    caller1: Seq<char>,
    caller2: Seq<char>,
    id: Seq<char>,
    height1: u64,
    time1: u64,
    height2: u64,
    time2: u64,
)
    requires
        state_wf(st),
        spec_approve(st, caller1, id, height1, time1) is Ok || spec_refund(
            st,
            caller1,
            id,
            height1,
            time1,
        ) is Ok,
    ensures
        spec_approve(st, caller1, id, height1, time1) matches Ok((stv, _)) ==> spec_approve(
            stv,
            caller2,
            id,
            height2,
            time2,
        ) == Err::<(StateView, Seq<TransferInstructionView>), ContractErrorView>(
            ContractErrorView::InvalidEscrow { id },
        ) && spec_refund(stv, caller2, id, height2, time2) == Err::<
            (StateView, Seq<TransferInstructionView>),
            ContractErrorView,
        >(ContractErrorView::InvalidEscrow { id }),
        spec_refund(st, caller1, id, height1, time1) matches Ok((stv, _)) ==> spec_approve(
            stv,
            caller2,
            id,
            height2,
            time2,
        ) == Err::<(StateView, Seq<TransferInstructionView>), ContractErrorView>(
            ContractErrorView::InvalidEscrow { id },
        ) && spec_refund(stv, caller2, id, height2, time2) == Err::<
            (StateView, Seq<TransferInstructionView>),
            ContractErrorView,
        >(ContractErrorView::InvalidEscrow { id }),
{
    if spec_approve(st, caller1, id, height1, time1) is Ok || spec_refund(
        st,
        caller1,
        id,
        height1,
        time1,
    ) is Ok {
        crate::state::lemma_remove_erases_id(st.escrows, id);
    }
}

} // verus!
