//! Escrow records and the record store: an ordered primary mapping from id to
//! escrow, with derived index keys (category, recipient email, recipient
//! telegram id) recomputed from the full record on every write.

use vstd::prelude::*;
use vstd::pervasive::VecAdditionalExecFns;

use crate::balance::{GenericBalance, GenericBalanceView};
use crate::msg::BlindTransfersResponse;
use crate::text::{lex_lt, lemma_lex_lt_transitive, lemma_lex_lt_trichotomy, str_eq, str_lt};
use crate::views_of;

verus! {

/// How a blind-transfer escrow is claimed: by matching an email address or a
/// telegram id.
#[derive(Clone, Copy, PartialEq, Eq, Debug)]
pub enum TransferType {
    Email,
    Telegram,
}

impl TransferType {
    /// The name of the claim kind, as the category index spells it.
    pub fn label(&self) -> (r: String)
        ensures
            r@ == match self {
                TransferType::Email => "Email"@,
                TransferType::Telegram => "Telegram"@,
            },
    {
        match self {
            TransferType::Email => "Email".to_owned(),
            TransferType::Telegram => "Telegram".to_owned(),
        }
    }
}

/// The invoiced amount of an invoice escrow, as free text.
#[derive(Debug, PartialEq, Eq)]
pub struct InvoiceAmount {
    pub amount: String,
    pub currency: String,
}

/// The model of an invoiced amount.
pub struct InvoiceAmountView {
    pub amount: Seq<char>,
    pub currency: Seq<char>,
}

impl View for InvoiceAmount {
    type V = InvoiceAmountView;

    open spec fn view(&self) -> InvoiceAmountView {
        InvoiceAmountView { amount: self.amount@, currency: self.currency@ }
    }
}

impl Clone for InvoiceAmount {
    fn clone(&self) -> (r: Self)
        ensures
            r@ == self@,
    {
        InvoiceAmount { amount: self.amount.clone(), currency: self.currency.clone() }
    }
}

/// The kind of an escrow: an invoice released to a pre-agreed recipient, or a
/// blind transfer claimable by matching an identity.
#[derive(Debug, PartialEq, Eq)]
pub enum EscrowType {
    Invoice { amount: InvoiceAmount },
    BlindTransfer { transfer: TransferType },
}

/// The model of an escrow kind.
pub enum EscrowTypeView {
    Invoice { amount: InvoiceAmountView },
    BlindTransfer { transfer: TransferType },
}

impl View for EscrowType {
    type V = EscrowTypeView;

    open spec fn view(&self) -> EscrowTypeView {
        match self {
            EscrowType::Invoice { amount } => EscrowTypeView::Invoice { amount: amount@ },
            EscrowType::BlindTransfer { transfer } => EscrowTypeView::BlindTransfer {
                transfer: *transfer,
            },
        }
    }
}

impl Clone for EscrowType {
    fn clone(&self) -> (r: Self)
        ensures
            r@ == self@,
    {
        match self {
            EscrowType::Invoice { amount } => EscrowType::Invoice { amount: amount.clone() },
            EscrowType::BlindTransfer { transfer } => EscrowType::BlindTransfer {
                transfer: *transfer,
            },
        }
    }
}

/// One escrow record.
#[derive(Debug, PartialEq, Eq)]
pub struct Escrow {
    /// Invoice for invoice escrows; blind transfer for value claimable by
    /// matching an email or telegram identity.
    pub escrow_type: EscrowType,
    /// The arbiter decides to approve or refund the escrow.
    pub arbiter: String,
    /// On approval, funds go to the recipient; approval fails while it is
    /// unset.
    pub recipient: Option<String>,
    /// Email address of the recipient.
    pub recepient_email: Option<String>,
    /// Telegram id of the recipient.
    pub recepient_telegram_id: Option<String>,
    /// On refund, funds go back to the source.
    pub source: String,
    /// Telegram id of the source.
    pub source_telegram_id: Option<String>,
    /// Title of the escrow.
    pub title: String,
    /// Longer description of the escrow condition.
    pub description: String,
    /// Once the host's block height exceeds this value the escrow is expired
    /// and may be refunded by anyone.
    pub end_height: Option<u64>,
    /// Once the host's block time exceeds this value (seconds since the
    /// epoch) the escrow is expired and may be refunded by anyone.
    pub end_time: Option<u64>,
    /// Balance in native and token amounts.
    pub balance: GenericBalance,
    /// The token contracts the escrow accepts funds from.
    pub cw20_whitelist: Vec<String>,
}

/// The model of an escrow record.
pub struct EscrowView {
    pub escrow_type: EscrowTypeView,
    pub arbiter: Seq<char>,
    pub recipient: Option<Seq<char>>,
    pub recepient_email: Option<Seq<char>>,
    pub recepient_telegram_id: Option<Seq<char>>,
    pub source: Seq<char>,
    pub source_telegram_id: Option<Seq<char>>,
    pub title: Seq<char>,
    pub description: Seq<char>,
    pub end_height: Option<u64>,
    pub end_time: Option<u64>,
    pub balance: GenericBalanceView,
    pub cw20_whitelist: Seq<Seq<char>>,
}

/// The view of an optional string.
pub open spec fn opt_view(o: Option<String>) -> Option<Seq<char>> {
    match o {
        Some(s) => Some(s@),
        None => None,
    }
}

impl View for Escrow {
    type V = EscrowView;

    open spec fn view(&self) -> EscrowView {
        EscrowView {
            escrow_type: self.escrow_type@,
            arbiter: self.arbiter@,
            recipient: opt_view(self.recipient),
            recepient_email: opt_view(self.recepient_email),
            recepient_telegram_id: opt_view(self.recepient_telegram_id),
            source: self.source@,
            source_telegram_id: opt_view(self.source_telegram_id),
            title: self.title@,
            description: self.description@,
            end_height: self.end_height,
            end_time: self.end_time,
            balance: self.balance@,
            cw20_whitelist: views_of(self.cw20_whitelist@),
        }
    }
}

/// A copy of an optional string.
pub fn clone_opt_string(o: &Option<String>) -> (r: Option<String>)
    ensures
        opt_view(r) == opt_view(*o),
{
    match o {
        Some(s) => Some(s.clone()),
        None => None,
    }
}

/// A copy of a list of strings.
pub fn clone_strings(v: &Vec<String>) -> (r: Vec<String>)
    ensures
        views_of(r@) =~= views_of(v@),
        r@.len() == v@.len(),
{
    let mut r: Vec<String> = Vec::new();
    let mut i: usize = 0;
    while i < v.len()
        invariant
            0 <= i <= v@.len(),
            r@.len() == i,
            forall|j: int| 0 <= j < i ==> #[trigger] r@[j]@ == v@[j]@,
        decreases v@.len() - i,
    {
        r.push(v[i].clone());
        i = i + 1;
    }
    proof {
        assert forall|j: int| 0 <= j < v@.len() implies views_of(r@)[j] == views_of(v@)[j] by {
            assert(r@[j]@ == v@[j]@);
        }
    }
    r
}

impl Clone for Escrow {
    fn clone(&self) -> (r: Self)
        ensures
            r@ == self@,
    {
        Escrow {
            escrow_type: self.escrow_type.clone(),
            arbiter: self.arbiter.clone(),
            recipient: clone_opt_string(&self.recipient),
            recepient_email: clone_opt_string(&self.recepient_email),
            recepient_telegram_id: clone_opt_string(&self.recepient_telegram_id),
            source: self.source.clone(),
            source_telegram_id: clone_opt_string(&self.source_telegram_id),
            title: self.title.clone(),
            description: self.description.clone(),
            end_height: self.end_height,
            end_time: self.end_time,
            balance: self.balance.clone(),
            cw20_whitelist: clone_strings(&self.cw20_whitelist),
        }
    }
}

/// Whether an escrow is expired at the host's current height and time (the
/// time in nanoseconds since the epoch): expiry is evaluated live, never
/// cached.
pub open spec fn spec_is_expired(e: EscrowView, height: u64, time_nanos: u64) -> bool {
    (e.end_height matches Some(h) && height > h) || (e.end_time matches Some(t) && time_nanos
        as int > t as int * 1_000_000_000)
}

impl Escrow {
    /// Whether the escrow is expired at the given block height and block time
    /// (nanoseconds since the epoch).
    pub fn is_expired(&self, height: u64, time_nanos: u64) -> (r: bool)
        ensures
            r == spec_is_expired(self@, height, time_nanos),
    {
        if let Some(end_height) = self.end_height {
            if height > end_height {
                return true;
            }
        }
        if let Some(end_time) = self.end_time {
            if (time_nanos as u128) > (end_time as u128) * 1_000_000_000u128 {
                return true;
            }
        }
        false
    }

    /// The whitelist as a list of plain identities.
    pub fn human_whitelist(&self) -> (r: Vec<String>)
        ensures
            views_of(r@) == self@.cw20_whitelist,
    {
        let r = clone_strings(&self.cw20_whitelist);
        proof {
            assert(views_of(r@) =~= self@.cw20_whitelist);
        }
        r
    }
}

// What the normalization of a key returns is computed by the standard
// library; the names below stand for those results.
/// What `str::trim` returns on a string's characters.
pub uninterp spec fn trimmed_of(s: Seq<char>) -> Seq<char>;

/// What `str::to_lowercase` returns on a string's characters.
pub uninterp spec fn lowercase_of(s: Seq<char>) -> Seq<char>;

/// The normalized form of an identity key: surrounding whitespace removed,
/// then lowercased.
pub open spec fn normalized_of(s: Seq<char>) -> Seq<char> {
    lowercase_of(trimmed_of(s))
}

/// Relies on str::trim: it removes leading and trailing whitespace, the
/// result depends on the characters alone, and an empty string stays empty.
#[verifier::external_body]
fn trim_str(s: &str) -> (r: &str)
    ensures
        r@ == trimmed_of(s@),
        s@.len() == 0 ==> r@.len() == 0,
{
    s.trim()
}

/// Relies on str::to_lowercase: the result depends on the characters alone,
/// and an empty string stays empty.
#[verifier::external_body]
fn lowercase_str(s: &str) -> (r: String)
    ensures
        r@ == lowercase_of(s@),
        s@.len() == 0 ==> r@.len() == 0,
{
    s.to_lowercase()
}

/// Normalize an identity key: trim surrounding whitespace, lowercase.
pub fn normalize_string(str: &str) -> (r: String)
    ensures
        r@ == normalized_of(str@),
        str@.len() == 0 ==> r@.len() == 0,
{
    lowercase_str(trim_str(str))
}

/// The category index key derived from a record: the kind of the escrow.
pub open spec fn spec_category_key(e: EscrowView) -> Seq<char> {
    match e.escrow_type {
        EscrowTypeView::Invoice { .. } => "Invoice"@,
        EscrowTypeView::BlindTransfer { transfer: TransferType::Email } => "Email"@,
        EscrowTypeView::BlindTransfer { transfer: TransferType::Telegram } => "Telegram"@,
    }
}

/// The email index key derived from a record: the normalized recipient email
/// for an email blind transfer, and the empty, non-queryable key for every
/// other record.
pub open spec fn spec_email_key(e: EscrowView) -> Seq<char> {
    if e.escrow_type matches EscrowTypeView::BlindTransfer { transfer: TransferType::Email } {
        match e.recepient_email {
            Some(s) => normalized_of(s),
            None => Seq::empty(),
        }
    } else {
        Seq::empty()
    }
}

/// The telegram index key derived from a record: the normalized recipient
/// telegram id for a telegram blind transfer, and the empty, non-queryable
/// key for every other record.
pub open spec fn spec_telegram_key(e: EscrowView) -> Seq<char> {
    if e.escrow_type matches EscrowTypeView::BlindTransfer { transfer: TransferType::Telegram } {
        match e.recepient_telegram_id {
            Some(s) => normalized_of(s),
            None => Seq::empty(),
        }
    } else {
        Seq::empty()
    }
}

/// Compute the category index key of a record.
fn category_key(escrow: &Escrow) -> (r: String)
    ensures
        r@ == spec_category_key(escrow@),
{
    match &escrow.escrow_type {
        EscrowType::Invoice { .. } => "Invoice".to_owned(),
        EscrowType::BlindTransfer { transfer } => transfer.label(),
    }
}

/// Compute the email index key of a record.
fn email_key(escrow: &Escrow) -> (r: String)
    ensures
        r@ == spec_email_key(escrow@),
{
    match &escrow.escrow_type {
        EscrowType::BlindTransfer { transfer: TransferType::Email } => {
            match &escrow.recepient_email {
                Some(email) => normalize_string(email.as_str()),
                None => new_empty_string(),
            }
        },
        _ => new_empty_string(),
    }
}

/// Compute the telegram index key of a record.
fn telegram_key(escrow: &Escrow) -> (r: String)
    ensures
        r@ == spec_telegram_key(escrow@),
{
    match &escrow.escrow_type {
        EscrowType::BlindTransfer { transfer: TransferType::Telegram } => {
            match &escrow.recepient_telegram_id {
                Some(id) => normalize_string(id.as_str()),
                None => new_empty_string(),
            }
        },
        _ => new_empty_string(),
    }
}

/// A string with no characters.
fn new_empty_string() -> (r: String)
    ensures
        r@ =~= Seq::<char>::empty(),
{
    String::new()
}


/// One stored record: the id, the escrow, and the three derived index keys,
/// recomputed from the full record on every write.
pub struct StoredEscrow {
    pub id: String,
    pub escrow: Escrow,
    pub category_key: String,
    pub email_key: String,
    pub telegram_key: String,
}

/// The model of one stored record.
pub struct StoredEscrowView {
    pub id: Seq<char>,
    pub escrow: EscrowView,
    pub category_key: Seq<char>,
    pub email_key: Seq<char>,
    pub telegram_key: Seq<char>,
}

impl View for StoredEscrow {
    type V = StoredEscrowView;

    open spec fn view(&self) -> StoredEscrowView {
        StoredEscrowView {
            id: self.id@,
            escrow: self.escrow@,
            category_key: self.category_key@,
            email_key: self.email_key@,
            telegram_key: self.telegram_key@,
        }
    }
}

/// The record a write stores for an escrow: the escrow with its three index
/// keys derived from the full record.
pub open spec fn spec_entry(id: Seq<char>, e: EscrowView) -> StoredEscrowView {
    StoredEscrowView {
        id: id,
        escrow: e,
        category_key: spec_category_key(e),
        email_key: spec_email_key(e),
        telegram_key: spec_telegram_key(e),
    }
}

/// Build the stored record for an escrow, deriving all index keys.
fn make_entry(id: String, escrow: Escrow) -> (r: StoredEscrow)
    ensures
        r@ == spec_entry(id@, escrow@),
{
    let category_key = category_key(&escrow);
    let email_key = email_key(&escrow);
    let telegram_key = telegram_key(&escrow);
    StoredEscrow { id, escrow, category_key, email_key, telegram_key }
}

/// The ids of the stored records, in storage order.
pub open spec fn ids_of(v: Seq<StoredEscrowView>) -> Seq<Seq<char>> {
    v.map_values(|en: StoredEscrowView| en.id)
}

/// The records stand in strictly ascending id order.
pub open spec fn store_sorted(v: Seq<StoredEscrowView>) -> bool {
    forall|i: int, j: int| 0 <= i < j < v.len() ==> lex_lt(v[i].id, v[j].id)
}

/// Every stored record carries exactly the index keys derived from its
/// record: what stands in the store is what `spec_entry` derives on write.
pub open spec fn entries_consistent(v: Seq<StoredEscrowView>) -> bool {
    forall|i: int|
        0 <= i < v.len() ==> (#[trigger] v[i]) == spec_entry(v[i].id, v[i].escrow)
}

/// In a consistent store, each record's index keys are exactly the keys
/// derived from its record: the category of its kind, and the normalized
/// recipient email and telegram id of the matching blind-transfer kinds.
pub proof fn lemma_consistent_keys(v: Seq<StoredEscrowView>, i: int)
    requires
        entries_consistent(v),
        0 <= i < v.len(),
    ensures
        v[i].category_key == spec_category_key(v[i].escrow),
        v[i].email_key == spec_email_key(v[i].escrow),
        v[i].telegram_key == spec_telegram_key(v[i].escrow),
{
    assert(v[i] == spec_entry(v[i].id, v[i].escrow));
}

/// Some record has the id.
pub open spec fn contains_id(v: Seq<StoredEscrowView>, id: Seq<char>) -> bool {
    exists|i: int| 0 <= i < v.len() && v[i].id == id
}

/// The position of the first record with the id.
pub open spec fn first_id_index(v: Seq<StoredEscrowView>, id: Seq<char>) -> int
    decreases v.len(),
{
    if v.len() == 0 {
        0
    } else if v[0].id == id {
        0
    } else {
        1 + first_id_index(v.skip(1), id)
    }
}

/// The record held under an id.
pub open spec fn entry_of(v: Seq<StoredEscrowView>, id: Seq<char>) -> StoredEscrowView {
    v[first_id_index(v, id)]
}

/// The escrow held under an id.
pub open spec fn escrow_of(v: Seq<StoredEscrowView>, id: Seq<char>) -> EscrowView {
    entry_of(v, id).escrow
}

/// Where the first record with an id stands, and that nothing before it
/// carries the id.
pub proof fn lemma_first_id_index(v: Seq<StoredEscrowView>, id: Seq<char>)
    requires
        contains_id(v, id),
    ensures
        0 <= first_id_index(v, id) < v.len(),
        v[first_id_index(v, id)].id == id,
        forall|j: int| 0 <= j < first_id_index(v, id) ==> v[j].id != id,
    decreases v.len(),
{
    if v.len() > 0 && v[0].id != id {
        assert(contains_id(v.skip(1), id)) by {
            let i = choose|i: int| 0 <= i < v.len() && v[i].id == id;
            assert(v.skip(1)[i - 1] == v[i]);
        }
        lemma_first_id_index(v.skip(1), id);
        assert forall|j: int| 0 <= j < first_id_index(v, id) implies v[j].id != id by {
            if j >= 1 {
                assert(v.skip(1)[j - 1] == v[j]);
            }
        }
    }
}

/// A position whose record carries the id, with no earlier record carrying
/// it, is the first position with the id.
pub proof fn lemma_first_id_index_char(v: Seq<StoredEscrowView>, id: Seq<char>, i: int)
    requires
        0 <= i < v.len(),
        v[i].id == id,
        forall|j: int| 0 <= j < i ==> v[j].id != id,
    ensures
        first_id_index(v, id) == i,
        contains_id(v, id),
    decreases v.len(),
{
    if v[0].id != id {
        assert forall|j: int| 0 <= j < i - 1 implies v.skip(1)[j].id != id by {
            assert(v.skip(1)[j] == v[j + 1]);
        }
        assert(v.skip(1)[i - 1] == v[i]);
        lemma_first_id_index_char(v.skip(1), id, i - 1);
    }
}

/// The position a fresh id is stored at: before the first record with a
/// greater id.
pub open spec fn insert_pos(v: Seq<StoredEscrowView>, id: Seq<char>) -> int
    decreases v.len(),
{
    if v.len() == 0 || lex_lt(id, v[0].id) {
        0
    } else {
        1 + insert_pos(v.skip(1), id)
    }
}

/// The storage position of a fresh id: everything before it has a smaller id
/// and everything from it on has a greater one.
pub proof fn lemma_insert_pos(v: Seq<StoredEscrowView>, id: Seq<char>)
    requires
        store_sorted(v),
        !contains_id(v, id),
    ensures
        0 <= insert_pos(v, id) <= v.len(),
        forall|j: int| 0 <= j < insert_pos(v, id) ==> lex_lt(v[j].id, id),
        forall|j: int| insert_pos(v, id) <= j < v.len() ==> lex_lt(id, v[j].id),
    decreases v.len(),
{
    if v.len() == 0 {
    } else if lex_lt(id, v[0].id) {
        assert forall|j: int| 0 <= j < v.len() implies lex_lt(id, v[j].id) by {
            if j > 0 {
                lemma_lex_lt_transitive(id, v[0].id, v[j].id);
            }
        }
    } else {
        lemma_lex_lt_trichotomy(id, v[0].id);
        assert(v[0].id != id);
        assert(lex_lt(v[0].id, id));
        assert(store_sorted(v.skip(1))) by {
            assert forall|i: int, j: int|
                0 <= i < j < v.skip(1).len() implies lex_lt(v.skip(1)[i].id, v.skip(1)[j].id) by {
                assert(v.skip(1)[i] == v[i + 1]);
                assert(v.skip(1)[j] == v[j + 1]);
            }
        }
        assert(!contains_id(v.skip(1), id)) by {
            if contains_id(v.skip(1), id) {
                let i = choose|i: int| 0 <= i < v.skip(1).len() && v.skip(1)[i].id == id;
                assert(v[i + 1] == v.skip(1)[i]);
            }
        }
        lemma_insert_pos(v.skip(1), id);
        assert forall|j: int| 0 <= j < insert_pos(v, id) implies lex_lt(v[j].id, id) by {
            if j >= 1 {
                assert(v.skip(1)[j - 1] == v[j]);
            }
        }
        assert forall|j: int| insert_pos(v, id) <= j < v.len() implies lex_lt(id, v[j].id) by {
            assert(v.skip(1)[j - 1] == v[j]);
        }
    }
}

/// Inserting a fresh record at its storage position keeps the store sorted.
pub proof fn lemma_insert_keeps_sorted(v: Seq<StoredEscrowView>, en: StoredEscrowView)
    requires
        store_sorted(v),
        !contains_id(v, en.id),
    ensures
        store_sorted(v.insert(insert_pos(v, en.id), en)),
        contains_id(v.insert(insert_pos(v, en.id), en), en.id),
{
    lemma_insert_pos(v, en.id);
    let p = insert_pos(v, en.id);
    let w = v.insert(p, en);
    assert forall|i: int, j: int| 0 <= i < j < w.len() implies lex_lt(w[i].id, w[j].id) by {
        if i < p && j < p {
        } else if i < p && j == p {
        } else if i < p && j > p {
            lemma_lex_lt_transitive(w[i].id, en.id, w[j].id);
        } else if i == p {
        } else {
        }
    }
    assert(w[p] == en);
}

/// Removing a record keeps the store sorted.
pub proof fn lemma_remove_keeps_sorted(v: Seq<StoredEscrowView>, i: int)
    requires
        store_sorted(v),
        0 <= i < v.len(),
    ensures
        store_sorted(v.remove(i)),
{
    assert forall|a: int, b: int|
        0 <= a < b < v.remove(i).len() implies lex_lt(v.remove(i)[a].id, v.remove(i)[b].id) by {
        let ra = if a < i {
            a
        } else {
            a + 1
        };
        let rb = if b < i {
            b
        } else {
            b + 1
        };
        assert(v.remove(i)[a] == v[ra]);
        assert(v.remove(i)[b] == v[rb]);
    }
}

/// In a sorted store, ids are unique: the record found under an id is the
/// only one carrying it.
pub proof fn lemma_sorted_id_unique(v: Seq<StoredEscrowView>, i: int, j: int)
    requires
        store_sorted(v),
        0 <= i < v.len(),
        0 <= j < v.len(),
        v[i].id == v[j].id,
    ensures
        i == j,
{
    if i < j {
        lemma_lex_lt_trichotomy(v[i].id, v[j].id);
    } else if j < i {
        lemma_lex_lt_trichotomy(v[j].id, v[i].id);
    }
}

/// Removing the record found under an id erases the id from a sorted store:
/// ids are unique, so no second record carries it.
pub proof fn lemma_remove_erases_id(v: Seq<StoredEscrowView>, id: Seq<char>)
    requires
        store_sorted(v),
        contains_id(v, id),
    ensures
        !contains_id(v.remove(first_id_index(v, id)), id),
{
    let i = first_id_index(v, id);
    lemma_first_id_index(v, id);
    v.remove_ensures(i);
    if contains_id(v.remove(i), id) {
        let j = choose|j: int| 0 <= j < v.remove(i).len() && v.remove(i)[j].id == id;
        let rj = if j < i {
            j
        } else {
            j + 1
        };
        assert(v.remove(i)[j] == v[rj]);
        lemma_sorted_id_unique(v, rj, i);
    }
}

/// The escrow record store: records in strictly ascending id order, each with
/// its derived index keys.
pub struct EscrowStore {
    pub entries: Vec<StoredEscrow>,
}

impl View for EscrowStore {
    type V = Seq<StoredEscrowView>;

    open spec fn view(&self) -> Seq<StoredEscrowView> {
        views_of(self.entries@)
    }
}

impl EscrowStore {
    /// The store's invariant: records stand in strictly ascending id order,
    /// and each carries exactly the index keys derived from its record.
    pub open spec fn wf(&self) -> bool {
        store_sorted(self@) && entries_consistent(self@)
    }

    /// An empty store.
    pub fn new() -> (r: Self)
        ensures
            r@ =~= Seq::<StoredEscrowView>::empty(),
            r.wf(),
    {
        EscrowStore { entries: Vec::new() }
    }

    /// The position of the record with the id, if any.
    fn position_of(&self, id: &str) -> (r: Option<usize>)
        ensures
            match r {
                Some(i) => i < self@.len() && contains_id(self@, id@) && first_id_index(
                    self@,
                    id@,
                ) == i as int,
                None => !contains_id(self@, id@),
            },
    {
        let ghost v = self@;
        let mut i: usize = 0;
        while i < self.entries.len()
            invariant
                0 <= i <= self.entries@.len(),
                v == views_of(self.entries@),
                v.len() == self.entries@.len(),
                forall|j: int|
                    0 <= j < self.entries@.len() ==> v[j] == #[trigger] self.entries@[j]@,
                forall|j: int| 0 <= j < i ==> v[j].id != id@,
            decreases self.entries@.len() - i,
        {
            if str_eq(self.entries[i].id.as_str(), id) {
                proof {
                    lemma_first_id_index_char(v, id@, i as int);
                }
                return Some(i);
            }
            i = i + 1;
        }
        None
    }

    /// Load the escrow held under an id, if the id is present.
    pub fn may_load(&self, id: &str) -> (r: Option<&Escrow>)
        ensures
            match r {
                Some(e) => contains_id(self@, id@) && e@ == escrow_of(self@, id@),
                None => !contains_id(self@, id@),
            },
    {
        match self.position_of(id) {
            Some(i) => Some(&self.entries[i].escrow),
            None => None,
        }
    }

    /// Whether an id is present.
    pub fn has(&self, id: &str) -> (r: bool)
        ensures
            r == contains_id(self@, id@),
    {
        match self.position_of(id) {
            Some(_) => true,
            None => false,
        }
    }

    /// The position in ascending id order at which a fresh id is stored.
    fn find_insert_pos(&self, id: &str) -> (r: usize)
        requires
            self.wf(),
            !contains_id(self@, id@),
        ensures
            r as int == insert_pos(self@, id@),
            r <= self@.len(),
    {
        let ghost v = self@;
        proof {
            lemma_insert_pos(v, id@);
        }
        let mut i: usize = 0;
        while i < self.entries.len()
            invariant
                0 <= i <= self.entries@.len(),
                v == views_of(self.entries@),
                v.len() == self.entries@.len(),
                forall|j: int|
                    0 <= j < self.entries@.len() ==> v[j] == #[trigger] self.entries@[j]@,
                forall|j: int| 0 <= j < i ==> lex_lt(v[j].id, id@),
                0 <= insert_pos(v, id@) <= v.len(),
                forall|j: int| 0 <= j < insert_pos(v, id@) ==> lex_lt(v[j].id, id@),
                forall|j: int| insert_pos(v, id@) <= j < v.len() ==> lex_lt(id@, v[j].id),
            decreases self.entries@.len() - i,
        {
            if !str_lt(self.entries[i].id.as_str(), id) {
                proof {
                    lemma_lex_lt_trichotomy(v[i as int].id, id@);
                    let p = insert_pos(v, id@);
                    if p < i as int {
                        assert(lex_lt(v[p].id, id@));
                        assert(lex_lt(id@, v[p].id));
                        lemma_lex_lt_trichotomy(v[p].id, id@);
                    }
                    if (i as int) < p {
                        assert(lex_lt(v[i as int].id, id@));
                        assert(lex_lt(id@, v[i as int].id));
                        lemma_lex_lt_trichotomy(v[i as int].id, id@);
                    }
                }
                return i;
            }
            i = i + 1;
        }
        proof {
            let p = insert_pos(v, id@);
            if p < v.len() {
                assert(lex_lt(v[p].id, id@));
                assert(lex_lt(id@, v[p].id));
                lemma_lex_lt_trichotomy(v[p].id, id@);
            }
        }
        self.entries.len()
    }

    /// Store a fresh record under an id not yet present, deriving its index
    /// keys; it is stored at its place in ascending id order.
    pub fn insert(&mut self, id: String, escrow: Escrow)
        requires
            old(self).wf(),
            !contains_id(old(self)@, id@),
        ensures
            final(self)@ == old(self)@.insert(
                insert_pos(old(self)@, id@),
                spec_entry(id@, escrow@),
            ),
            final(self).wf(),
            contains_id(final(self)@, id@),
    {
        let ghost v = self@;
        let pos = self.find_insert_pos(id.as_str());
        let entry = make_entry(id, escrow);
        let ghost env = entry@;
        proof {
            lemma_insert_keeps_sorted(v, env);
        }
        self.entries.insert(pos, entry);
        proof {
            assert(self@ =~= v.insert(pos as int, env));
            v.insert_ensures(pos as int, env);
            assert forall|i: int|
                0 <= i < self@.len() implies (#[trigger] self@[i]) == spec_entry(
                self@[i].id,
                self@[i].escrow,
            ) by {
                if i < pos as int {
                    assert(self@[i] == v[i]);
                } else if i > pos as int {
                    assert(self@[i] == v[i - 1]);
                } else {
                    assert(self@[i] == env);
                }
            }
        }
    }

    /// Overwrite the record under an id already present, deriving its index
    /// keys anew from the full record.
    pub fn save(&mut self, id: String, escrow: Escrow)
        requires
            old(self).wf(),
            contains_id(old(self)@, id@),
        ensures
            final(self)@ == old(self)@.update(
                first_id_index(old(self)@, id@),
                spec_entry(id@, escrow@),
            ),
            final(self).wf(),
    {
        let ghost v = self@;
        let pos = self.position_of(id.as_str());
        proof {
            lemma_first_id_index(v, id@);
        }
        match pos {
            Some(i) => {
                let entry = make_entry(id, escrow);
                self.entries.set(i, entry);
                proof {
                    assert(self@ =~= v.update(i as int, entry@));
                    assert forall|a: int, b: int|
                        0 <= a < b < self@.len() implies lex_lt(self@[a].id, self@[b].id) by {
                        assert(self@[a].id == v[a].id);
                        assert(self@[b].id == v[b].id);
                    }
                    assert forall|j: int|
                        0 <= j < self@.len() implies (#[trigger] self@[j]) == spec_entry(
                        self@[j].id,
                        self@[j].escrow,
                    ) by {
                        if j != i as int {
                            assert(self@[j] == v[j]);
                        }
                    }
                }
            },
            None => {
                proof {
                    assert(false);
                }
            },
        }
    }

    /// Remove the record under an id already present.
    pub fn remove(&mut self, id: &str)
        requires
            old(self).wf(),
            contains_id(old(self)@, id@),
        ensures
            final(self)@ == old(self)@.remove(first_id_index(old(self)@, id@)),
            final(self).wf(),
            !contains_id(final(self)@, id@),
    {
        let ghost v = self@;
        let pos = self.position_of(id);
        proof {
            lemma_first_id_index(v, id@);
        }
        match pos {
            Some(i) => {
                self.entries.remove(i);
                proof {
                    assert(self@ =~= v.remove(i as int));
                    lemma_remove_keeps_sorted(v, i as int);
                    v.remove_ensures(i as int);
                    assert forall|j: int|
                        0 <= j < self@.len() implies (#[trigger] self@[j]) == spec_entry(
                        self@[j].id,
                        self@[j].escrow,
                    ) by {
                        if j < i as int {
                            assert(self@[j] == v[j]);
                        } else {
                            assert(self@[j] == v[j + 1]);
                        }
                    }
                    assert(!contains_id(self@, id@)) by {
                        if contains_id(self@, id@) {
                            let j = choose|j: int|
                                0 <= j < self@.len() && self@[j].id == id@;
                            let rj = if j < i as int {
                                j
                            } else {
                                j + 1
                            };
                            assert(self@[j] == v[rj]);
                            lemma_sorted_id_unique(v, rj, i as int);
                        }
                    }
                }
            },
            None => {
                proof {
                    assert(false);
                }
            },
        }
    }
}


/// All registered escrow ids, in ascending order.
pub fn query_all_escrow_ids(store: &EscrowStore) -> (r: Vec<String>)
    ensures
        views_of(r@) == ids_of(store@),
{
    let ghost v = store@;
    let mut r: Vec<String> = Vec::new();
    let mut i: usize = 0;
    while i < store.entries.len()
        invariant
            0 <= i <= store.entries@.len(),
            v == views_of(store.entries@),
            v.len() == store.entries@.len(),
            forall|j: int| 0 <= j < store.entries@.len() ==> v[j] == #[trigger] store.entries@[j]@,
            r@.len() == i,
            forall|j: int| 0 <= j < i ==> #[trigger] r@[j]@ == v[j].id,
        decreases store.entries@.len() - i,
    {
        r.push(store.entries[i].id.clone());
        i = i + 1;
    }
    proof {
        assert forall|j: int| 0 <= j < v.len() implies views_of(r@)[j] == ids_of(v)[j] by {
            assert(r@[j]@ == v[j].id);
        }
        assert(views_of(r@) =~= ids_of(v));
    }
    r
}

/// The stored records whose email index key equals the lookup key, in
/// storage (ascending id) order.
pub open spec fn entries_matching_email(v: Seq<StoredEscrowView>, key: Seq<char>) -> Seq<
    StoredEscrowView,
> {
    v.filter(|en: StoredEscrowView| en.email_key == key)
}

/// The stored records whose telegram index key equals the lookup key, in
/// storage (ascending id) order.
pub open spec fn entries_matching_telegram(v: Seq<StoredEscrowView>, key: Seq<char>) -> Seq<
    StoredEscrowView,
> {
    v.filter(|en: StoredEscrowView| en.telegram_key == key)
}

/// The escrows whose email index key equals the lookup key.
pub open spec fn escrows_matching_email(v: Seq<StoredEscrowView>, key: Seq<char>) -> Seq<
    EscrowView,
> {
    entries_matching_email(v, key).map_values(|en: StoredEscrowView| en.escrow)
}

/// The escrows whose telegram index key equals the lookup key.
pub open spec fn escrows_matching_telegram(v: Seq<StoredEscrowView>, key: Seq<char>) -> Seq<
    EscrowView,
> {
    entries_matching_telegram(v, key).map_values(|en: StoredEscrowView| en.escrow)
}

/// The balances of the escrows whose email index key equals the lookup key.
pub open spec fn balances_matching_email(v: Seq<StoredEscrowView>, key: Seq<char>) -> Seq<
    GenericBalanceView,
> {
    entries_matching_email(v, key).map_values(|en: StoredEscrowView| en.escrow.balance)
}

/// The balances of the escrows whose telegram index key equals the lookup
/// key.
pub open spec fn balances_matching_telegram(v: Seq<StoredEscrowView>, key: Seq<char>) -> Seq<
    GenericBalanceView,
> {
    entries_matching_telegram(v, key).map_values(|en: StoredEscrowView| en.escrow.balance)
}

/// How one more record extends an email index match.
proof fn lemma_matching_email_push(v: Seq<StoredEscrowView>, en: StoredEscrowView, key: Seq<char>)
    ensures
        escrows_matching_email(v.push(en), key) == if en.email_key == key {
            escrows_matching_email(v, key).push(en.escrow)
        } else {
            escrows_matching_email(v, key)
        },
        balances_matching_email(v.push(en), key) == if en.email_key == key {
            balances_matching_email(v, key).push(en.escrow.balance)
        } else {
            balances_matching_email(v, key)
        },
{
    reveal(Seq::filter);
    assert(v.push(en).drop_last() =~= v);
    assert(v.push(en).last() == en);
    if en.email_key == key {
        assert(escrows_matching_email(v.push(en), key) =~= escrows_matching_email(
            v,
            key,
        ).push(en.escrow));
        assert(balances_matching_email(v.push(en), key) =~= balances_matching_email(
            v,
            key,
        ).push(en.escrow.balance));
    } else {
        assert(escrows_matching_email(v.push(en), key) =~= escrows_matching_email(v, key));
        assert(balances_matching_email(v.push(en), key) =~= balances_matching_email(v, key));
    }
}

/// How one more record extends a telegram index match.
proof fn lemma_matching_telegram_push(
    v: Seq<StoredEscrowView>,
    en: StoredEscrowView,
    key: Seq<char>,
)
    ensures
        escrows_matching_telegram(v.push(en), key) == if en.telegram_key == key {
            escrows_matching_telegram(v, key).push(en.escrow)
        } else {
            escrows_matching_telegram(v, key)
        },
        balances_matching_telegram(v.push(en), key) == if en.telegram_key == key {
            balances_matching_telegram(v, key).push(en.escrow.balance)
        } else {
            balances_matching_telegram(v, key)
        },
{
    reveal(Seq::filter);
    assert(v.push(en).drop_last() =~= v);
    assert(v.push(en).last() == en);
    if en.telegram_key == key {
        assert(escrows_matching_telegram(v.push(en), key) =~= escrows_matching_telegram(
            v,
            key,
        ).push(en.escrow));
        assert(balances_matching_telegram(v.push(en), key) =~= balances_matching_telegram(
            v,
            key,
        ).push(en.escrow.balance));
    } else {
        assert(escrows_matching_telegram(v.push(en), key) =~= escrows_matching_telegram(v, key));
        assert(balances_matching_telegram(v.push(en), key) =~= balances_matching_telegram(v, key));
    }
}

/// The escrows claimable under a recipient email: the input is normalized,
/// the email index is ranged over the normalized key, and matches come back
/// in ascending id order; an empty normalized key yields an empty result.
pub fn query_by_recepient_email(store: &EscrowStore, email: &str) -> (r: Vec<Escrow>)
    ensures
        views_of(r@) == if normalized_of(email@).len() == 0 {
            Seq::<EscrowView>::empty()
        } else {
            escrows_matching_email(store@, normalized_of(email@))
        },
{
    let key = normalize_string(email);
    let ghost k = key@;
    if key.as_str().is_empty() {
        let r: Vec<Escrow> = Vec::new();
        proof {
            assert(views_of(r@) =~= Seq::<EscrowView>::empty());
        }
        return r;
    }
    let ghost v = store@;
    proof {
        reveal(Seq::filter);
        assert(v.take(0) =~= Seq::<StoredEscrowView>::empty());
        assert(escrows_matching_email(v.take(0), k) =~= Seq::<EscrowView>::empty());
        assert(views_of(Seq::<Escrow>::empty()) =~= Seq::<EscrowView>::empty());
    }
    let mut r: Vec<Escrow> = Vec::new();
    let mut i: usize = 0;
    while i < store.entries.len()
        invariant
            0 <= i <= store.entries@.len(),
            v == views_of(store.entries@),
            v.len() == store.entries@.len(),
            forall|j: int| 0 <= j < store.entries@.len() ==> v[j] == #[trigger] store.entries@[j]@,
            k == key@,
            views_of(r@) == escrows_matching_email(v.take(i as int), k),
        decreases store.entries@.len() - i,
    {
        let ghost pre = v.take(i as int);
        proof {
            assert(v.take(i as int + 1) =~= v.take(i as int).push(v[i as int]));
            lemma_matching_email_push(pre, v[i as int], k);
        }
        if str_eq(store.entries[i].email_key.as_str(), key.as_str()) {
            let e = store.entries[i].escrow.clone();
            r.push(e);
            proof {
                assert(v[i as int].email_key == k);
                assert(views_of(r@) =~= escrows_matching_email(pre, k).push(
                    v[i as int].escrow,
                ));
                assert(escrows_matching_email(v.take(i as int + 1), k)
                    == escrows_matching_email(pre, k).push(v[i as int].escrow));
            }
        } else {
            proof {
                assert(v[i as int].email_key != k);
                assert(escrows_matching_email(v.take(i as int + 1), k)
                    == escrows_matching_email(pre, k));
            }
        }
        i = i + 1;
    }
    proof {
        assert(v.take(v.len() as int) =~= v);
    }
    r
}

/// The balance-only projections of the escrows claimable under a recipient
/// email, in ascending id order; an empty normalized key yields an empty
/// result.
pub fn query_by_recepient_email_balance(store: &EscrowStore, email: &str) -> (r: Vec<
    BlindTransfersResponse,
>)
    ensures
        views_of(r@) == if normalized_of(email@).len() == 0 {
            Seq::<GenericBalanceView>::empty()
        } else {
            balances_matching_email(store@, normalized_of(email@))
        },
{
    let key = normalize_string(email);
    let ghost k = key@;
    if key.as_str().is_empty() {
        let r: Vec<BlindTransfersResponse> = Vec::new();
        proof {
            assert(views_of(r@) =~= Seq::<GenericBalanceView>::empty());
        }
        return r;
    }
    let ghost v = store@;
    proof {
        reveal(Seq::filter);
        assert(v.take(0) =~= Seq::<StoredEscrowView>::empty());
        assert(balances_matching_email(v.take(0), k) =~= Seq::<GenericBalanceView>::empty());
        assert(views_of(Seq::<BlindTransfersResponse>::empty()) =~= Seq::<
            GenericBalanceView,
        >::empty());
    }
    let mut r: Vec<BlindTransfersResponse> = Vec::new();
    let mut i: usize = 0;
    while i < store.entries.len()
        invariant
            0 <= i <= store.entries@.len(),
            v == views_of(store.entries@),
            v.len() == store.entries@.len(),
            forall|j: int| 0 <= j < store.entries@.len() ==> v[j] == #[trigger] store.entries@[j]@,
            k == key@,
            views_of(r@) == balances_matching_email(v.take(i as int), k),
        decreases store.entries@.len() - i,
    {
        let ghost pre = v.take(i as int);
        proof {
            assert(v.take(i as int + 1) =~= v.take(i as int).push(v[i as int]));
            lemma_matching_email_push(pre, v[i as int], k);
        }
        if str_eq(store.entries[i].email_key.as_str(), key.as_str()) {
            let resp = BlindTransfersResponse {
                native_balance: crate::balance::clone_coins(&store.entries[i].escrow.balance.native),
                cw20_balance: crate::balance::clone_cw20s(&store.entries[i].escrow.balance.cw20),
            };
            proof {
                assert(resp@ == v[i as int].escrow.balance);
            }
            r.push(resp);
            proof {
                assert(v[i as int].email_key == k);
                assert(views_of(r@) =~= balances_matching_email(pre, k).push(
                    v[i as int].escrow.balance,
                ));
                assert(balances_matching_email(v.take(i as int + 1), k)
                    == balances_matching_email(pre, k).push(v[i as int].escrow.balance));
            }
        } else {
            proof {
                assert(v[i as int].email_key != k);
                assert(balances_matching_email(v.take(i as int + 1), k)
                    == balances_matching_email(pre, k));
            }
        }
        i = i + 1;
    }
    proof {
        assert(v.take(v.len() as int) =~= v);
    }
    r
}

/// The escrows claimable under a recipient telegram id, in ascending id
/// order; an empty normalized key yields an empty result.
pub fn query_by_telegram_id(store: &EscrowStore, tg_id: &str) -> (r: Vec<Escrow>)
    ensures
        views_of(r@) == if normalized_of(tg_id@).len() == 0 {
            Seq::<EscrowView>::empty()
        } else {
            escrows_matching_telegram(store@, normalized_of(tg_id@))
        },
{
    let key = normalize_string(tg_id);
    let ghost k = key@;
    if key.as_str().is_empty() {
        let r: Vec<Escrow> = Vec::new();
        proof {
            assert(views_of(r@) =~= Seq::<EscrowView>::empty());
        }
        return r;
    }
    let ghost v = store@;
    proof {
        reveal(Seq::filter);
        assert(v.take(0) =~= Seq::<StoredEscrowView>::empty());
        assert(escrows_matching_telegram(v.take(0), k) =~= Seq::<EscrowView>::empty());
        assert(views_of(Seq::<Escrow>::empty()) =~= Seq::<EscrowView>::empty());
    }
    let mut r: Vec<Escrow> = Vec::new();
    let mut i: usize = 0;
    while i < store.entries.len()
        invariant
            0 <= i <= store.entries@.len(),
            v == views_of(store.entries@),
            v.len() == store.entries@.len(),
            forall|j: int| 0 <= j < store.entries@.len() ==> v[j] == #[trigger] store.entries@[j]@,
            k == key@,
            views_of(r@) == escrows_matching_telegram(v.take(i as int), k),
        decreases store.entries@.len() - i,
    {
        let ghost pre = v.take(i as int);
        proof {
            assert(v.take(i as int + 1) =~= v.take(i as int).push(v[i as int]));
            lemma_matching_telegram_push(pre, v[i as int], k);
        }
        if str_eq(store.entries[i].telegram_key.as_str(), key.as_str()) {
            let e = store.entries[i].escrow.clone();
            r.push(e);
            proof {
                assert(v[i as int].telegram_key == k);
                assert(views_of(r@) =~= escrows_matching_telegram(pre, k).push(
                    v[i as int].escrow,
                ));
                assert(escrows_matching_telegram(v.take(i as int + 1), k)
                    == escrows_matching_telegram(pre, k).push(v[i as int].escrow));
            }
        } else {
            proof {
                assert(v[i as int].telegram_key != k);
                assert(escrows_matching_telegram(v.take(i as int + 1), k)
                    == escrows_matching_telegram(pre, k));
            }
        }
        i = i + 1;
    }
    proof {
        assert(v.take(v.len() as int) =~= v);
    }
    r
}

/// The balance-only projections of the escrows claimable under a recipient
/// telegram id, in ascending id order; an empty normalized key yields an
/// empty result.
pub fn query_by_telegram_id_balance(store: &EscrowStore, tg_id: &str) -> (r: Vec<
    BlindTransfersResponse,
>)
    ensures
        views_of(r@) == if normalized_of(tg_id@).len() == 0 {
            Seq::<GenericBalanceView>::empty()
        } else {
            balances_matching_telegram(store@, normalized_of(tg_id@))
        },
{
    let key = normalize_string(tg_id);
    let ghost k = key@;
    if key.as_str().is_empty() {
        let r: Vec<BlindTransfersResponse> = Vec::new();
        proof {
            assert(views_of(r@) =~= Seq::<GenericBalanceView>::empty());
        }
        return r;
    }
    let ghost v = store@;
    proof {
        reveal(Seq::filter);
        assert(v.take(0) =~= Seq::<StoredEscrowView>::empty());
        assert(balances_matching_telegram(v.take(0), k) =~= Seq::<GenericBalanceView>::empty());
        assert(views_of(Seq::<BlindTransfersResponse>::empty()) =~= Seq::<
            GenericBalanceView,
        >::empty());
    }
    let mut r: Vec<BlindTransfersResponse> = Vec::new();
    let mut i: usize = 0;
    while i < store.entries.len()
        invariant
            0 <= i <= store.entries@.len(),
            v == views_of(store.entries@),
            v.len() == store.entries@.len(),
            forall|j: int| 0 <= j < store.entries@.len() ==> v[j] == #[trigger] store.entries@[j]@,
            k == key@,
            views_of(r@) == balances_matching_telegram(v.take(i as int), k),
        decreases store.entries@.len() - i,
    {
        let ghost pre = v.take(i as int);
        proof {
            assert(v.take(i as int + 1) =~= v.take(i as int).push(v[i as int]));
            lemma_matching_telegram_push(pre, v[i as int], k);
        }
        if str_eq(store.entries[i].telegram_key.as_str(), key.as_str()) {
            let resp = BlindTransfersResponse {
                native_balance: crate::balance::clone_coins(&store.entries[i].escrow.balance.native),
                cw20_balance: crate::balance::clone_cw20s(&store.entries[i].escrow.balance.cw20),
            };
            proof {
                assert(resp@ == v[i as int].escrow.balance);
            }
            r.push(resp);
            proof {
                assert(v[i as int].telegram_key == k);
                assert(views_of(r@) =~= balances_matching_telegram(pre, k).push(
                    v[i as int].escrow.balance,
                ));
                assert(balances_matching_telegram(v.take(i as int + 1), k)
                    == balances_matching_telegram(pre, k).push(v[i as int].escrow.balance));
            }
        } else {
            proof {
                assert(v[i as int].telegram_key != k);
                assert(balances_matching_telegram(v.take(i as int + 1), k)
                    == balances_matching_telegram(pre, k));
            }
        }
        i = i + 1;
    }
    proof {
        assert(v.take(v.len() as int) =~= v);
    }
    r
}

} // verus!
