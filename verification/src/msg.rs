//! Inbound operation messages, read-only query messages, and the response
//! projections the query service returns.

use vstd::prelude::*;
use vstd::string::StrSliceExecFns;
use vstd::string::StringSliceAdditionalSpecFns;

use crate::balance::{Coin, Cw20Coin, GenericBalanceView};
use crate::error::ContractError;
use crate::state::{clone_opt_string, clone_strings, opt_view, EscrowType, EscrowTypeView};
use crate::text::lemma_char_code;
use crate::views_of;

verus! {

/// The one-time bootstrap message; the initializing caller becomes the
/// arbiter.
pub struct InstantiateMsg {}

/// A request to open an escrow under a fresh id.
#[derive(Debug, PartialEq, Eq)]
pub struct CreateMsg {
    /// A human-readable name for the escrow.
    pub id: String,
    /// The kind of the escrow.
    pub escrow_type: EscrowType,
    /// If approved, funds go to the recipient.
    pub recipient: Option<String>,
    /// Email address of the recipient.
    pub recepient_email: Option<String>,
    /// Telegram id of the recipient.
    pub recepient_telegram_id: Option<String>,
    /// Telegram id of the source.
    pub source_telegram_id: Option<String>,
    /// Title of the escrow.
    pub title: String,
    /// Longer description of the escrow condition.
    pub description: String,
    /// Once the block height exceeds this value the escrow is expired.
    pub end_height: Option<u64>,
    /// Once the block time (seconds since the epoch) exceeds this value the
    /// escrow is expired.
    pub end_time: Option<u64>,
    /// The token contracts accepted during a top-up, besides the one the
    /// opening asset arrives from.
    pub cw20_whitelist: Option<Vec<String>>,
}

/// The model of a create request.
pub struct CreateMsgView {
    pub id: Seq<char>,
    pub escrow_type: EscrowTypeView,
    pub recipient: Option<Seq<char>>,
    pub recepient_email: Option<Seq<char>>,
    pub recepient_telegram_id: Option<Seq<char>>,
    pub source_telegram_id: Option<Seq<char>>,
    pub title: Seq<char>,
    pub description: Seq<char>,
    pub end_height: Option<u64>,
    pub end_time: Option<u64>,
    pub cw20_whitelist: Option<Seq<Seq<char>>>,
}

impl View for CreateMsg {
    type V = CreateMsgView;

    open spec fn view(&self) -> CreateMsgView {
        CreateMsgView {
            id: self.id@,
            escrow_type: self.escrow_type@,
            recipient: opt_view(self.recipient),
            recepient_email: opt_view(self.recepient_email),
            recepient_telegram_id: opt_view(self.recepient_telegram_id),
            source_telegram_id: opt_view(self.source_telegram_id),
            title: self.title@,
            description: self.description@,
            end_height: self.end_height,
            end_time: self.end_time,
            cw20_whitelist: match self.cw20_whitelist {
                Some(v) => Some(views_of(v@)),
                None => None,
            },
        }
    }
}

impl Clone for CreateMsg {
    fn clone(&self) -> (r: Self)
        ensures
            r@ == self@,
    {
        CreateMsg {
            id: self.id.clone(),
            escrow_type: self.escrow_type.clone(),
            recipient: clone_opt_string(&self.recipient),
            recepient_email: clone_opt_string(&self.recepient_email),
            recepient_telegram_id: clone_opt_string(&self.recepient_telegram_id),
            source_telegram_id: clone_opt_string(&self.source_telegram_id),
            title: self.title.clone(),
            description: self.description.clone(),
            end_height: self.end_height,
            end_time: self.end_time,
            cw20_whitelist: match &self.cw20_whitelist {
                Some(v) => Some(clone_strings(v)),
                None => None,
            },
        }
    }
}

/// A well-formed identity: between 3 and 54 characters, none of them an
/// uppercase ASCII letter (code points 65 through 90) — the shape the host's
/// plain address format accepts.
pub open spec fn spec_valid_identity(s: Seq<char>) -> bool {
    3 <= s.len() <= 54 && forall|i: int|
        0 <= i < s.len() ==> !(65 <= #[trigger] s[i] as int <= 90)
}

/// Decide whether an identity is well-formed.
pub fn is_valid_identity(s: &str) -> (r: bool)
    ensures
        r == spec_valid_identity(s@),
{
    let n = s.unicode_len();
    if n < 3 || n > 54 {
        return false;
    }
    let mut i: usize = 0;
    while i < n
        invariant
            0 <= i <= n,
            n == s@.len(),
            forall|j: int| 0 <= j < i ==> !(65 <= #[trigger] s@[j] as int <= 90),
        decreases n - i,
    {
        let c = s.get_char(i);
        proof {
            lemma_char_code(c);
        }
        let cu = c as u32;
        if 65 <= cu && cu <= 90 {
            return false;
        }
        i = i + 1;
    }
    true
}

/// Every entry of a supplied whitelist is a well-formed identity; an absent
/// whitelist holds nothing ill-formed.
pub open spec fn valid_whitelist(wl: Option<Seq<Seq<char>>>) -> bool {
    match wl {
        Some(list) => forall|i: int|
            0 <= i < list.len() ==> spec_valid_identity(#[trigger] list[i]),
        None => true,
    }
}

impl CreateMsg {
    /// The supplied whitelist with every entry checked to be a well-formed
    /// identity; an absent whitelist is the empty one.
    pub fn addr_whitelist(&self) -> (r: Result<Vec<String>, ContractError>)
        ensures
            r is Ok <==> valid_whitelist(self@.cw20_whitelist),
            r matches Ok(v) ==> views_of(v@) == match self@.cw20_whitelist {
                Some(list) => list,
                None => Seq::<Seq<char>>::empty(),
            },
            r matches Err(e) ==> e@ == crate::error::ContractErrorView::InvalidIdentity,
    {
        match &self.cw20_whitelist {
            None => {
                let r: Vec<String> = Vec::new();
                proof {
                    assert(views_of(r@) =~= Seq::<Seq<char>>::empty());
                }
                Ok(r)
            },
            Some(list) => {
                let ghost names = views_of(list@);
                let mut out: Vec<String> = Vec::new();
                let mut i: usize = 0;
                while i < list.len()
                    invariant
                        0 <= i <= list@.len(),
                        self@.cw20_whitelist == Some(names),
                        names == views_of(list@),
                        names.len() == list@.len(),
                        forall|j: int| 0 <= j < list@.len() ==> names[j] == #[trigger] list@[j]@,
                        out@.len() == i,
                        forall|j: int| 0 <= j < i ==> #[trigger] out@[j]@ == list@[j]@,
                        forall|j: int| 0 <= j < i ==> spec_valid_identity(#[trigger] names[j]),
                    decreases list@.len() - i,
                {
                    if !is_valid_identity(list[i].as_str()) {
                        proof {
                            match self@.cw20_whitelist {
                                Some(l) => {
                                    assert(l == names);
                                    assert(!spec_valid_identity(l[i as int]));
                                    assert(!(forall|j: int|
                                        0 <= j < l.len() ==> spec_valid_identity(
                                            #[trigger] l[j],
                                        )));
                                    assert(!valid_whitelist(self@.cw20_whitelist));
                                },
                                None => {},
                            }
                        }
                        return Err(ContractError::InvalidIdentity);
                    }
                    out.push(list[i].clone());
                    i = i + 1;
                }
                proof {
                    assert forall|j: int| 0 <= j < list@.len() implies views_of(out@)[j]
                        == names[j] by {
                        assert(out@[j]@ == list@[j]@);
                    }
                    assert(views_of(out@) =~= names);
                }
                Ok(out)
            },
        }
    }
}

/// An escrow id is well-formed when it has the length of a canonical textual
/// uuid.
pub open spec fn spec_is_valid_name(name: Seq<u8>) -> bool {
    name.len() == 36
}

/// Accept uuid-shaped strings as valid escrow names.
pub fn is_valid_name(name: &str) -> (r: bool)
    ensures
        r == spec_is_valid_name(name.spec_bytes()),
{
    let bytes = name.as_bytes();
    bytes.len() == 36
}

/// An operation embedded in a token-received notification: the token contract
/// hands over the sending identity and the amount, and this says what to do
/// with them.
pub enum ReceiveMsg {
    Create(CreateMsg),
    /// Add the received token amount to the escrow.
    TopUp { id: String },
}

/// A read-only query.
pub enum QueryMsg {
    /// All open escrow ids, ascending.
    ListAll {},
    /// The full projection of one escrow.
    Details { id: String },
    /// Balance-only projections of the blind transfers claimable by an
    /// identity.
    BlindTransfers { transfer_type: TransferTypeDetails },
}

/// The identity a blind-transfer lookup matches against.
pub enum TransferTypeDetails {
    Email { email: String },
    Telegram { id: String },
}

/// The response to a ListAll query: all registered ids, ascending.
#[derive(Debug, PartialEq, Eq)]
pub struct ListResponse {
    pub escrows: Vec<String>,
}

/// The response to a BlindTransfers query: one escrow's balances.
#[derive(Debug, PartialEq, Eq)]
pub struct BlindTransfersResponse {
    /// Balance in native coins.
    pub native_balance: Vec<Coin>,
    /// Balance in token amounts.
    pub cw20_balance: Vec<Cw20Coin>,
}

impl View for BlindTransfersResponse {
    type V = GenericBalanceView;

    open spec fn view(&self) -> GenericBalanceView {
        GenericBalanceView {
            native: views_of(self.native_balance@),
            cw20: views_of(self.cw20_balance@),
        }
    }
}

/// The response to a Details query: a full snapshot of one escrow.
#[derive(Debug, PartialEq, Eq)]
pub struct DetailsResponse {
    pub escrow_type: EscrowType,
    pub id: String,
    pub recipient: Option<String>,
    pub recepient_email: Option<String>,
    pub recepient_telegram_id: Option<String>,
    pub source: String,
    pub source_telegram_id: Option<String>,
    pub title: String,
    pub description: String,
    pub end_height: Option<u64>,
    pub end_time: Option<u64>,
    pub native_balance: Vec<Coin>,
    pub cw20_balance: Vec<Cw20Coin>,
    pub cw20_whitelist: Vec<String>,
}

/// The model of a details snapshot.
pub struct DetailsResponseView {
    pub escrow_type: EscrowTypeView,
    pub id: Seq<char>,
    pub recipient: Option<Seq<char>>,
    pub recepient_email: Option<Seq<char>>,
    pub recepient_telegram_id: Option<Seq<char>>,
    pub source: Seq<char>,
    pub source_telegram_id: Option<Seq<char>>,
    pub title: Seq<char>,
    pub description: Seq<char>,
    pub end_height: Option<u64>,
    pub end_time: Option<u64>,
    pub balance: GenericBalanceView,
    pub cw20_whitelist: Seq<Seq<char>>,
}

impl View for DetailsResponse {
    type V = DetailsResponseView;

    open spec fn view(&self) -> DetailsResponseView {
        DetailsResponseView {
            escrow_type: self.escrow_type@,
            id: self.id@,
            recipient: opt_view(self.recipient),
            recepient_email: opt_view(self.recepient_email),
            recepient_telegram_id: opt_view(self.recepient_telegram_id),
            source: self.source@,
            source_telegram_id: opt_view(self.source_telegram_id),
            title: self.title@,
            description: self.description@,
            end_height: self.end_height,
            end_time: self.end_time,
            balance: GenericBalanceView {
                native: views_of(self.native_balance@),
                cw20: views_of(self.cw20_balance@),
            },
            cw20_whitelist: views_of(self.cw20_whitelist@),
        }
    }
}

} // verus!
