//! The balance ledger: native coin amounts and fungible-token amounts merged
//! by key, with additive accumulation.
//!
//! The model of a balance is a sequence of lines, each a key (a native
//! denomination or a token contract's identity) with an amount. Merging an
//! incoming asset adds each incoming amount onto the line that already holds
//! its key, or appends a fresh line in first-seen order. For any key, the
//! amount held is the sum of all amounts ever submitted under it.

use vstd::prelude::*;
use vstd::pervasive::VecAdditionalExecFns;

use crate::text::str_eq;
use crate::views_of;

verus! {

/// One balance line as specifications see it: a key with the amount held
/// under it.
pub struct BalanceLine {
    pub key: Seq<char>,
    pub amount: nat,
}

/// A native coin: an amount of one denomination.
#[derive(Debug, PartialEq, Eq)]
pub struct Coin {
    pub denom: String,
    pub amount: u128,
}

impl View for Coin {
    type V = BalanceLine;

    open spec fn view(&self) -> BalanceLine {
        BalanceLine { key: self.denom@, amount: self.amount as nat }
    }
}

impl Clone for Coin {
    fn clone(&self) -> (r: Self)
        ensures
            r@ == self@,
    {
        Coin { denom: self.denom.clone(), amount: self.amount }
    }
}

/// A fungible-token amount, held against the token contract's identity.
#[derive(Debug, PartialEq, Eq)]
pub struct Cw20Coin {
    pub address: String,
    pub amount: u128,
}

impl View for Cw20Coin {
    type V = BalanceLine;

    open spec fn view(&self) -> BalanceLine {
        BalanceLine { key: self.address@, amount: self.amount as nat }
    }
}

impl Clone for Cw20Coin {
    fn clone(&self) -> (r: Self)
        ensures
            r@ == self@,
    {
        Cw20Coin { address: self.address.clone(), amount: self.amount }
    }
}

/// An asset attached to an inbound operation: either a batch of native coins
/// or a single fungible-token amount.
#[derive(Debug, PartialEq, Eq)]
pub enum Balance {
    Native(Vec<Coin>),
    Cw20(Cw20Coin),
}

/// The model of an attached asset.
pub enum BalanceView {
    Native(Seq<BalanceLine>),
    Cw20(BalanceLine),
}

impl View for Balance {
    type V = BalanceView;

    open spec fn view(&self) -> BalanceView {
        match self {
            Balance::Native(coins) => BalanceView::Native(views_of(coins@)),
            Balance::Cw20(token) => BalanceView::Cw20(token@),
        }
    }
}

/// Every line's amount is zero.
pub open spec fn all_zero(s: Seq<BalanceLine>) -> bool {
    forall|i: int| 0 <= i < s.len() ==> s[i].amount == 0
}

/// An asset's total value is zero.
pub open spec fn value_zero(b: BalanceView) -> bool {
    match b {
        BalanceView::Native(lines) => all_zero(lines),
        BalanceView::Cw20(line) => line.amount == 0,
    }
}

impl Balance {
    /// An asset is empty when its total value is zero.
    pub open spec fn spec_is_empty(&self) -> bool {
        value_zero(self@)
    }

    /// Decide whether the asset's total value is zero.
    pub fn is_empty(&self) -> (r: bool)
        ensures
            r == self.spec_is_empty(),
    {
        match self {
            Balance::Native(coins) => coins_all_zero(coins),
            Balance::Cw20(token) => token.amount == 0,
        }
    }
}

/// Decide whether every coin of a batch carries a zero amount.
fn coins_all_zero(coins: &Vec<Coin>) -> (r: bool)
    ensures
        r == all_zero(views_of(coins@)),
{
    let ghost lines = views_of(coins@);
    let mut i: usize = 0;
    while i < coins.len()
        invariant
            0 <= i <= coins@.len(),
            lines == views_of(coins@),
            lines.len() == coins@.len(),
            forall|j: int| 0 <= j < coins@.len() ==> lines[j] == #[trigger] coins@[j]@,
            forall|j: int| 0 <= j < i ==> lines[j].amount == 0,
        decreases coins@.len() - i,
    {
        if coins[i].amount != 0 {
            proof {
                assert(lines[i as int].amount != 0);
            }
            return false;
        }
        i = i + 1;
    }
    true
}

/// The amount a sequence of lines holds under a key: the sum of the amounts
/// of every line with that key.
pub open spec fn amount_of(s: Seq<BalanceLine>, key: Seq<char>) -> int
    decreases s.len(),
{
    if s.len() == 0 {
        0
    } else {
        (if s[0].key == key {
            s[0].amount as int
        } else {
            0
        }) + amount_of(s.skip(1), key)
    }
}

/// No two lines share a key.
pub open spec fn keys_unique(s: Seq<BalanceLine>) -> bool {
    forall|i: int, j: int| 0 <= i < j < s.len() ==> s[i].key != s[j].key
}

/// Some line holds the key.
pub open spec fn has_key(s: Seq<BalanceLine>, key: Seq<char>) -> bool {
    exists|i: int| 0 <= i < s.len() && s[i].key == key
}

/// The position of the first line holding the key.
pub open spec fn first_key_index(s: Seq<BalanceLine>, key: Seq<char>) -> int
    decreases s.len(),
{
    if s.len() == 0 {
        0
    } else if s[0].key == key {
        0
    } else {
        1 + first_key_index(s.skip(1), key)
    }
}

/// Merging one incoming line: add its amount onto the first line with the
/// same key, or append it as a fresh line.
pub open spec fn add_line(cur: Seq<BalanceLine>, l: BalanceLine) -> Seq<BalanceLine> {
    if has_key(cur, l.key) {
        let i = first_key_index(cur, l.key);
        cur.update(i, BalanceLine { key: cur[i].key, amount: (cur[i].amount + l.amount) as nat })
    } else {
        cur.push(l)
    }
}

/// Merging a batch of incoming lines, in order.
pub open spec fn merge_lines(cur: Seq<BalanceLine>, add: Seq<BalanceLine>) -> Seq<BalanceLine>
    decreases add.len(),
{
    if add.len() == 0 {
        cur
    } else {
        merge_lines(add_line(cur, add[0]), add.skip(1))
    }
}

/// Where the first line with a key stands, and that nothing before it holds
/// the key.
pub proof fn lemma_first_key_index(s: Seq<BalanceLine>, key: Seq<char>)
    requires
        has_key(s, key),
    ensures
        0 <= first_key_index(s, key) < s.len(),
        s[first_key_index(s, key)].key == key,
        forall|j: int| 0 <= j < first_key_index(s, key) ==> s[j].key != key,
    decreases s.len(),
{
    if s.len() > 0 && s[0].key != key {
        assert(has_key(s.skip(1), key)) by {
            let i = choose|i: int| 0 <= i < s.len() && s[i].key == key;
            assert(s.skip(1)[i - 1] == s[i]);
        }
        lemma_first_key_index(s.skip(1), key);
        assert forall|j: int| 0 <= j < first_key_index(s, key) implies s[j].key != key by {
            if j >= 1 {
                assert(s.skip(1)[j - 1] == s[j]);
            }
        }
    }
}

/// A position whose line holds the key, with no earlier line holding it, is
/// the first position with the key.
pub proof fn lemma_first_key_index_char(s: Seq<BalanceLine>, key: Seq<char>, i: int)
    requires
        0 <= i < s.len(),
        s[i].key == key,
        forall|j: int| 0 <= j < i ==> s[j].key != key,
    ensures
        first_key_index(s, key) == i,
        has_key(s, key),
    decreases s.len(),
{
    if s[0].key != key {
        assert forall|j: int| 0 <= j < i - 1 implies s.skip(1)[j].key != key by {
            assert(s.skip(1)[j] == s[j + 1]);
        }
        assert(s.skip(1)[i - 1] == s[i]);
        lemma_first_key_index_char(s.skip(1), key, i - 1);
    }
}

/// Appending a line adds its amount under its key and nothing else.
pub proof fn lemma_amount_of_push(s: Seq<BalanceLine>, l: BalanceLine, key: Seq<char>)
    ensures
        amount_of(s.push(l), key) == amount_of(s, key) + (if l.key == key {
            l.amount as int
        } else {
            0
        }),
    decreases s.len(),
{
    if s.len() == 0 {
        assert(s.push(l)[0] == l);
        assert(s.push(l).skip(1) =~= Seq::<BalanceLine>::empty());
        assert(amount_of(s.push(l).skip(1), key) == 0);
    } else {
        assert(s.push(l)[0] == s[0]);
        assert(s.push(l).skip(1) =~= s.skip(1).push(l));
        lemma_amount_of_push(s.skip(1), l, key);
    }
}

/// Raising one line's amount raises the amount under its key by as much and
/// changes nothing else.
pub proof fn lemma_amount_of_update(s: Seq<BalanceLine>, i: int, add: nat, key: Seq<char>)
    requires
        0 <= i < s.len(),
    ensures
        amount_of(
            s.update(i, BalanceLine { key: s[i].key, amount: (s[i].amount + add) as nat }),
            key,
        ) == amount_of(s, key) + (if s[i].key == key {
            add as int
        } else {
            0
        }),
    decreases s.len(),
{
    let t = s.update(i, BalanceLine { key: s[i].key, amount: (s[i].amount + add) as nat });
    if i == 0 {
        assert(t.skip(1) =~= s.skip(1));
    } else {
        assert(t.skip(1) =~= s.skip(1).update(
            i - 1,
            BalanceLine { key: s.skip(1)[i - 1].key, amount: (s.skip(1)[i - 1].amount + add) as nat },
        ));
        lemma_amount_of_update(s.skip(1), i - 1, add, key);
    }
}

/// A line's own amount never exceeds the amount held under its key.
pub proof fn lemma_line_le_amount(s: Seq<BalanceLine>, i: int, key: Seq<char>)
    requires
        0 <= i < s.len(),
        s[i].key == key,
    ensures
        s[i].amount as int <= amount_of(s, key),
        amount_of(s, key) >= 0,
    decreases s.len(),
{
    lemma_amount_of_nonneg(s.skip(1), key);
    if i > 0 {
        assert(s.skip(1)[i - 1] == s[i]);
        lemma_line_le_amount(s.skip(1), i - 1, key);
    }
}

/// The amount under any key is never negative.
pub proof fn lemma_amount_of_nonneg(s: Seq<BalanceLine>, key: Seq<char>)
    ensures
        amount_of(s, key) >= 0,
    decreases s.len(),
{
    if s.len() > 0 {
        lemma_amount_of_nonneg(s.skip(1), key);
    }
}

/// Merging one line adds its amount under its key and nothing else.
pub proof fn lemma_add_line_amount(cur: Seq<BalanceLine>, l: BalanceLine, key: Seq<char>)
    ensures
        amount_of(add_line(cur, l), key) == amount_of(cur, key) + (if l.key == key {
            l.amount as int
        } else {
            0
        }),
{
    if has_key(cur, l.key) {
        lemma_first_key_index(cur, l.key);
        lemma_amount_of_update(cur, first_key_index(cur, l.key), l.amount, key);
    } else {
        lemma_amount_of_push(cur, l, key);
    }
}

/// Merging one line keeps keys unique.
pub proof fn lemma_add_line_unique(cur: Seq<BalanceLine>, l: BalanceLine)
    requires
        keys_unique(cur),
    ensures
        keys_unique(add_line(cur, l)),
{
    if has_key(cur, l.key) {
        lemma_first_key_index(cur, l.key);
    }
}

/// Merging a batch one line at a time, from the left.
pub proof fn lemma_merge_lines_push(cur: Seq<BalanceLine>, add: Seq<BalanceLine>, l: BalanceLine)
    ensures
        merge_lines(cur, add.push(l)) == add_line(merge_lines(cur, add), l),
    decreases add.len(),
{
    if add.len() == 0 {
        assert(add.push(l)[0] == l);
        assert(add.push(l).skip(1) =~= Seq::<BalanceLine>::empty());
        assert(merge_lines(cur, add.push(l)) == merge_lines(
            add_line(cur, l),
            add.push(l).skip(1),
        ));
        assert(merge_lines(add_line(cur, l), add.push(l).skip(1)) == add_line(cur, l));
        assert(merge_lines(cur, add) == cur);
    } else {
        assert(add.push(l)[0] == add[0]);
        assert(add.push(l).skip(1) =~= add.skip(1).push(l));
        assert(merge_lines(cur, add.push(l)) == merge_lines(
            add_line(cur, add[0]),
            add.skip(1).push(l),
        ));
        lemma_merge_lines_push(add_line(cur, add[0]), add.skip(1), l);
        assert(merge_lines(cur, add) == merge_lines(add_line(cur, add[0]), add.skip(1)));
    }
}

/// Conservation over one merge: for every key, the merged amount is the sum
/// of what was held and what the batch submitted under that key.
pub proof fn lemma_merge_lines_amount(cur: Seq<BalanceLine>, add: Seq<BalanceLine>, key: Seq<char>)
    ensures
        amount_of(merge_lines(cur, add), key) == amount_of(cur, key) + amount_of(add, key),
    decreases add.len(),
{
    if add.len() > 0 {
        lemma_add_line_amount(cur, add[0], key);
        lemma_merge_lines_amount(add_line(cur, add[0]), add.skip(1), key);
    }
}

/// Merging a batch keeps keys unique.
pub proof fn lemma_merge_lines_unique(cur: Seq<BalanceLine>, add: Seq<BalanceLine>)
    requires
        keys_unique(cur),
    ensures
        keys_unique(merge_lines(cur, add)),
    decreases add.len(),
{
    if add.len() > 0 {
        lemma_add_line_unique(cur, add[0]);
        lemma_merge_lines_unique(add_line(cur, add[0]), add.skip(1));
    }
}

/// The balance after a sequence of merges, applied in order.
pub open spec fn apply_merges(b: Seq<BalanceLine>, assets: Seq<Seq<BalanceLine>>) -> Seq<
    BalanceLine,
>
    decreases assets.len(),
{
    if assets.len() == 0 {
        b
    } else {
        apply_merges(merge_lines(b, assets[0]), assets.skip(1))
    }
}

/// The total amount a sequence of assets submits under a key.
pub open spec fn total_submitted(assets: Seq<Seq<BalanceLine>>, key: Seq<char>) -> int
    decreases assets.len(),
{
    if assets.len() == 0 {
        0
    } else {
        amount_of(assets[0], key) + total_submitted(assets.skip(1), key)
    }
}

/// Conservation: after any sequence of merges, the amount held under each key
/// equals the amount held at the start plus the sum of all amounts submitted
/// under that key.
pub proof fn lemma_conservation(
    b: Seq<BalanceLine>,
    assets: Seq<Seq<BalanceLine>>,
    key: Seq<char>,
)
    ensures
        amount_of(apply_merges(b, assets), key) == amount_of(b, key) + total_submitted(
            assets,
            key,
        ),
    decreases assets.len(),
{
    if assets.len() > 0 {
        lemma_merge_lines_amount(b, assets[0], key);
        lemma_conservation(merge_lines(b, assets[0]), assets.skip(1), key);
    }
}

/// Removing one asset from a sequence removes exactly its contribution from
/// the total.
proof fn lemma_total_submitted_remove(assets: Seq<Seq<BalanceLine>>, j: int, key: Seq<char>)
    requires
        0 <= j < assets.len(),
    ensures
        total_submitted(assets, key) == total_submitted(assets.remove(j), key) + amount_of(
            assets[j],
            key,
        ),
    decreases assets.len(),
{
    if j == 0 {
        assert(assets.remove(0) =~= assets.skip(1));
    } else {
        assert(assets.remove(j).skip(1) =~= assets.skip(1).remove(j - 1));
        assert(assets.remove(j)[0] == assets[0]);
        assert(assets.skip(1)[j - 1] == assets[j]);
        lemma_total_submitted_remove(assets.skip(1), j - 1, key);
    }
}

/// The total submitted under a key does not depend on the order the assets
/// came in: any two sequences made of the same assets submit the same total.
pub proof fn lemma_total_submitted_permutation(
    a1: Seq<Seq<BalanceLine>>,
    a2: Seq<Seq<BalanceLine>>,
    key: Seq<char>,
)
    requires
        a1.to_multiset() == a2.to_multiset(),
    ensures
        total_submitted(a1, key) == total_submitted(a2, key),
    decreases a1.len(),
{
    broadcast use vstd::seq_lib::group_seq_lib_default;

    a1.to_multiset_ensures();
    a2.to_multiset_ensures();
    if a1.len() == 0 {
        assert(a2.len() == 0);
    } else {
        let x = a1[0];
        assert(a1.contains(x));
        assert(a1.to_multiset().count(x) > 0);
        assert(a2.contains(x));
        let j = choose|j: int| 0 <= j < a2.len() && a2[j] == x;
        assert(a1.remove(0).to_multiset() == a1.to_multiset().remove(x));
        assert(a2.remove(j).to_multiset() == a2.to_multiset().remove(x));
        lemma_total_submitted_permutation(a1.remove(0), a2.remove(j), key);
        lemma_total_submitted_remove(a1, 0, key);
        lemma_total_submitted_remove(a2, j, key);
    }
}

/// The merged amounts do not depend on the order the assets came in: two
/// sequences made of the same assets, merged into the same starting balance,
/// hold the same amount under every key (only the first-seen line order may
/// differ).
pub proof fn lemma_merge_order_independent(
    b: Seq<BalanceLine>,
    a1: Seq<Seq<BalanceLine>>,
    a2: Seq<Seq<BalanceLine>>,
    key: Seq<char>,
)
    requires
        a1.to_multiset() == a2.to_multiset(),
    ensures
        amount_of(apply_merges(b, a1), key) == amount_of(apply_merges(b, a2), key),
{
    lemma_conservation(b, a1, key);
    lemma_conservation(b, a2, key);
    lemma_total_submitted_permutation(a1, a2, key);
}

/// The aggregate balance of one escrow: native lines and token lines, merged
/// by key, in first-seen order.
#[derive(Debug, PartialEq, Eq)]
pub struct GenericBalance {
    pub native: Vec<Coin>,
    pub cw20: Vec<Cw20Coin>,
}

/// The model of an aggregate balance.
pub struct GenericBalanceView {
    pub native: Seq<BalanceLine>,
    pub cw20: Seq<BalanceLine>,
}

impl View for GenericBalance {
    type V = GenericBalanceView;

    open spec fn view(&self) -> GenericBalanceView {
        GenericBalanceView { native: views_of(self.native@), cw20: views_of(self.cw20@) }
    }
}

impl Clone for GenericBalance {
    fn clone(&self) -> (r: Self)
        ensures
            r@ == self@,
    {
        let r = GenericBalance { native: clone_coins(&self.native), cw20: clone_cw20s(&self.cw20) };
        proof {
            assert(r@.native =~= self@.native);
            assert(r@.cw20 =~= self@.cw20);
        }
        r
    }
}

impl Default for GenericBalance {
    /// An aggregate balance with no lines.
    fn default() -> (r: Self)
        ensures
            r@.native =~= Seq::<BalanceLine>::empty(),
            r@.cw20 =~= Seq::<BalanceLine>::empty(),
    {
        GenericBalance { native: Vec::new(), cw20: Vec::new() }
    }
}

impl GenericBalance {
    /// An aggregate balance with no lines.
    pub fn new() -> (r: Self)
        ensures
            r@.native =~= Seq::<BalanceLine>::empty(),
            r@.cw20 =~= Seq::<BalanceLine>::empty(),
    {
        GenericBalance { native: Vec::new(), cw20: Vec::new() }
    }

    /// Both line sequences hold no two lines with the same key.
    pub open spec fn wf(&self) -> bool {
        keys_unique(self@.native) && keys_unique(self@.cw20)
    }

    /// Merge an incoming asset into the aggregate balance: for each incoming
    /// amount, add it onto the line already holding its key, or append a new
    /// line in first-seen order. For every key, the amount held afterwards is
    /// the amount held before plus the amount submitted.
    pub fn add_tokens(&mut self, add: Balance)
        requires
            match add {
                Balance::Native(coins) => forall|k: Seq<char>|
                    amount_of(old(self)@.native, k) + amount_of(views_of(coins@), k)
                        <= u128::MAX,
                Balance::Cw20(token) => amount_of(old(self)@.cw20, token.address@)
                    + token.amount <= u128::MAX,
            },
        ensures
            final(self)@.native == match add {
                Balance::Native(coins) => merge_lines(old(self)@.native, views_of(coins@)),
                Balance::Cw20(_) => old(self)@.native,
            },
            final(self)@.cw20 == match add {
                Balance::Native(_) => old(self)@.cw20,
                Balance::Cw20(token) => add_line(old(self)@.cw20, token@),
            },
            old(self).wf() ==> final(self).wf(),
            forall|k: Seq<char>|
                amount_of(final(self)@.native, k) == amount_of(old(self)@.native, k)
                    + (match add {
                    Balance::Native(coins) => amount_of(views_of(coins@), k),
                    Balance::Cw20(_) => 0,
                }),
            forall|k: Seq<char>|
                amount_of(final(self)@.cw20, k) == amount_of(old(self)@.cw20, k) + (match add {
                    Balance::Native(_) => 0,
                    Balance::Cw20(token) => if token.address@ == k {
                        token.amount as int
                    } else {
                        0
                    },
                }),
    {
        match add {
            Balance::Native(coins) => {
                let ghost orig = self@.native;
                let ghost incoming = views_of(coins@);
                proof {
                    assert(incoming.take(0) =~= Seq::<BalanceLine>::empty());
                    assert(merge_lines(orig, incoming.take(0)) == orig);
                    assert(incoming.skip(0) =~= incoming);
                }
                let mut i: usize = 0;
                while i < coins.len()
                    invariant
                        0 <= i <= coins@.len(),
                        incoming == views_of(coins@),
                        incoming.len() == coins@.len(),
                        forall|j: int| 0 <= j < coins@.len() ==> incoming[j] == #[trigger] coins@[j]@,
                        self@.native == merge_lines(orig, incoming.take(i as int)),
                        self@.cw20 == old(self)@.cw20,
                        self.cw20 == old(self).cw20,
                        forall|k: Seq<char>|
                            amount_of(self@.native, k) + amount_of(incoming.skip(i as int), k)
                                <= u128::MAX,
                    decreases coins@.len() - i,
                {
                    let ghost pre = self@.native;
                    let ghost line = incoming[i as int];
                    proof {
                        assert(incoming.skip(i as int)[0] == line);
                        assert(incoming.skip(i as int).skip(1) =~= incoming.skip(i as int + 1));
                        lemma_amount_of_nonneg(incoming.skip(i as int + 1), line.key);
                        lemma_amount_of_nonneg(pre, line.key);
                    }
                    let c = &coins[i];
                    let pos = find_coin_index(&self.native, &c.denom);
                    match pos {
                        Some(idx) => {
                            let cur_amt = self.native[idx].amount;
                            proof {
                                lemma_first_key_index(pre, line.key);
                                lemma_line_le_amount(pre, idx as int, line.key);
                                assert(amount_of(incoming.skip(i as int), line.key) >= line.amount as int);
                            }
                            let denom = self.native[idx].denom.clone();
                            self.native.set(idx, Coin { denom, amount: cur_amt + c.amount });
                            proof {
                                assert(views_of(self.native@) =~= pre.update(
                                    idx as int,
                                    BalanceLine {
                                        key: pre[idx as int].key,
                                        amount: (pre[idx as int].amount + line.amount) as nat,
                                    },
                                ));
                                assert(views_of(self.native@) == add_line(pre, line));
                            }
                        },
                        None => {
                            self.native.push(c.clone());
                            proof {
                                assert(views_of(self.native@) =~= pre.push(line));
                                assert(views_of(self.native@) == add_line(pre, line));
                            }
                        },
                    }
                    proof {
                        assert(incoming.take(i as int + 1) =~= incoming.take(i as int).push(line));
                        lemma_merge_lines_push(orig, incoming.take(i as int), line);
                        assert(self@.native == merge_lines(orig, incoming.take(i as int + 1)));
                        assert forall|k: Seq<char>|
                            amount_of(self@.native, k) + amount_of(
                                incoming.skip(i as int + 1),
                                k,
                            ) <= u128::MAX by {
                            lemma_add_line_amount(pre, line, k);
                        }
                    }
                    i = i + 1;
                }
                proof {
                    assert(incoming.take(coins@.len() as int) =~= incoming);
                    assert forall|k: Seq<char>|
                        amount_of(self@.native, k) == amount_of(orig, k) + amount_of(
                            incoming,
                            k,
                        ) by {
                        lemma_merge_lines_amount(orig, incoming, k);
                    }
                    if keys_unique(orig) {
                        lemma_merge_lines_unique(orig, incoming);
                    }
                }
            },
            Balance::Cw20(token) => {
                let ghost pre = self@.cw20;
                let ghost line = token@;
                let pos = find_cw20_index(&self.cw20, &token.address);
                match pos {
                    Some(idx) => {
                        let cur_amt = self.cw20[idx].amount;
                        proof {
                            lemma_first_key_index(pre, line.key);
                            lemma_line_le_amount(pre, idx as int, line.key);
                        }
                        let address = self.cw20[idx].address.clone();
                        self.cw20.set(idx, Cw20Coin { address, amount: cur_amt + token.amount });
                        proof {
                            assert(views_of(self.cw20@) =~= pre.update(
                                idx as int,
                                BalanceLine {
                                    key: pre[idx as int].key,
                                    amount: (pre[idx as int].amount + line.amount) as nat,
                                },
                            ));
                            assert(views_of(self.cw20@) == add_line(pre, line));
                        }
                    },
                    None => {
                        self.cw20.push(token);
                        proof {
                            assert(views_of(self.cw20@) =~= pre.push(line));
                            assert(views_of(self.cw20@) == add_line(pre, line));
                        }
                    },
                }
                proof {
                    assert forall|k: Seq<char>|
                        amount_of(self@.cw20, k) == amount_of(pre, k) + (if line.key == k {
                            line.amount as int
                        } else {
                            0
                        }) by {
                        lemma_add_line_amount(pre, line, k);
                    }
                    if keys_unique(pre) {
                        lemma_add_line_unique(pre, line);
                    }
                }
            },
        }
    }
}

/// The position of the first native line with the denomination, if any.
fn find_coin_index(v: &Vec<Coin>, denom: &String) -> (r: Option<usize>)
    ensures
        match r {
            Some(i) => i < v@.len() && has_key(views_of(v@), denom@) && first_key_index(
                views_of(v@),
                denom@,
            ) == i as int,
            None => !has_key(views_of(v@), denom@),
        },
{
    let ghost lines = views_of(v@);
    let mut i: usize = 0;
    while i < v.len()
        invariant
            0 <= i <= v@.len(),
            lines == views_of(v@),
            lines.len() == v@.len(),
            forall|j: int| 0 <= j < v@.len() ==> lines[j] == #[trigger] v@[j]@,
            forall|j: int| 0 <= j < i ==> lines[j].key != denom@,
        decreases v@.len() - i,
    {
        if str_eq(v[i].denom.as_str(), denom.as_str()) {
            proof {
                lemma_first_key_index_char(lines, denom@, i as int);
            }
            return Some(i);
        }
        i = i + 1;
    }
    None
}

/// The position of the first token line with the contract identity, if any.
fn find_cw20_index(v: &Vec<Cw20Coin>, address: &String) -> (r: Option<usize>)
    ensures
        match r {
            Some(i) => i < v@.len() && has_key(views_of(v@), address@) && first_key_index(
                views_of(v@),
                address@,
            ) == i as int,
            None => !has_key(views_of(v@), address@),
        },
{
    let ghost lines = views_of(v@);
    let mut i: usize = 0;
    while i < v.len()
        invariant
            0 <= i <= v@.len(),
            lines == views_of(v@),
            lines.len() == v@.len(),
            forall|j: int| 0 <= j < v@.len() ==> lines[j] == #[trigger] v@[j]@,
            forall|j: int| 0 <= j < i ==> lines[j].key != address@,
        decreases v@.len() - i,
    {
        if str_eq(v[i].address.as_str(), address.as_str()) {
            proof {
                lemma_first_key_index_char(lines, address@, i as int);
            }
            return Some(i);
        }
        i = i + 1;
    }
    None
}

/// A copy of a native coin batch, line for line.
pub fn clone_coins(v: &Vec<Coin>) -> (r: Vec<Coin>)
    ensures
        views_of(r@) =~= views_of(v@),
        r@.len() == v@.len(),
{
    let mut r: Vec<Coin> = Vec::new();
    let mut i: usize = 0;
    while i < v.len()
        invariant
            0 <= i <= v@.len(),
            r@.len() == i,
            forall|j: int| 0 <= j < i ==> #[trigger] r@[j]@ == v@[j]@,
        decreases v@.len() - i,
    {
        r.push(v[i].clone());
        i = i + 1;
    }
    proof {
        assert forall|j: int| 0 <= j < v@.len() implies views_of(r@)[j] == views_of(v@)[j] by {
            assert(r@[j]@ == v@[j]@);
        }
    }
    r
}

/// A copy of a token line batch, line for line.
pub fn clone_cw20s(v: &Vec<Cw20Coin>) -> (r: Vec<Cw20Coin>)
    ensures
        views_of(r@) =~= views_of(v@),
        r@.len() == v@.len(),
{
    let mut r: Vec<Cw20Coin> = Vec::new();
    let mut i: usize = 0;
    while i < v.len()
        invariant
            0 <= i <= v@.len(),
            r@.len() == i,
            forall|j: int| 0 <= j < i ==> #[trigger] r@[j]@ == v@[j]@,
        decreases v@.len() - i,
    {
        r.push(v[i].clone());
        i = i + 1;
    }
    proof {
        assert forall|j: int| 0 <= j < v@.len() implies views_of(r@)[j] == views_of(v@)[j] by {
            assert(r@[j]@ == v@[j]@);
        }
    }
    r
}

} // verus!
