//! Classification of net transfer groups into accounting categories.
//!
//! A group's category comes from an operator-supplied table keyed by event
//! identifier and by counterparty address.  A group mapped to `"Swap"` is
//! refined into a [`SwapSubCategory`] by structural rules, tried in the
//! order two-asset, debt, simple; when none fits, the swap stays
//! [`SwapSubCategory::UnknownSwap`].  A group with no table entry is
//! [`TransactionCategory::Unknown`].

use vstd::prelude::*;

use crate::amount::{abs_int, tdiv, Amount, USD_LIMIT};
use crate::token::{Token, TokenV};
use crate::transfer::{views, Transfer, TransferDirection, TransferV};

verus! {

/// Whether a swap leg was bought or sold.
#[derive(Clone, Copy, PartialEq, Eq, Structural, Debug)]
pub enum SwapDirection {
    Purchase,
    Sale,
    Unknown,
}

impl Default for SwapDirection {
    fn default() -> (r: Self)
        ensures
            r is Unknown,
    {
        SwapDirection::Unknown
    }
}

impl From<TransferDirection> for SwapDirection {
    fn from(direction: TransferDirection) -> (r: Self) {
        match direction {
            TransferDirection::Incoming => SwapDirection::Purchase,
            TransferDirection::Outgoing => SwapDirection::Sale,
        }
    }
}

impl vstd::std_specs::convert::FromSpecImpl<TransferDirection> for SwapDirection {
    open spec fn obeys_from_spec() -> bool {
        true
    }

    open spec fn from_spec(direction: TransferDirection) -> Self {
        match direction {
            TransferDirection::Incoming => SwapDirection::Purchase,
            TransferDirection::Outgoing => SwapDirection::Sale,
        }
    }
}

/// Whether a debt swap opens or settles a liability.
#[derive(Clone, Copy, PartialEq, Eq, Structural, Debug)]
pub enum DebtDirection {
    Borrow,
    Repayment,
    Unknown,
}

impl Default for DebtDirection {
    fn default() -> (r: Self)
        ensures
            r is Unknown,
    {
        DebtDirection::Unknown
    }
}

/// Mathematical image of a [`DebtSwap`].
pub struct DebtSwapV {
    pub direction: DebtDirection,
    pub debt_token: TokenV,
    pub debt_value: int,
    pub token: TokenV,
    pub value: int,
}

/// A two-leg swap that opens or settles a debt position.
pub struct DebtSwap {
    /// Whether the liability is borrowed or repaid.
    pub direction: DebtDirection,
    /// Debt token.
    pub debt_token: Token,
    /// Signed value of the debt leg.
    pub debt_value: Amount,
    /// The token borrowed or used to repay.
    pub token: Token,
    /// Signed value of the asset leg.
    pub value: Amount,
}

impl View for DebtSwap {
    type V = DebtSwapV;

    open spec fn view(&self) -> DebtSwapV {
        DebtSwapV {
            direction: self.direction,
            debt_token: self.debt_token@,
            debt_value: self.debt_value@,
            token: self.token@,
            value: self.value@,
        }
    }
}

/// Mathematical image of a [`TwoAssetSwap`].
pub struct TwoAssetSwapV {
    pub cost_basis: int,
    pub token_purchased: TokenV,
    pub token_sold: TokenV,
    pub value_purchased: int,
    pub value_sold: int,
}

/// A swap of one asset for another.
pub struct TwoAssetSwap {
    /// Total USD cost basis for the transaction.
    pub cost_basis: Amount,
    /// Token purchased.
    pub token_purchased: Token,
    /// Token sold.
    pub token_sold: Token,
    /// Signed value of the token purchased.
    pub value_purchased: Amount,
    /// Signed value of the token sold.
    pub value_sold: Amount,
}

impl View for TwoAssetSwap {
    type V = TwoAssetSwapV;

    open spec fn view(&self) -> TwoAssetSwapV {
        TwoAssetSwapV {
            cost_basis: self.cost_basis@,
            token_purchased: self.token_purchased@,
            token_sold: self.token_sold@,
            value_purchased: self.value_purchased@,
            value_sold: self.value_sold@,
        }
    }
}

/// Mathematical image of a [`SimpleSwap`].
pub struct SimpleSwapV {
    pub direction: SwapDirection,
    pub cost_basis: int,
    pub token: TokenV,
    pub value: int,
}

/// A two-leg swap against a statically USD-priced asset.
pub struct SimpleSwap {
    /// Whether the asset leg was purchased or sold.
    pub direction: SwapDirection,
    /// USD cost basis, taken from the USD-priced leg.
    pub cost_basis: Amount,
    /// Token of the asset leg.
    pub token: Token,
    /// Signed value of the asset leg.
    pub value: Amount,
}

impl View for SimpleSwap {
    type V = SimpleSwapV;

    open spec fn view(&self) -> SimpleSwapV {
        SimpleSwapV {
            direction: self.direction,
            cost_basis: self.cost_basis@,
            token: self.token@,
            value: self.value@,
        }
    }
}

/// Mathematical image of a [`SwapSubCategory`].
pub enum SwapSubCategoryV {
    Simple(SimpleSwapV),
    TwoAsset(TwoAssetSwapV),
    Debt(DebtSwapV),
    UnknownSwap,
}

/// Granular classification for swap transactions.
pub enum SwapSubCategory {
    /// Swap against a statically USD-priced asset.
    Simple(SimpleSwap),
    /// Swap involving two assets.
    TwoAsset(TwoAssetSwap),
    /// Swap involving debt repayment or borrowing.
    Debt(DebtSwap),
    /// Unable to determine the swap type.
    UnknownSwap,
}

impl View for SwapSubCategory {
    type V = SwapSubCategoryV;

    open spec fn view(&self) -> SwapSubCategoryV {
        match self {
            SwapSubCategory::Simple(x) => SwapSubCategoryV::Simple(x@),
            SwapSubCategory::TwoAsset(x) => SwapSubCategoryV::TwoAsset(x@),
            SwapSubCategory::Debt(x) => SwapSubCategoryV::Debt(x@),
            SwapSubCategory::UnknownSwap => SwapSubCategoryV::UnknownSwap,
        }
    }
}

impl Default for SwapSubCategory {
    fn default() -> (r: Self)
        ensures
            r is UnknownSwap,
    {
        SwapSubCategory::UnknownSwap
    }
}

/// Mathematical image of a [`TransactionCategory`].
pub enum TransactionCategoryV {
    Swap(SwapSubCategoryV),
    Trade,
    Transfer,
    Airdrop,
    Ignore,
    Unknown,
}

/// High level category describing the nature of a transaction.
pub enum TransactionCategory {
    /// Automated market-maker swap.
    Swap(SwapSubCategory),
    /// Perpetual or spot trade.
    Trade,
    /// Simple transfer of value between accounts.
    Transfer,
    /// Airdropped tokens received without cost.
    Airdrop,
    /// Activity that should be ignored in reports.
    Ignore,
    /// Unknown or unclassified activity.
    Unknown,
}

impl View for TransactionCategory {
    type V = TransactionCategoryV;

    open spec fn view(&self) -> TransactionCategoryV {
        match self {
            TransactionCategory::Swap(x) => TransactionCategoryV::Swap(x@),
            TransactionCategory::Trade => TransactionCategoryV::Trade,
            TransactionCategory::Transfer => TransactionCategoryV::Transfer,
            TransactionCategory::Airdrop => TransactionCategoryV::Airdrop,
            TransactionCategory::Ignore => TransactionCategoryV::Ignore,
            TransactionCategory::Unknown => TransactionCategoryV::Unknown,
        }
    }
}

impl Default for TransactionCategory {
    fn default() -> (r: Self)
        ensures
            r is Unknown,
    {
        TransactionCategory::Unknown
    }
}

impl TransactionCategory {
    /// The flat name used when rendering the category.
    pub fn name(&self) -> (r: String)
        ensures
            r@ == match self@ {
                TransactionCategoryV::Swap(sub) => match sub {
                    SwapSubCategoryV::Simple(_) => "SwapSimple"@,
                    SwapSubCategoryV::TwoAsset(_) => "SwapTwoAsset"@,
                    SwapSubCategoryV::Debt(_) => "SwapDebt"@,
                    SwapSubCategoryV::UnknownSwap => "SwapUnknown"@,
                },
                TransactionCategoryV::Trade => "Trade"@,
                TransactionCategoryV::Transfer => "Transfer"@,
                TransactionCategoryV::Airdrop => "Airdrop"@,
                TransactionCategoryV::Ignore => "Ignore"@,
                TransactionCategoryV::Unknown => "Unknown"@,
            },
    {
        match self {
            TransactionCategory::Swap(sub) => match sub {
                SwapSubCategory::Simple(_) => "SwapSimple".to_owned(),
                SwapSubCategory::TwoAsset(_) => "SwapTwoAsset".to_owned(),
                SwapSubCategory::Debt(_) => "SwapDebt".to_owned(),
                SwapSubCategory::UnknownSwap => "SwapUnknown".to_owned(),
            },
            TransactionCategory::Trade => "Trade".to_owned(),
            TransactionCategory::Transfer => "Transfer".to_owned(),
            TransactionCategory::Airdrop => "Airdrop".to_owned(),
            TransactionCategory::Ignore => "Ignore".to_owned(),
            TransactionCategory::Unknown => "Unknown".to_owned(),
        }
    }
}

/// The two-asset rule applies: exactly two legs, one strictly outgoing and
/// one strictly incoming.
pub open spec fn two_asset_shape(s: Seq<TransferV>) -> bool {
    s.len() == 2 && ((s[0].value < 0 && s[1].value >= 0) || (s[1].value < 0 && s[0].value >= 0))
}

/// The sold leg of a two-asset swap.
pub open spec fn sold_leg(s: Seq<TransferV>) -> TransferV {
    if s[0].value < 0 {
        s[0]
    } else {
        s[1]
    }
}

/// The purchased leg of a two-asset swap.
pub open spec fn purchased_leg(s: Seq<TransferV>) -> TransferV {
    if s[0].value < 0 {
        s[1]
    } else {
        s[0]
    }
}

/// A two-asset cost basis can be derived: both legs carry USD values, or
/// the leg that is itself a USD-stable asset does.
pub open spec fn two_asset_cost_ok(sold: TransferV, purchased: TransferV) -> bool {
    ||| (sold.usd_value is Some && purchased.usd_value is Some)
    ||| (sold.usd_value is Some && sold.token.is_usd)
    ||| (purchased.usd_value is Some && purchased.token.is_usd)
}

/// Cost basis of a two-asset swap: the average of both USD magnitudes when
/// both are known, else the magnitude of the USD-stable leg's value.
pub open spec fn two_asset_cost(sold: TransferV, purchased: TransferV) -> int {
    match (sold.usd_value, purchased.usd_value) {
        (Option::Some(su), Option::Some(pu)) => tdiv(abs_int(su) + abs_int(pu), 2),
        (Option::Some(su), Option::None) => abs_int(su),
        (Option::None, Option::Some(pu)) => abs_int(pu),
        (Option::None, Option::None) => 0,
    }
}

/// Image of the two-asset classification of a group.
pub open spec fn two_asset_spec(s: Seq<TransferV>) -> TwoAssetSwapV {
    let sold = sold_leg(s);
    let purchased = purchased_leg(s);
    TwoAssetSwapV {
        cost_basis: two_asset_cost(sold, purchased),
        token_purchased: purchased.token,
        token_sold: sold.token,
        value_purchased: purchased.value,
        value_sold: sold.value,
    }
}

/// The debt rule applies: exactly two legs moving in the same direction,
/// exactly one of them a debt token.
pub open spec fn debt_shape(s: Seq<TransferV>) -> bool {
    s.len() == 2 && ((s[0].value >= 0) == (s[1].value >= 0)) && (s[0].token.is_debt != s[1].token
        .is_debt)
}

/// The debt leg of a debt swap.
pub open spec fn debt_leg(s: Seq<TransferV>) -> TransferV {
    if s[0].token.is_debt {
        s[0]
    } else {
        s[1]
    }
}

/// The asset leg of a debt swap.
pub open spec fn debt_other_leg(s: Seq<TransferV>) -> TransferV {
    if s[0].token.is_debt {
        s[1]
    } else {
        s[0]
    }
}

/// Image of the debt classification of a group: an incoming debt token is
/// borrowed, an outgoing one repaid.
pub open spec fn debt_spec(s: Seq<TransferV>) -> DebtSwapV {
    let debt = debt_leg(s);
    let other = debt_other_leg(s);
    DebtSwapV {
        direction: if debt.value >= 0 {
            DebtDirection::Borrow
        } else {
            DebtDirection::Repayment
        },
        debt_token: debt.token,
        debt_value: debt.value,
        token: other.token,
        value: other.value,
    }
}

/// The simple rule applies: exactly two legs, exactly one with a statically
/// USD-priced token, and that leg carries a USD value.
pub open spec fn simple_shape(s: Seq<TransferV>) -> bool {
    s.len() == 2 && ((s[0].token.stable_usd_value is Some) != (s[1].token.stable_usd_value
        is Some)) && stable_leg(s).usd_value is Some
}

/// The statically priced leg of a simple swap.
pub open spec fn stable_leg(s: Seq<TransferV>) -> TransferV {
    if s[0].token.stable_usd_value is Some {
        s[0]
    } else {
        s[1]
    }
}

/// The asset leg of a simple swap.
pub open spec fn asset_leg(s: Seq<TransferV>) -> TransferV {
    if s[0].token.stable_usd_value is Some {
        s[1]
    } else {
        s[0]
    }
}

/// Image of the simple classification of a group: the USD-priced leg gives
/// the cost basis, the other leg is the traded asset.
pub open spec fn simple_spec(s: Seq<TransferV>) -> SimpleSwapV {
    let asset = asset_leg(s);
    SimpleSwapV {
        direction: if asset.value >= 0 {
            SwapDirection::Purchase
        } else {
            SwapDirection::Sale
        },
        cost_basis: abs_int(stable_leg(s).usd_value->0),
        token: asset.token,
        value: asset.value,
    }
}

/// Refinement of a swap group, trying two-asset, then debt, then simple.
pub open spec fn swap_sub_spec(s: Seq<TransferV>) -> SwapSubCategoryV {
    if two_asset_shape(s) && two_asset_cost_ok(sold_leg(s), purchased_leg(s)) {
        SwapSubCategoryV::TwoAsset(two_asset_spec(s))
    } else if debt_shape(s) {
        SwapSubCategoryV::Debt(debt_spec(s))
    } else if simple_shape(s) {
        SwapSubCategoryV::Simple(simple_spec(s))
    } else {
        SwapSubCategoryV::UnknownSwap
    }
}

/// Index of the first table entry keyed `key`, scanning from `j`; `-1` if none.
pub open spec fn table_find_from(tab: Seq<(String, String)>, key: Seq<char>, j: int) -> int
    decreases tab.len() - j,
{
    if j < 0 || j >= tab.len() {
        -1
    } else if tab[j].0@ == key {
        j
    } else {
        table_find_from(tab, key, j + 1)
    }
}

/// Index of the first table entry keyed `key`, or `-1`.
pub open spec fn table_find(tab: Seq<(String, String)>, key: Seq<char>) -> int {
    table_find_from(tab, key, 0)
}

/// The lookup keys of one transfer: its event identifier, then its
/// counterparty addresses in order.
pub open spec fn lookup_keys(t: TransferV) -> Seq<Seq<char>> {
    seq![t.transfer_id] + t.counterparty
}

/// First table value matched by `keys`, scanning from `k`.
pub open spec fn keys_lookup_from(
    tab: Seq<(String, String)>,
    keys: Seq<Seq<char>>,
    k: int,
) -> Option<Seq<char>>
    decreases keys.len() - k,
{
    if k < 0 || k >= keys.len() {
        Option::None
    } else {
        let f = table_find(tab, keys[k]);
        if f != -1 {
            Option::Some(tab[f].1@)
        } else {
            keys_lookup_from(tab, keys, k + 1)
        }
    }
}

/// First table value matched by a group, scanning transfers from `i`: each
/// transfer offers its event identifier, then its counterparties.
pub open spec fn group_category_from(
    tab: Seq<(String, String)>,
    s: Seq<TransferV>,
    i: int,
) -> Option<Seq<char>>
    decreases s.len() - i,
{
    if i < 0 || i >= s.len() {
        Option::None
    } else {
        match keys_lookup_from(tab, lookup_keys(s[i]), 0) {
            Option::Some(c) => Option::Some(c),
            Option::None => group_category_from(tab, s, i + 1),
        }
    }
}

/// The category value the table assigns to a group, if any.
pub open spec fn group_category(tab: Seq<(String, String)>, s: Seq<TransferV>) -> Option<Seq<char>> {
    group_category_from(tab, s, 0)
}

/// A recognized category value.
pub open spec fn valid_category(v: Seq<char>) -> bool {
    v == "Swap"@ || v == "Trade"@ || v == "Transfer"@ || v == "Airdrop"@ || v == "Ignore"@
}

/// Every value of the category table is recognized.
pub open spec fn table_valid(tab: Seq<(String, String)>) -> bool {
    forall|i: int| 0 <= i < tab.len() ==> valid_category((#[trigger] tab[i].1)@)
}

/// Every USD value of the group is within the derived-value range.
pub open spec fn usd_bounded(s: Seq<TransferV>) -> bool {
    forall|i: int|
        0 <= i < s.len() ==> match (#[trigger] s[i]).usd_value {
            Some(u) => -USD_LIMIT <= u <= USD_LIMIT,
            None => true,
        }
}

/// The category of a group of net transfers under a category table.
pub open spec fn classify_spec(
    tab: Seq<(String, String)>,
    s: Seq<TransferV>,
) -> TransactionCategoryV {
    match group_category(tab, s) {
        Option::None => TransactionCategoryV::Unknown,
        Option::Some(c) => if c == "Swap"@ {
            TransactionCategoryV::Swap(swap_sub_spec(s))
        } else if c == "Trade"@ {
            TransactionCategoryV::Trade
        } else if c == "Transfer"@ {
            TransactionCategoryV::Transfer
        } else if c == "Airdrop"@ {
            TransactionCategoryV::Airdrop
        } else if c == "Ignore"@ {
            TransactionCategoryV::Ignore
        } else {
            TransactionCategoryV::Unknown
        },
    }
}

/// Whether a string equals the given literal.
fn str_is(s: &String, lit: &str) -> (r: bool)
    ensures
        r == (s@ == lit@),
{
    let owned: String = lit.to_owned();
    owned == *s
}

/// Index of the first table entry keyed by `key`, if any.
fn table_find_exec(tab: &Vec<(String, String)>, key: &String) -> (r: Option<usize>)
    ensures
        match r {
            Some(f) => (f as int) < tab@.len() && table_find(tab@, key@) == f as int,
            None => table_find(tab@, key@) == -1,
        },
{
    let n = tab.len();
    let mut j: usize = 0;
    while j < n
        invariant
            j <= n,
            table_find(tab@, key@) == table_find_from(tab@, key@, j as int),
        decreases n - j,
    {
        if tab[j].0 == *key {
            return Some(j);
        }
        j += 1;
    }
    None
}

/// The table value matched by one transfer's keys: its event identifier,
/// then its counterparties in order.
fn transfer_lookup(tab: &Vec<(String, String)>, t: &Transfer) -> (r: Option<String>)
    ensures
        match r {
            Some(c) => keys_lookup_from(tab@, lookup_keys(t@), 0) == Option::Some(c@) && exists|
                i: int,
            | 0 <= i < tab@.len() && c@ == (#[trigger] tab@[i].1)@,
            None => keys_lookup_from(tab@, lookup_keys(t@), 0) is None,
        },
{
    let ghost keys = lookup_keys(t@);
    proof {
        assert(keys[0] == t@.transfer_id);
    }
    match table_find_exec(tab, &t.transfer_id) {
        Some(f) => {
            return Some(tab[f].1.clone());
        },
        None => {},
    }
    let n = t.counterparty.len();
    let mut m: usize = 0;
    while m < n
        invariant
            m <= n,
            n == t.counterparty@.len(),
            keys_lookup_from(tab@, keys, 0) == keys_lookup_from(tab@, keys, m as int + 1),
        decreases n - m,
    {
        proof {
            assert(keys[m as int + 1] == t@.counterparty[m as int]);
            assert(t@.counterparty[m as int] == t.counterparty@[m as int]@);
        }
        match table_find_exec(tab, &t.counterparty[m]) {
            Some(f) => {
                return Some(tab[f].1.clone());
            },
            None => {},
        }
        m += 1;
    }
    None
}

/// The first table value matched by any transfer of the group.
fn group_lookup(transfers: &Vec<Transfer>, tab: &Vec<(String, String)>) -> (r: Option<String>)
    ensures
        match r {
            Some(c) => group_category(tab@, views(transfers@)) == Option::Some(c@) && exists|
                i: int,
            | 0 <= i < tab@.len() && c@ == (#[trigger] tab@[i].1)@,
            None => group_category(tab@, views(transfers@)) is None,
        },
{
    let ghost s = views(transfers@);
    let n = transfers.len();
    let mut i: usize = 0;
    while i < n
        invariant
            i <= n,
            n == transfers@.len(),
            group_category(tab@, s) == group_category_from(tab@, s, i as int),
        decreases n - i,
    {
        proof {
            assert(s[i as int] == transfers@[i as int]@);
        }
        match transfer_lookup(tab, &transfers[i]) {
            Some(c) => {
                return Some(c);
            },
            None => {},
        }
        i += 1;
    }
    None
}

/// Refines a swap group into its sub-category, trying the two-asset rule,
/// then the debt rule, then the simple rule.
fn classify_swap(transfers: &Vec<Transfer>) -> (r: SwapSubCategory)
    requires
        usd_bounded(views(transfers@)),
    ensures
        r@ == swap_sub_spec(views(transfers@)),
{
    let ghost s = views(transfers@);
    if transfers.len() != 2 {
        return SwapSubCategory::UnknownSwap;
    }
    proof {
        assert(s[0] == transfers@[0]@);
        assert(s[1] == transfers@[1]@);
    }
    let a = &transfers[0];
    let b = &transfers[1];
    let a_neg = a.value.is_negative();
    let b_neg = b.value.is_negative();
    if a_neg != b_neg {
        // One strictly outgoing leg, one incoming leg: the two-asset rule.
        let sold: &Transfer = if a_neg {
            a
        } else {
            b
        };
        let purchased: &Transfer = if a_neg {
            b
        } else {
            a
        };
        let cost: Option<Amount> = match (sold.usd_value, purchased.usd_value) {
            (Some(su), Some(pu)) => Some(su.abs().add(&pu.abs()).half()),
            (Some(su), None) => if sold.token.is_usd {
                Some(su.abs())
            } else {
                None
            },
            (None, Some(pu)) => if purchased.token.is_usd {
                Some(pu.abs())
            } else {
                None
            },
            (None, None) => None,
        };
        if let Some(cb) = cost {
            return SwapSubCategory::TwoAsset(
                TwoAssetSwap {
                    cost_basis: cb,
                    token_purchased: purchased.token.clone(),
                    token_sold: sold.token.clone(),
                    value_purchased: purchased.value,
                    value_sold: sold.value,
                },
            );
        }
    } else if a.token.is_debt != b.token.is_debt {
        // Both legs move the same way and exactly one is a debt token.
        let debt: &Transfer = if a.token.is_debt {
            a
        } else {
            b
        };
        let other: &Transfer = if a.token.is_debt {
            b
        } else {
            a
        };
        return SwapSubCategory::Debt(
            DebtSwap {
                direction: if debt.value.is_negative() {
                    DebtDirection::Repayment
                } else {
                    DebtDirection::Borrow
                },
                debt_token: debt.token.clone(),
                debt_value: debt.value,
                token: other.token.clone(),
                value: other.value,
            },
        );
    }
    // The simple rule: exactly one statically priced leg carrying a USD value.
    if a.token.stable_usd_value.is_some() != b.token.stable_usd_value.is_some() {
        let stable: &Transfer = if a.token.stable_usd_value.is_some() {
            a
        } else {
            b
        };
        let asset: &Transfer = if a.token.stable_usd_value.is_some() {
            b
        } else {
            a
        };
        if let Some(u) = stable.usd_value {
            return SwapSubCategory::Simple(
                SimpleSwap {
                    direction: SwapDirection::from(asset.direction()),
                    cost_basis: u.abs(),
                    token: asset.token.clone(),
                    value: asset.value,
                },
            );
        }
    }
    SwapSubCategory::UnknownSwap
}

/// Assigns a category to the net transfers of one group.
///
/// The first table entry matched by the group's event identifier or by a
/// counterparty address decides; a `"Swap"` entry is refined by structure.
/// A group matching no entry is `Unknown`.
pub fn classify(transfers: &Vec<Transfer>, categories: &Vec<(String, String)>) -> (c:
    TransactionCategory)
    requires
        table_valid(categories@),
        usd_bounded(views(transfers@)),
    ensures
        c@ == classify_spec(categories@, views(transfers@)),
{
    match group_lookup(transfers, categories) {
        None => TransactionCategory::Unknown,
        Some(cat) => {
            if str_is(&cat, "Swap") {
                TransactionCategory::Swap(classify_swap(transfers))
            } else if str_is(&cat, "Trade") {
                TransactionCategory::Trade
            } else if str_is(&cat, "Transfer") {
                TransactionCategory::Transfer
            } else if str_is(&cat, "Airdrop") {
                TransactionCategory::Airdrop
            } else if str_is(&cat, "Ignore") {
                TransactionCategory::Ignore
            } else {
                proof {
                    // `table_valid` admits no sixth category value.
                    assert(false);
                }
                TransactionCategory::Unknown
            }
        },
    }
}

/// Checks that every value of the category table is recognized; an
/// unrecognized value is a fatal configuration error for the caller.
pub fn categories_valid(categories: &Vec<(String, String)>) -> (r: bool)
    ensures
        r == table_valid(categories@),
{
    let n = categories.len();
    let mut j: usize = 0;
    while j < n
        invariant
            j <= n,
            forall|q: int| 0 <= q < j ==> valid_category((#[trigger] categories@[q].1)@),
        decreases n - j,
    {
        let v = &categories[j].1;
        if !(str_is(v, "Swap") || str_is(v, "Trade") || str_is(v, "Transfer") || str_is(
            v,
            "Airdrop",
        ) || str_is(v, "Ignore")) {
            return false;
        }
        j += 1;
    }
    true
}

/// Checks that every USD value of a batch is within the derived-value range
/// accepted by [`classify`] and by the cost-basis engine.
pub fn usd_values_in_range(transfers: &Vec<Transfer>) -> (r: bool)
    ensures
        r == usd_bounded(views(transfers@)),
{
    let n = transfers.len();
    let mut i: usize = 0;
    while i < n
        invariant
            i <= n,
            forall|q: int|
                0 <= q < i ==> match (#[trigger] views(transfers@)[q]).usd_value {
                    Some(u) => -USD_LIMIT <= u <= USD_LIMIT,
                    None => true,
                },
        decreases n - i,
    {
        match transfers[i].usd_value {
            Some(u) => {
                if u.units < -USD_LIMIT || u.units > USD_LIMIT {
                    proof {
                        assert(views(transfers@)[i as int] == transfers@[i as int]@);
                    }
                    return false;
                }
            },
            None => {},
        }
        proof {
            assert(views(transfers@)[i as int] == transfers@[i as int]@);
        }
        i += 1;
    }
    true
}

} // verus!
