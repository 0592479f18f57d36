//! Token descriptors and the metadata lookup that resolves contract
//! addresses.
//!
//! A [`Token`] is identified by its contract address, compared without regard
//! to ASCII case.  [`resolve_token`] enriches an address with operator-supplied
//! metadata ([`TokenMeta`]) and falls back to a placeholder token when the
//! address is unknown.

use vstd::prelude::*;

use crate::amount::Amount;

verus! {

/// Lower-case image of a character: ASCII upper-case letters are folded,
/// everything else is unchanged.
pub open spec fn lower_char(c: char) -> char {
    if 'A' as u32 <= c as u32 && c as u32 <= 'Z' as u32 {
        ((c as u32) + 32) as char
    } else {
        c
    }
}

/// Character-wise ASCII lower-casing of a string.
pub open spec fn lower(s: Seq<char>) -> Seq<char> {
    s.map_values(|c: char| lower_char(c))
}

/// Relies on `str::eq_ignore_ascii_case`: returns whether the two strings are
/// equal after ASCII upper-case letters are folded to lower case.
#[verifier::external_body]
pub(crate) fn str_eq_ignore_ascii_case(a: &str, b: &str) -> (r: bool)
    ensures
        r == (lower(a@) == lower(b@)),
{
    a.eq_ignore_ascii_case(b)
}

/// Mathematical image of a [`Token`].
pub struct TokenV {
    pub asset: Seq<char>,
    pub symbol: Seq<char>,
    pub stable_usd_value: Option<int>,
    pub address: Seq<char>,
    pub is_usd: bool,
    pub is_debt: bool,
}

/// Normalized representation of a token.
pub struct Token {
    /// Human readable name of the asset.
    pub asset: String,
    /// Short ticker symbol.
    pub symbol: String,
    /// Optional fixed USD value for one token.
    pub stable_usd_value: Option<Amount>,
    /// Contract address for the token; identity is this address, compared
    /// without regard to ASCII case.
    pub address: String,
    /// Whether the token is itself a USD-stable asset.
    pub is_usd: bool,
    /// Whether the token represents a borrowed liability.
    pub is_debt: bool,
}

impl View for Token {
    type V = TokenV;

    open spec fn view(&self) -> TokenV {
        TokenV {
            asset: self.asset@,
            symbol: self.symbol@,
            stable_usd_value: match self.stable_usd_value {
                Some(a) => Some(a@),
                None => None,
            },
            address: self.address@,
            is_usd: self.is_usd,
            is_debt: self.is_debt,
        }
    }
}

impl TokenV {
    /// Identity of a token: its address, folded to lower case.
    pub open spec fn key(self) -> Seq<char> {
        lower(self.address)
    }

    /// A token is well formed when its fixed price is in range.
    pub open spec fn wf(self) -> bool {
        match self.stable_usd_value {
            Some(u) => -crate::amount::UNIT_LIMIT <= u <= crate::amount::UNIT_LIMIT,
            None => true,
        }
    }
}

/// The placeholder descriptor for an unresolved address.
pub open spec fn unknown_token_v(address: Seq<char>) -> TokenV {
    TokenV {
        asset: "Unknown"@,
        symbol: "Unknown"@,
        stable_usd_value: None,
        address: address,
        is_usd: false,
        is_debt: false,
    }
}

impl Token {
    /// Whether two tokens are the same asset: their addresses match,
    /// ignoring ASCII case.
    pub fn same_token(&self, other: &Token) -> (r: bool)
        ensures
            r == (self@.key() == other@.key()),
    {
        str_eq_ignore_ascii_case(self.address.as_str(), other.address.as_str())
    }

    /// The placeholder token used when no metadata could be resolved.
    pub fn unknown(address: String) -> (r: Token)
        ensures
            r@ == unknown_token_v(address@),
    {
        Token {
            asset: "Unknown".to_owned(),
            symbol: "Unknown".to_owned(),
            stable_usd_value: None,
            address: address,
            is_usd: false,
            is_debt: false,
        }
    }
}

impl Clone for Token {
    fn clone(&self) -> (r: Self)
        ensures
            r@ == self@,
    {
        Token {
            asset: self.asset.clone(),
            symbol: self.symbol.clone(),
            stable_usd_value: self.stable_usd_value,
            address: self.address.clone(),
            is_usd: self.is_usd,
            is_debt: self.is_debt,
        }
    }
}

impl Default for Token {
    /// Produces the placeholder token.
    fn default() -> (r: Self)
        ensures
            r@ == unknown_token_v("Unknown"@),
    {
        Token::unknown("Unknown".to_owned())
    }
}

/// Mathematical image of a [`TokenMeta`].
pub struct TokenMetaV {
    pub asset: Seq<char>,
    pub symbol: Seq<char>,
    pub is_debt: bool,
    pub stable_usd_value: Option<int>,
}

/// Operator-supplied token metadata, keyed by contract address.
pub struct TokenMeta {
    /// Long-form asset name, e.g. `"Ether"`.
    pub asset: String,
    /// Short symbol representation, e.g. `"ETH"`.
    pub symbol: String,
    pub is_debt: bool,
    /// Optional USD value of a single token at import time.
    pub stable_usd_value: Option<Amount>,
}

impl View for TokenMeta {
    type V = TokenMetaV;

    open spec fn view(&self) -> TokenMetaV {
        TokenMetaV {
            asset: self.asset@,
            symbol: self.symbol@,
            is_debt: self.is_debt,
            stable_usd_value: match self.stable_usd_value {
                Some(a) => Some(a@),
                None => None,
            },
        }
    }
}

/// The token that metadata `m` resolves address `address` to.
pub open spec fn resolved_token_v(address: Seq<char>, m: TokenMetaV) -> TokenV {
    TokenV {
        asset: m.asset,
        symbol: m.symbol,
        stable_usd_value: m.stable_usd_value,
        address: address,
        is_usd: m.stable_usd_value is Some,
        is_debt: m.is_debt,
    }
}

/// Index of the first table entry whose key matches `address` ignoring ASCII
/// case, or `-1` when none does.
pub open spec fn meta_match_index(table: Seq<(String, TokenMeta)>, address: Seq<char>) -> int
    decreases table.len(),
{
    if table.len() == 0 {
        -1
    } else if lower(table[0].0@) == lower(address) {
        0
    } else {
        let rest = meta_match_index(table.drop_first(), address);
        if rest == -1 {
            -1
        } else {
            rest + 1
        }
    }
}

/// The index returned by [`meta_match_index`] is the first match.
proof fn lemma_meta_match_index(table: Seq<(String, TokenMeta)>, address: Seq<char>)
    ensures
        meta_match_index(table, address) == -1 ==> forall|i: int|
            0 <= i < table.len() ==> lower(#[trigger] table[i].0@) != lower(address),
        meta_match_index(table, address) != -1 ==> {
            &&& 0 <= meta_match_index(table, address) < table.len()
            &&& lower(table[meta_match_index(table, address)].0@) == lower(address)
            &&& forall|i: int|
                0 <= i < meta_match_index(table, address) ==> lower(#[trigger] table[i].0@)
                    != lower(address)
        },
    decreases table.len(),
{
    if table.len() > 0 && lower(table[0].0@) != lower(address) {
        lemma_meta_match_index(table.drop_first(), address);
        assert(forall|i: int|
            1 <= i < table.len() ==> #[trigger] table[i] == table.drop_first()[i - 1]);
    }
}

/// Resolves a contract address against the metadata table.
///
/// The first entry whose key equals the address ignoring ASCII case supplies
/// the descriptor; a token resolved through metadata is USD-stable exactly
/// when the metadata carries a fixed price.  An address with no entry yields
/// the placeholder token.
pub fn resolve_token(address: &String, table: &Vec<(String, TokenMeta)>) -> (r: Token)
    ensures
        meta_match_index(table@, address@) == -1 ==> r@ == unknown_token_v(address@),
        meta_match_index(table@, address@) != -1 ==> 0 <= meta_match_index(table@, address@)
            < table@.len() && r@ == resolved_token_v(
            address@,
            table@[meta_match_index(table@, address@)].1@,
        ),
{
    proof {
        lemma_meta_match_index(table@, address@);
    }
    let n = table.len();
    let mut j: usize = 0;
    while j < n
        invariant
            j <= n,
            n == table@.len(),
            forall|i: int| 0 <= i < j ==> lower(#[trigger] table@[i].0@) != lower(address@),
        decreases n - j,
    {
        if str_eq_ignore_ascii_case(table[j].0.as_str(), address.as_str()) {
            let meta = &table[j].1;
            return Token {
                asset: meta.asset.clone(),
                symbol: meta.symbol.clone(),
                stable_usd_value: meta.stable_usd_value,
                address: address.clone(),
                is_usd: meta.stable_usd_value.is_some(),
                is_debt: meta.is_debt,
            };
        }
        j += 1;
    }
    Token::unknown(address.clone())
}

} // verus!
