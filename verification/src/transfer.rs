//! Directional value movements and the netting engine.
//!
//! A [`Transfer`] is one movement of a token relative to the observed
//! account; its identity for netting is the pair of event identifier and
//! token.  [`net_transfers`] merges an arbitrary batch into at most one net
//! transfer per identity, summing signed values, and discards movements that
//! cancel to exactly zero.

use vstd::prelude::*;

use crate::amount::{Amount, UNIT_LIMIT};
use crate::token::{Token, TokenV};

verus! {

/// Direction of value movement relative to the observed account.
#[derive(Clone, Copy, PartialEq, Eq, Structural, Debug)]
pub enum TransferDirection {
    /// Tokens moving into the account.
    Incoming,
    /// Tokens moving out of the account.
    Outgoing,
}

/// Mathematical image of a [`Transfer`].
pub struct TransferV {
    pub transfer_id: Seq<char>,
    pub datetime: Seq<char>,
    pub token: TokenV,
    pub value: int,
    pub usd_value: Option<int>,
    pub counterparty: Seq<Seq<char>>,
}

/// Individual movement of a token value between two addresses.
///
/// `value` is signed: a non-negative value moves into the observed account,
/// a negative value moves out.  When present, `usd_value` carries the same
/// sign as `value`.
pub struct Transfer {
    /// Identifier shared by all transfers of one on-chain event.
    pub transfer_id: String,
    /// ISO8601 timestamp of the transfer.
    pub datetime: String,
    /// Token being transferred.
    pub token: Token,
    /// Signed amount of token moved.
    pub value: Amount,
    /// USD value of the transfer at the time of the event.
    pub usd_value: Option<Amount>,
    /// Addresses on the other side of the transfer.
    pub counterparty: Vec<String>,
}

impl View for Transfer {
    type V = TransferV;

    open spec fn view(&self) -> TransferV {
        TransferV {
            transfer_id: self.transfer_id@,
            datetime: self.datetime@,
            token: self.token@,
            value: self.value@,
            usd_value: match self.usd_value {
                Some(u) => Some(u@),
                None => None,
            },
            counterparty: self.counterparty.deep_view(),
        }
    }
}

impl TransferV {
    /// A transfer is well formed when its quantities are in range.
    pub open spec fn wf(self) -> bool {
        &&& -UNIT_LIMIT <= self.value <= UNIT_LIMIT
        &&& match self.usd_value {
            Some(u) => -UNIT_LIMIT <= u <= UNIT_LIMIT,
            None => true,
        }
        &&& self.token.wf()
    }

    /// Direction encoded by the sign of the value.
    pub open spec fn direction(self) -> TransferDirection {
        if self.value >= 0 {
            TransferDirection::Incoming
        } else {
            TransferDirection::Outgoing
        }
    }
}

/// The images of a sequence of transfers.
pub open spec fn views(s: Seq<Transfer>) -> Seq<TransferV> {
    s.map_values(|t: Transfer| t@)
}

/// All transfers of a batch are well formed.
pub open spec fn wf_all(s: Seq<TransferV>) -> bool {
    forall|i: int| 0 <= i < s.len() ==> (#[trigger] s[i]).wf()
}

impl Transfer {
    /// The direction of the movement.
    pub fn direction(&self) -> (d: TransferDirection)
        ensures
            d == self@.direction(),
    {
        if self.value.is_negative() {
            TransferDirection::Outgoing
        } else {
            TransferDirection::Incoming
        }
    }

    /// The unsigned magnitude of the movement.
    pub fn magnitude(&self) -> (m: Amount)
        requires
            -self@.value <= i128::MAX,
        ensures
            m@ == if self@.value >= 0 {
                self@.value
            } else {
                -self@.value
            },
    {
        self.value.abs()
    }

    /// Builds a transfer from an unsigned magnitude and a direction.
    pub fn new(
        transfer_id: String,
        datetime: String,
        token: Token,
        magnitude: Amount,
        direction: TransferDirection,
        usd_value: Option<Amount>,
        counterparty: Vec<String>,
    ) -> (t: Transfer)
        requires
            magnitude@ >= 0,
        ensures
            t@.transfer_id == transfer_id@,
            t@.datetime == datetime@,
            t@.token == token@,
            t@.value == if direction is Incoming {
                magnitude@
            } else {
                -magnitude@
            },
            t@.usd_value == match usd_value {
                Some(u) => Some(u@),
                None => None,
            },
            t@.counterparty == counterparty.deep_view(),
    {
        let value = match direction {
            TransferDirection::Incoming => magnitude,
            TransferDirection::Outgoing => magnitude.neg(),
        };
        Transfer { transfer_id, datetime, token, value, usd_value, counterparty }
    }
}

/// Clones a vector of strings, preserving its value.
pub(crate) fn clone_strings(v: &Vec<String>) -> (r: Vec<String>)
    ensures
        r@ == v@,
{
    let mut r: Vec<String> = Vec::new();
    let mut i: usize = 0;
    while i < v.len()
        invariant
            i <= v@.len(),
            r@ == v@.take(i as int),
        decreases v@.len() - i,
    {
        r.push(v[i].clone());
        proof {
            assert(r@ =~= v@.take(i as int + 1));
        }
        i += 1;
    }
    proof {
        assert(v@.take(v@.len() as int) =~= v@);
    }
    r
}

impl Clone for Transfer {
    fn clone(&self) -> (r: Self)
        ensures
            r@ == self@,
    {
        Transfer {
            transfer_id: self.transfer_id.clone(),
            datetime: self.datetime.clone(),
            token: self.token.clone(),
            value: self.value,
            usd_value: self.usd_value,
            counterparty: clone_strings(&self.counterparty),
        }
    }
}

/// Netting identity: two transfers merge when they belong to the same
/// on-chain event and move the same token.
pub open spec fn same_key(a: TransferV, b: TransferV) -> bool {
    a.transfer_id == b.transfer_id && a.token.key() == b.token.key()
}

/// Combined USD value of two merged transfers: absent values count as zero,
/// but a merge of two absent values stays absent.
pub open spec fn merge_usd(a: Option<int>, b: Option<int>) -> Option<int> {
    match (a, b) {
        (Option::None, Option::None) => Option::None,
        (Option::Some(x), Option::None) => Option::Some(x),
        (Option::None, Option::Some(y)) => Option::Some(y),
        (Option::Some(x), Option::Some(y)) => Option::Some(x + y),
    }
}

/// The merge of transfer `b` into accumulator entry `a`: signed values add,
/// USD values combine, and all other fields keep the first transfer's data.
pub open spec fn merged(a: TransferV, b: TransferV) -> TransferV {
    TransferV { value: a.value + b.value, usd_value: merge_usd(a.usd_value, b.usd_value), ..a }
}

/// Index of the first accumulator entry sharing `t`'s key, or `-1`.
pub open spec fn find_key(acc: Seq<TransferV>, t: TransferV) -> int
    decreases acc.len(),
{
    if acc.len() == 0 {
        -1
    } else if same_key(acc[0], t) {
        0
    } else {
        let rest = find_key(acc.drop_first(), t);
        if rest == -1 {
            -1
        } else {
            rest + 1
        }
    }
}

/// One netting step: merge `t` into its entry, or append a new entry.
pub open spec fn net_insert(acc: Seq<TransferV>, t: TransferV) -> Seq<TransferV> {
    let i = find_key(acc, t);
    if i == -1 {
        acc.push(t)
    } else {
        acc.update(i, merged(acc[i], t))
    }
}

/// Nets a batch front to back into an accumulator with one entry per key.
pub open spec fn net_accum(s: Seq<TransferV>) -> Seq<TransferV>
    decreases s.len(),
{
    if s.len() == 0 {
        Seq::empty()
    } else {
        net_insert(net_accum(s.drop_last()), s.last())
    }
}

/// Removes the entries whose net signed value is exactly zero.
pub open spec fn drop_zero(s: Seq<TransferV>) -> Seq<TransferV>
    decreases s.len(),
{
    if s.len() == 0 {
        Seq::empty()
    } else if s.last().value != 0 {
        drop_zero(s.drop_last()).push(s.last())
    } else {
        drop_zero(s.drop_last())
    }
}

/// The netted image of a batch: one entry per key with the summed signed
/// value and combined USD value, zero-sum entries discarded.
pub open spec fn net_spec(s: Seq<TransferV>) -> Seq<TransferV> {
    drop_zero(net_accum(s))
}

/// Sum of the signed values of all transfers in `s` sharing `k`'s key.
pub open spec fn key_value_sum(s: Seq<TransferV>, k: TransferV) -> int
    decreases s.len(),
{
    if s.len() == 0 {
        0
    } else {
        key_value_sum(s.drop_last(), k) + if same_key(s.last(), k) {
            s.last().value
        } else {
            0
        }
    }
}

/// Whether any transfer in `s` sharing `k`'s key carries a USD value.
pub open spec fn key_has_usd(s: Seq<TransferV>, k: TransferV) -> bool
    decreases s.len(),
{
    if s.len() == 0 {
        false
    } else {
        key_has_usd(s.drop_last(), k) || (same_key(s.last(), k) && s.last().usd_value is Some)
    }
}

/// Sum of the USD values of all transfers in `s` sharing `k`'s key, counting
/// an absent USD value as zero.
pub open spec fn key_usd_total(s: Seq<TransferV>, k: TransferV) -> int
    decreases s.len(),
{
    if s.len() == 0 {
        0
    } else {
        key_usd_total(s.drop_last(), k) + if same_key(s.last(), k) {
            match s.last().usd_value {
                Some(u) => u,
                None => 0,
            }
        } else {
            0
        }
    }
}

/// Combined USD value for `k`'s key over the whole batch: the sum treating
/// absent values as zero, or absent when no transfer of the key has one.
pub open spec fn key_usd_sum(s: Seq<TransferV>, k: TransferV) -> Option<int> {
    if key_has_usd(s, k) {
        Option::Some(key_usd_total(s, k))
    } else {
        Option::None
    }
}

/// No two entries share a key.
pub open spec fn distinct_keys(s: Seq<TransferV>) -> bool {
    forall|i: int, j: int| 0 <= i < j < s.len() ==> !same_key(#[trigger] s[i], #[trigger] s[j])
}

/// [`find_key`] returns the index of the first entry sharing the key.
proof fn lemma_find_key(acc: Seq<TransferV>, t: TransferV)
    ensures
        find_key(acc, t) == -1 ==> forall|i: int|
            0 <= i < acc.len() ==> !same_key(#[trigger] acc[i], t),
        find_key(acc, t) != -1 ==> {
            &&& 0 <= find_key(acc, t) < acc.len()
            &&& same_key(acc[find_key(acc, t)], t)
            &&& forall|i: int| 0 <= i < find_key(acc, t) ==> !same_key(#[trigger] acc[i], t)
        },
    decreases acc.len(),
{
    if acc.len() > 0 && !same_key(acc[0], t) {
        lemma_find_key(acc.drop_first(), t);
        assert(forall|i: int|
            1 <= i < acc.len() ==> #[trigger] acc[i] == acc.drop_first()[i - 1]);
    }
}

/// A key with no matching transfer has a zero sum and no USD value.
proof fn lemma_key_sum_no_match(s: Seq<TransferV>, k: TransferV)
    requires
        forall|i: int| 0 <= i < s.len() ==> !same_key(#[trigger] s[i], k),
    ensures
        key_value_sum(s, k) == 0,
        !key_has_usd(s, k),
        key_usd_total(s, k) == 0,
    decreases s.len(),
{
    if s.len() > 0 {
        lemma_key_sum_no_match(s.drop_last(), k);
    }
}

/// When no matching transfer carries a USD value, the USD total is zero.
proof fn lemma_usd_total_zero_without_usd(s: Seq<TransferV>, k: TransferV)
    requires
        !key_has_usd(s, k),
    ensures
        key_usd_total(s, k) == 0,
    decreases s.len(),
{
    if s.len() > 0 {
        lemma_usd_total_zero_without_usd(s.drop_last(), k);
    }
}

/// Key sums only depend on the key of their representative.
proof fn lemma_key_sum_congruent(s: Seq<TransferV>, k1: TransferV, k2: TransferV)
    requires
        same_key(k1, k2),
    ensures
        key_value_sum(s, k1) == key_value_sum(s, k2),
        key_has_usd(s, k1) == key_has_usd(s, k2),
        key_usd_total(s, k1) == key_usd_total(s, k2),
    decreases s.len(),
{
    if s.len() > 0 {
        lemma_key_sum_congruent(s.drop_last(), k1, k2);
    }
}

/// Every entry that [`drop_zero`] keeps occurs in the input.
proof fn lemma_drop_zero_membership(s: Seq<TransferV>)
    ensures
        forall|j: int|
            0 <= j < drop_zero(s).len() ==> exists|i: int|
                0 <= i < s.len() && s[i] == #[trigger] drop_zero(s)[j],
        forall|j: int| 0 <= j < drop_zero(s).len() ==> (#[trigger] drop_zero(s)[j]).value != 0,
    decreases s.len(),
{
    if s.len() > 0 {
        lemma_drop_zero_membership(s.drop_last());
        let prev = drop_zero(s.drop_last());
        assert forall|j: int| 0 <= j < drop_zero(s).len() implies exists|i: int|
            0 <= i < s.len() && s[i] == #[trigger] drop_zero(s)[j] by {
            if j < prev.len() {
                let i = choose|i: int| 0 <= i < s.drop_last().len() && s.drop_last()[i] == prev[j];
                assert(s[i] == drop_zero(s)[j]);
            } else {
                assert(s[s.len() - 1] == drop_zero(s)[j]);
            }
        }
    }
}

/// A nonzero entry of the input survives [`drop_zero`].
proof fn lemma_drop_zero_keeps(s: Seq<TransferV>, i: int)
    requires
        0 <= i < s.len(),
        s[i].value != 0,
    ensures
        exists|j: int| 0 <= j < drop_zero(s).len() && #[trigger] drop_zero(s)[j] == s[i],
    decreases s.len(),
{
    if i < s.len() - 1 {
        lemma_drop_zero_keeps(s.drop_last(), i);
        let j = choose|j: int|
            0 <= j < drop_zero(s.drop_last()).len() && #[trigger] drop_zero(s.drop_last())[j]
                == s.drop_last()[i];
        assert(drop_zero(s)[j] == s[i]);
    } else {
        assert(drop_zero(s).last() == s[i]);
    }
}

/// [`drop_zero`] keeps keys pairwise distinct.
proof fn lemma_drop_zero_distinct(s: Seq<TransferV>)
    requires
        distinct_keys(s),
    ensures
        distinct_keys(drop_zero(s)),
    decreases s.len(),
{
    if s.len() > 0 {
        assert(forall|i: int|
            0 <= i < s.drop_last().len() ==> #[trigger] s.drop_last()[i] == s[i]);
        lemma_drop_zero_distinct(s.drop_last());
        lemma_drop_zero_membership(s.drop_last());
        let out = drop_zero(s);
        let prev = drop_zero(s.drop_last());
        assert forall|i: int, j: int| 0 <= i < j < out.len() implies !same_key(
            #[trigger] out[i],
            #[trigger] out[j],
        ) by {
            if j < prev.len() {
                assert(!same_key(prev[i], prev[j]));
            } else {
                let i0 = choose|i0: int|
                    0 <= i0 < s.drop_last().len() && s.drop_last()[i0] == prev[i];
                assert(!same_key(s[i0], s.last()));
            }
        }
    }
}

/// The netting accumulator has one entry per key of the processed batch,
/// carrying the key's summed signed value and combined USD value.
proof fn lemma_net_accum_entries(s: Seq<TransferV>)
    ensures
        distinct_keys(net_accum(s)),
        forall|j: int|
            0 <= j < net_accum(s).len() ==> (#[trigger] net_accum(s)[j]).value == key_value_sum(
                s,
                net_accum(s)[j],
            ),
        forall|j: int|
            0 <= j < net_accum(s).len() ==> (#[trigger] net_accum(s)[j]).usd_value == key_usd_sum(
                s,
                net_accum(s)[j],
            ),
        forall|i: int|
            0 <= i < s.len() ==> exists|j: int|
                0 <= j < net_accum(s).len() && same_key(net_accum(s)[j], #[trigger] s[i]),
    decreases s.len(),
{
    if s.len() > 0 {
        let p = s.drop_last();
        let t = s.last();
        lemma_net_accum_entries(p);
        let prev = net_accum(p);
        let out = net_accum(s);
        lemma_find_key(prev, t);
        let f = find_key(prev, t);
        if f == -1 {
            // `t` opens a new key: its sum over the prefix is zero.
            assert forall|j: int| 0 <= j < prev.len() implies !same_key(t, #[trigger] prev[j]) by {
                assert(!same_key(prev[j], t));
            }
            assert forall|i: int| 0 <= i < p.len() implies !same_key(#[trigger] p[i], t) by {
                let jj = choose|jj: int| 0 <= jj < prev.len() && same_key(prev[jj], p[i]);
                if same_key(p[i], t) {
                    assert(same_key(prev[jj], t));
                }
            }
            lemma_key_sum_no_match(p, t);
            assert forall|j: int| 0 <= j < out.len() implies (#[trigger] out[j]).value
                == key_value_sum(s, out[j]) && out[j].usd_value == key_usd_sum(s, out[j]) by {
                if j < prev.len() {
                    assert(!same_key(t, prev[j]));
                    assert(out[j] == prev[j]);
                    assert(key_value_sum(s, out[j]) == key_value_sum(p, out[j]));
                    assert(key_has_usd(s, out[j]) == key_has_usd(p, out[j]));
                    assert(key_usd_total(s, out[j]) == key_usd_total(p, out[j]));
                } else {
                    assert(out[j] == t);
                    lemma_key_sum_no_match(p, t);
                    assert(key_value_sum(s, t) == t.value);
                    assert(key_has_usd(s, t) == (t.usd_value is Some));
                    assert(key_usd_total(s, t) == match t.usd_value {
                        Some(u) => u,
                        None => 0,
                    });
                }
            }
            assert forall|i: int| 0 <= i < s.len() implies exists|j: int|
                0 <= j < out.len() && same_key(out[j], #[trigger] s[i]) by {
                if i < s.len() - 1 {
                    let j = choose|j: int|
                        0 <= j < prev.len() && same_key(#[trigger] prev[j], p[i]);
                    assert(same_key(out[j], s[i]));
                } else {
                    assert(same_key(out[out.len() - 1], s[i]));
                }
            }
        } else {
            let m = merged(prev[f], t);
            assert(out == prev.update(f, m));
            assert(same_key(m, prev[f]));
            // Distinctness is preserved: the updated entry keeps its key.
            assert forall|i: int, j: int| 0 <= i < j < out.len() implies !same_key(
                #[trigger] out[i],
                #[trigger] out[j],
            ) by {
                assert(!same_key(prev[i], prev[j]));
            }
            assert forall|j: int| 0 <= j < out.len() implies (#[trigger] out[j]).value
                == key_value_sum(s, out[j]) && out[j].usd_value == key_usd_sum(s, out[j]) by {
                if j == f {
                    // The merged entry absorbs `t`'s contribution.
                    lemma_key_sum_congruent(p, m, prev[f]);
                    assert(same_key(t, prev[f]));
                    assert(same_key(t, m));
                    assert(key_value_sum(s, m) == key_value_sum(p, m) + t.value);
                    if !key_has_usd(p, m) {
                        lemma_usd_total_zero_without_usd(p, m);
                    }
                    assert(key_usd_total(s, m) == key_usd_total(p, m) + match t.usd_value {
                        Some(u) => u,
                        None => 0,
                    });
                    assert(key_has_usd(s, m) == (key_has_usd(p, m) || t.usd_value is Some));
                } else {
                    // Entries of other keys do not match `t`.
                    if same_key(prev[j], t) {
                        if j < f {
                            assert(!same_key(prev[j], t));
                        } else {
                            assert(!same_key(prev[f], prev[j]));
                            assert(same_key(prev[f], t));
                            assert(false);
                        }
                    }
                    lemma_key_sum_congruent(p, out[j], prev[j]);
                    lemma_key_sum_congruent(s, out[j], prev[j]);
                }
            }
            assert forall|i: int| 0 <= i < s.len() implies exists|j: int|
                0 <= j < out.len() && same_key(out[j], #[trigger] s[i]) by {
                if i < s.len() - 1 {
                    let j = choose|j: int|
                        0 <= j < prev.len() && same_key(#[trigger] prev[j], p[i]);
                    if j == f {
                        assert(same_key(out[f], s[i]));
                    } else {
                        assert(same_key(out[j], s[i]));
                    }
                } else {
                    assert(same_key(out[f], s[i]));
                }
            }
        }
    }
}

/// Accumulator quantities stay within `len * UNIT_LIMIT` for a well-formed
/// batch, so the running sums fit comfortably in an `i128`.
proof fn lemma_net_accum_bounds(s: Seq<TransferV>)
    requires
        wf_all(s),
    ensures
        forall|j: int|
            0 <= j < net_accum(s).len() ==> -(s.len() * UNIT_LIMIT) <= (#[trigger] net_accum(
                s,
            )[j]).value <= s.len() * UNIT_LIMIT,
        forall|j: int|
            0 <= j < net_accum(s).len() ==> match (#[trigger] net_accum(s)[j]).usd_value {
                Some(u) => -(s.len() * UNIT_LIMIT) <= u <= s.len() * UNIT_LIMIT,
                None => true,
            },
    decreases s.len(),
{
    if s.len() > 0 {
        let p = s.drop_last();
        let t = s.last();
        assert(forall|i: int| 0 <= i < p.len() ==> #[trigger] p[i] == s[i]);
        lemma_net_accum_bounds(p);
        let prev = net_accum(p);
        let out = net_accum(s);
        lemma_find_key(prev, t);
        assert(p.len() * UNIT_LIMIT + UNIT_LIMIT == s.len() * UNIT_LIMIT) by (nonlinear_arith)
            requires
                p.len() == s.len() - 1,
        ;
        assert(t.wf());
        assert forall|j: int| 0 <= j < out.len() implies -(s.len() * UNIT_LIMIT)
            <= (#[trigger] out[j]).value <= s.len() * UNIT_LIMIT && match out[j].usd_value {
            Some(u) => -(s.len() * UNIT_LIMIT) <= u <= s.len() * UNIT_LIMIT,
            None => true,
        } by {
            let f = find_key(prev, t);
            if f == -1 || j != f {
                if j < prev.len() {
                    assert(prev[j] == out[j]);
                    assert(-(p.len() * UNIT_LIMIT) <= prev[j].value <= p.len() * UNIT_LIMIT);
                }
            }
        }
    }
}

/// [`drop_zero`] leaves a sequence of nonzero entries unchanged.
proof fn lemma_drop_zero_id(s: Seq<TransferV>)
    requires
        forall|i: int| 0 <= i < s.len() ==> (#[trigger] s[i]).value != 0,
    ensures
        drop_zero(s) == s,
    decreases s.len(),
{
    if s.len() > 0 {
        assert(forall|i: int|
            0 <= i < s.drop_last().len() ==> #[trigger] s.drop_last()[i] == s[i]);
        lemma_drop_zero_id(s.drop_last());
        assert(drop_zero(s) =~= s);
    }
}

/// Netting a batch whose keys are already pairwise distinct only re-lists it.
proof fn lemma_net_accum_of_distinct(r: Seq<TransferV>)
    requires
        distinct_keys(r),
    ensures
        net_accum(r) == r,
    decreases r.len(),
{
    if r.len() > 0 {
        let p = r.drop_last();
        assert(forall|i: int| 0 <= i < p.len() ==> #[trigger] p[i] == r[i]);
        lemma_net_accum_of_distinct(p);
        lemma_find_key(p, r.last());
        if find_key(p, r.last()) != -1 {
            let f = find_key(p, r.last());
            assert(same_key(r[f], r[r.len() - 1]));
        }
        assert(net_accum(r) =~= r);
    } else {
        assert(net_accum(r) =~= r);
    }
}

/// Netting invariant: the netted batch holds at most one entry per key,
/// and none of them is a zero movement.  Each entry carries the exact sum
/// of the signed values of its key, and the combined USD value of its key;
/// every key whose signed values do not cancel is represented.
pub proof fn lemma_net_spec_entries(s: Seq<TransferV>)
    ensures
        distinct_keys(net_spec(s)),
        forall|j: int| 0 <= j < net_spec(s).len() ==> (#[trigger] net_spec(s)[j]).value != 0,
        forall|j: int|
            0 <= j < net_spec(s).len() ==> (#[trigger] net_spec(s)[j]).value == key_value_sum(
                s,
                net_spec(s)[j],
            ),
        forall|j: int|
            0 <= j < net_spec(s).len() ==> (#[trigger] net_spec(s)[j]).usd_value == key_usd_sum(
                s,
                net_spec(s)[j],
            ),
        forall|i: int|
            0 <= i < s.len() && key_value_sum(s, #[trigger] s[i]) != 0 ==> exists|j: int|
                0 <= j < net_spec(s).len() && same_key(net_spec(s)[j], s[i]),
{
    let a = net_accum(s);
    let r = net_spec(s);
    lemma_net_accum_entries(s);
    lemma_drop_zero_distinct(a);
    lemma_drop_zero_membership(a);
    assert forall|j: int| 0 <= j < r.len() implies (#[trigger] r[j]).value == key_value_sum(
        s,
        r[j],
    ) && r[j].usd_value == key_usd_sum(s, r[j]) by {
        let i = choose|i: int| 0 <= i < a.len() && a[i] == r[j];
        assert(a[i].value == key_value_sum(s, a[i]));
    }
    assert forall|i: int|
        0 <= i < s.len() && key_value_sum(s, #[trigger] s[i]) != 0 implies exists|j: int|
        0 <= j < r.len() && same_key(r[j], s[i]) by {
        let j0 = choose|j0: int| 0 <= j0 < a.len() && same_key(#[trigger] a[j0], s[i]);
        lemma_key_sum_congruent(s, a[j0], s[i]);
        lemma_drop_zero_keeps(a, j0);
        let j1 = choose|j1: int| 0 <= j1 < drop_zero(a).len() && #[trigger] drop_zero(a)[j1]
            == a[j0];
        assert(same_key(r[j1], s[i]));
    }
}

/// Key sums lose exactly the removed transfer's contribution.
proof fn lemma_key_sum_remove(s: Seq<TransferV>, i: int, k: TransferV)
    requires
        0 <= i < s.len(),
    ensures
        key_value_sum(s.remove(i), k) == key_value_sum(s, k) - (if same_key(s[i], k) {
            s[i].value
        } else {
            0
        }),
        key_usd_total(s.remove(i), k) == key_usd_total(s, k) - (if same_key(s[i], k) {
            match s[i].usd_value {
                Some(u) => u,
                None => 0,
            }
        } else {
            0
        }),
        key_has_usd(s, k) == (key_has_usd(s.remove(i), k) || (same_key(s[i], k) && s[i].usd_value
            is Some)),
    decreases s.len(),
{
    if i == s.len() - 1 {
        assert(s.remove(i) =~= s.drop_last());
    } else {
        lemma_key_sum_remove(s.drop_last(), i, k);
        assert(s.remove(i).drop_last() =~= s.drop_last().remove(i));
        assert(s.remove(i).last() == s.last());
    }
}

/// The summed signed value and the combined USD value of every key do not
/// depend on the order of the batch: two batches holding the same movements
/// in any order give every key the same sums.
pub proof fn lemma_key_sums_order_independent(
    s1: Seq<TransferV>,
    s2: Seq<TransferV>,
    k: TransferV,
)
    requires
        s1.to_multiset() == s2.to_multiset(),
    ensures
        key_value_sum(s1, k) == key_value_sum(s2, k),
        key_has_usd(s1, k) == key_has_usd(s2, k),
        key_usd_total(s1, k) == key_usd_total(s2, k),
        key_usd_sum(s1, k) == key_usd_sum(s2, k),
    decreases s1.len(),
{
    s1.to_multiset_ensures();
    s2.to_multiset_ensures();
    if s1.len() == 0 {
        assert(s2.len() == 0);
    } else {
        let x = s1.last();
        assert(s1.contains(x));
        assert(s2.to_multiset().count(x) > 0);
        assert(s2.contains(x));
        let i = choose|i: int| 0 <= i < s2.len() && s2[i] == x;
        assert(s1.remove(s1.len() - 1).to_multiset() =~= s1.to_multiset().remove(x));
        assert(s2.remove(i).to_multiset() =~= s2.to_multiset().remove(x));
        assert(s1.remove(s1.len() - 1) =~= s1.drop_last());
        lemma_key_sums_order_independent(s1.drop_last(), s2.remove(i), k);
        lemma_key_sum_remove(s2, i, k);
    }
}

/// Quantities of a netted batch stay within `len * UNIT_LIMIT`.
pub proof fn lemma_net_spec_bounds(s: Seq<TransferV>)
    requires
        wf_all(s),
    ensures
        forall|j: int|
            0 <= j < net_spec(s).len() ==> -(s.len() * UNIT_LIMIT) <= (#[trigger] net_spec(
                s,
            )[j]).value <= s.len() * UNIT_LIMIT,
        forall|j: int|
            0 <= j < net_spec(s).len() ==> match (#[trigger] net_spec(s)[j]).usd_value {
                Some(u) => -(s.len() * UNIT_LIMIT) <= u <= s.len() * UNIT_LIMIT,
                None => true,
            },
{
    let a = net_accum(s);
    lemma_net_accum_bounds(s);
    lemma_drop_zero_membership(a);
    assert forall|j: int| 0 <= j < net_spec(s).len() implies -(s.len() * UNIT_LIMIT) <= (
    #[trigger] net_spec(s)[j]).value <= s.len() * UNIT_LIMIT && match net_spec(s)[j].usd_value {
        Some(u) => -(s.len() * UNIT_LIMIT) <= u <= s.len() * UNIT_LIMIT,
        None => true,
    } by {
        let i = choose|i: int| 0 <= i < a.len() && a[i] == net_spec(s)[j];
        assert(-(s.len() * UNIT_LIMIT) <= a[i].value <= s.len() * UNIT_LIMIT);
    }
}

/// Netting is idempotent: netting an already-netted batch changes nothing.
pub proof fn lemma_net_idempotent(s: Seq<TransferV>)
    ensures
        net_spec(net_spec(s)) == net_spec(s),
{
    let a = net_accum(s);
    let r = net_spec(s);
    lemma_net_accum_entries(s);
    lemma_drop_zero_distinct(a);
    lemma_drop_zero_membership(a);
    lemma_net_accum_of_distinct(r);
    lemma_drop_zero_id(r);
}

/// Two movements of one key whose signed values cancel leave no trace: a key
/// whose values sum to zero has no entry in the netted batch.
pub proof fn lemma_zero_sum_vanishes(s: Seq<TransferV>, k: TransferV)
    requires
        key_value_sum(s, k) == 0,
    ensures
        forall|j: int| 0 <= j < net_spec(s).len() ==> !same_key(#[trigger] net_spec(s)[j], k),
{
    let a = net_accum(s);
    lemma_net_accum_entries(s);
    lemma_drop_zero_membership(a);
    assert forall|j: int| 0 <= j < net_spec(s).len() implies !same_key(
        #[trigger] net_spec(s)[j],
        k,
    ) by {
        let e = net_spec(s)[j];
        if same_key(e, k) {
            let i = choose|i: int| 0 <= i < a.len() && a[i] == e;
            lemma_key_sum_congruent(s, e, k);
            assert(a[i].value == key_value_sum(s, a[i]));
            assert(e.value != 0);
        }
    }
}

/// Checks that every transfer of a batch is well formed, as [`net_transfers`]
/// and the USD backfill require.
pub fn transfers_in_range(transfers: &Vec<Transfer>) -> (r: bool)
    ensures
        r == wf_all(views(transfers@)),
{
    let n = transfers.len();
    let mut i: usize = 0;
    while i < n
        invariant
            i <= n,
            forall|q: int| 0 <= q < i ==> (#[trigger] views(transfers@)[q]).wf(),
        decreases n - i,
    {
        proof {
            assert(views(transfers@)[i as int] == transfers@[i as int]@);
        }
        let t = &transfers[i];
        if t.value.units < -UNIT_LIMIT || t.value.units > UNIT_LIMIT {
            return false;
        }
        match t.usd_value {
            Some(u) => {
                if u.units < -UNIT_LIMIT || u.units > UNIT_LIMIT {
                    return false;
                }
            },
            None => {},
        }
        match t.token.stable_usd_value {
            Some(p) => {
                if p.units < -UNIT_LIMIT || p.units > UNIT_LIMIT {
                    return false;
                }
            },
            None => {},
        }
        i += 1;
    }
    true
}

/// Index of the first entry of `acc` that nets with `t`, if any.
fn find_match(acc: &Vec<Transfer>, t: &Transfer) -> (r: Option<usize>)
    ensures
        match r {
            Some(j) => j < acc@.len() && find_key(views(acc@), t@) == j as int,
            None => find_key(views(acc@), t@) == -1,
        },
{
    proof {
        lemma_find_key(views(acc@), t@);
    }
    let n = acc.len();
    let mut j: usize = 0;
    while j < n
        invariant
            j <= n,
            forall|i: int| 0 <= i < j ==> !same_key(views(acc@)[i], t@),
        decreases n - j,
    {
        if acc[j].transfer_id == t.transfer_id && acc[j].token.same_token(&t.token) {
            proof {
                assert(views(acc@)[j as int] == acc@[j as int]@);
                assert(same_key(views(acc@)[j as int], t@));
            }
            return Some(j);
        }
        j += 1;
    }
    None
}

/// Merges a batch of transfers into net transfers: one entry per on-chain
/// event and token, whose signed value is the sum of the signed values of
/// all movements of that key and whose USD value combines all their USD
/// values (absent counted as zero, all absent stays absent).  Entries whose
/// signed values cancel to exactly zero are discarded.  The remaining
/// fields of each entry come from the first movement of its key.
pub fn net_transfers(transfers: Vec<Transfer>) -> (r: Vec<Transfer>)
    requires
        wf_all(views(transfers@)),
    ensures
        views(r@) == net_spec(views(transfers@)),
        distinct_keys(views(r@)),
        forall|j: int| 0 <= j < r@.len() ==> (#[trigger] views(r@)[j]).value != 0,
        forall|j: int|
            0 <= j < r@.len() ==> (#[trigger] views(r@)[j]).value == key_value_sum(
                views(transfers@),
                views(r@)[j],
            ),
        forall|j: int|
            0 <= j < r@.len() ==> (#[trigger] views(r@)[j]).usd_value == key_usd_sum(
                views(transfers@),
                views(r@)[j],
            ),
        forall|i: int|
            0 <= i < transfers@.len() && key_value_sum(views(transfers@), views(transfers@)[i])
                != 0 ==> exists|j: int|
                0 <= j < r@.len() && same_key(views(r@)[j], #[trigger] views(transfers@)[i]),
{
    let ghost s = views(transfers@);
    let mut acc: Vec<Transfer> = Vec::new();
    let mut idx: usize = 0;
    while idx < transfers.len()
        invariant
            idx <= transfers@.len(),
            views(acc@) == net_accum(s.take(idx as int)),
        decreases transfers@.len() - idx,
    {
        let t = &transfers[idx];
        proof {
            assert(s.take(idx as int + 1).drop_last() =~= s.take(idx as int));
            assert(s.take(idx as int + 1).last() == t@);
            assert forall|i: int| 0 <= i < s.take(idx as int).len() implies (#[trigger] s.take(
                idx as int,
            )[i]).wf() by {
                assert(s[i].wf());
            }
            lemma_net_accum_bounds(s.take(idx as int));
            lemma_find_key(views(acc@), t@);
            assert((idx + 1) * UNIT_LIMIT <= 18446744073709551616 * UNIT_LIMIT)
                by (nonlinear_arith)
                requires
                    0 <= idx + 1 <= 18446744073709551616,
            ;
            assert(idx * UNIT_LIMIT + UNIT_LIMIT == (idx + 1) * UNIT_LIMIT) by (nonlinear_arith);
        }
        match find_match(&acc, t) {
            Some(j) => {
                let entry = &acc[j];
                let new_value = entry.value.add(&t.value);
                let new_usd = match (entry.usd_value, t.usd_value) {
                    (Some(x), Some(y)) => Some(x.add(&y)),
                    (Some(x), None) => Some(x),
                    (None, Some(y)) => Some(y),
                    (None, None) => None,
                };
                let updated = Transfer {
                    transfer_id: entry.transfer_id.clone(),
                    datetime: entry.datetime.clone(),
                    token: entry.token.clone(),
                    value: new_value,
                    usd_value: new_usd,
                    counterparty: clone_strings(&entry.counterparty),
                };
                proof {
                    assert(updated@ == merged(views(acc@)[j as int], t@));
                }
                acc.set(j, updated);
                proof {
                    assert(views(acc@) =~= net_accum(s.take(idx as int + 1)));
                }
            },
            None => {
                acc.push(t.clone());
                proof {
                    assert(views(acc@) =~= net_accum(s.take(idx as int + 1)));
                }
            },
        }
        idx += 1;
    }
    proof {
        assert(s.take(transfers@.len() as int) =~= s);
    }
    let mut out: Vec<Transfer> = Vec::new();
    let mut k: usize = 0;
    while k < acc.len()
        invariant
            k <= acc@.len(),
            views(out@) == drop_zero(views(acc@).take(k as int)),
        decreases acc@.len() - k,
    {
        proof {
            assert(views(acc@).take(k as int + 1).drop_last() =~= views(acc@).take(k as int));
        }
        if !acc[k].value.is_zero() {
            out.push(acc[k].clone());
        }
        proof {
            assert(views(out@) =~= drop_zero(views(acc@).take(k as int + 1)));
        }
        k += 1;
    }
    proof {
        assert(views(acc@).take(acc@.len() as int) =~= views(acc@));
        lemma_net_spec_entries(s);
    }
    out
}

} // verus!
