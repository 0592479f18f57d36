//! USD backfill for two-leg swaps and operator-supplied USD overrides.
//!
//! [`populate_usd`] derives USD values from statically priced tokens: every
//! stable-priced leg is valued at `value * price`, and in a two-leg group
//! with exactly one stable-priced leg that known magnitude is propagated to
//! both legs with the sign of each leg's own value.  [`apply_manual_usd`]
//! then lets the operator pin the USD magnitude of chosen events, taking
//! precedence over anything computed before.

use vstd::prelude::*;

use crate::amount::{abs_int, scaled_mul, Amount, UNIT_LIMIT};
use crate::transfer::{clone_strings, views, wf_all, Transfer, TransferV};

verus! {

/// Two transfers belong to the same on-chain event.
pub open spec fn same_group(a: TransferV, b: TransferV) -> bool {
    a.transfer_id == b.transfer_id
}

/// Number of transfers in `g`'s event.
pub open spec fn group_count(s: Seq<TransferV>, g: TransferV) -> int
    decreases s.len(),
{
    if s.len() == 0 {
        0
    } else {
        group_count(s.drop_last(), g) + if same_group(s.last(), g) {
            1int
        } else {
            0int
        }
    }
}

/// Number of transfers in `g`'s event whose token has a static USD price.
pub open spec fn group_stable_count(s: Seq<TransferV>, g: TransferV) -> int
    decreases s.len(),
{
    if s.len() == 0 {
        0
    } else {
        group_stable_count(s.drop_last(), g) + if same_group(s.last(), g) && s.last().token
            .stable_usd_value is Some {
            1int
        } else {
            0int
        }
    }
}

/// Index of the first transfer in `g`'s event with a stable-priced token,
/// or `-1` when there is none.
pub open spec fn first_stable(s: Seq<TransferV>, g: TransferV) -> int
    decreases s.len(),
{
    if s.len() == 0 {
        -1
    } else {
        let r = first_stable(s.drop_last(), g);
        if r != -1 {
            r
        } else if same_group(s.last(), g) && s.last().token.stable_usd_value is Some {
            s.len() - 1
        } else {
            -1
        }
    }
}

/// [`first_stable`] finds exactly the first stable-priced leg of the event.
proof fn lemma_first_stable(s: Seq<TransferV>, g: TransferV)
    ensures
        group_stable_count(s, g) >= 0,
        first_stable(s, g) == -1 <==> group_stable_count(s, g) == 0,
        first_stable(s, g) != -1 ==> {
            &&& 0 <= first_stable(s, g) < s.len()
            &&& same_group(s[first_stable(s, g)], g)
            &&& s[first_stable(s, g)].token.stable_usd_value is Some
        },
    decreases s.len(),
{
    if s.len() > 0 {
        lemma_first_stable(s.drop_last(), g);
    }
}

/// The image of the `i`-th transfer after USD backfill.
///
/// In a two-leg event with exactly one stable-priced leg, both legs receive
/// the known magnitude `|value * price|` of that leg, signed like their own
/// value.  Outside that shape, a stable-priced leg is valued at its own
/// `value * price` and any other leg keeps its USD value.
pub open spec fn backfill_one(s: Seq<TransferV>, i: int) -> TransferV {
    let t = s[i];
    if group_count(s, t) == 2 && group_stable_count(s, t) == 1 {
        let leg = s[first_stable(s, t)];
        let known = abs_int(scaled_mul(leg.value, leg.token.stable_usd_value->0));
        TransferV {
            usd_value: Some(
                if t.value >= 0 {
                    known
                } else {
                    -known
                },
            ),
            ..t
        }
    } else if t.token.stable_usd_value is Some {
        TransferV { usd_value: Some(scaled_mul(t.value, t.token.stable_usd_value->0)), ..t }
    } else {
        t
    }
}

/// Derives USD values for statically priced tokens and backfills the
/// counter-leg of two-leg swaps against a USD-priced asset.
pub fn populate_usd(transfers: &mut Vec<Transfer>)
    requires
        wf_all(views(old(transfers)@)),
    ensures
        final(transfers)@.len() == old(transfers)@.len(),
        forall|i: int|
            0 <= i < old(transfers)@.len() ==> views(final(transfers)@)[i] == backfill_one(
                views(old(transfers)@),
                i,
            ),
{
    let ghost s = views(old(transfers)@);
    let n = transfers.len();
    let mut out: Vec<Transfer> = Vec::new();
    let mut i: usize = 0;
    while i < n
        invariant
            i <= n,
            n == transfers@.len(),
            transfers@ == old(transfers)@,
            out@.len() == i,
            forall|q: int| 0 <= q < i ==> views(out@)[q] == backfill_one(s, q),
        decreases n - i,
    {
        let t = &transfers[i];
        // Scan the event of `t` for its leg count and stable-priced legs.
        let mut cnt: usize = 0;
        let mut scnt: usize = 0;
        let mut fs: usize = 0;
        let mut has_fs: bool = false;
        let mut j: usize = 0;
        while j < n
            invariant
                j <= n,
                n == transfers@.len(),
                transfers@ == old(transfers)@,
                cnt <= j,
                scnt <= j,
                cnt as int == group_count(s.take(j as int), s[i as int]),
                scnt as int == group_stable_count(s.take(j as int), s[i as int]),
                !has_fs ==> first_stable(s.take(j as int), s[i as int]) == -1,
                has_fs ==> fs < j && first_stable(s.take(j as int), s[i as int]) == fs as int,
            decreases n - j,
        {
            proof {
                assert(s.take(j as int + 1).drop_last() =~= s.take(j as int));
                assert(s.take(j as int + 1).last() == s[j as int]);
            }
            if transfers[j].transfer_id == t.transfer_id {
                cnt += 1;
                if transfers[j].token.stable_usd_value.is_some() {
                    scnt += 1;
                    if !has_fs {
                        fs = j;
                        has_fs = true;
                    }
                }
            }
            j += 1;
        }
        proof {
            assert(s.take(n as int) =~= s);
            lemma_first_stable(s, s[i as int]);
        }
        let new_usd: Option<Amount> = if cnt == 2 && scnt == 1 {
            let leg = &transfers[fs];
            let price = match leg.token.stable_usd_value {
                Some(p) => p,
                None => {
                    proof {
                        // The scan picked this leg for its static price.
                        assert(views(transfers@)[fs as int] == transfers@[fs as int]@);
                        assert(false);
                    }
                    Amount::zero()
                },
            };
            proof {
                assert(s[fs as int].wf());
                crate::amount::lemma_mul_in_range(leg.value@, price@);
                crate::amount::lemma_tdiv_bounds(
                    leg.value@ * price@,
                    crate::amount::UNITS_PER_WHOLE as int,
                );
            }
            let known = leg.value.mul_scaled(&price).abs();
            if t.value.is_negative() {
                Some(known.neg())
            } else {
                Some(known)
            }
        } else {
            match t.token.stable_usd_value {
                Some(p) => {
                    proof {
                        assert(s[i as int].wf());
                        crate::amount::lemma_mul_in_range(t.value@, p@);
                    }
                    Some(t.value.mul_scaled(&p))
                },
                None => t.usd_value,
            }
        };
        out.push(
            Transfer {
                transfer_id: t.transfer_id.clone(),
                datetime: t.datetime.clone(),
                token: t.token.clone(),
                value: t.value,
                usd_value: new_usd,
                counterparty: clone_strings(&t.counterparty),
            },
        );
        proof {
            assert(views(out@)[i as int] == backfill_one(s, i as int));
        }
        i += 1;
    }
    *transfers = out;
}

/// Index of the first override entry for event `tid`, or `-1`.
pub open spec fn override_find(ov: Seq<(String, Amount)>, tid: Seq<char>) -> int
    decreases ov.len(),
{
    if ov.len() == 0 {
        -1
    } else if ov[0].0@ == tid {
        0
    } else {
        let rest = override_find(ov.drop_first(), tid);
        if rest == -1 {
            -1
        } else {
            rest + 1
        }
    }
}

/// [`override_find`] returns the index of the first matching entry.
proof fn lemma_override_find(ov: Seq<(String, Amount)>, tid: Seq<char>)
    ensures
        override_find(ov, tid) == -1 ==> forall|i: int|
            0 <= i < ov.len() ==> (#[trigger] ov[i].0)@ != tid,
        override_find(ov, tid) != -1 ==> {
            &&& 0 <= override_find(ov, tid) < ov.len()
            &&& ov[override_find(ov, tid)].0@ == tid
            &&& forall|i: int| 0 <= i < override_find(ov, tid) ==> (#[trigger] ov[i].0)@ != tid
        },
    decreases ov.len(),
{
    if ov.len() > 0 && ov[0].0@ != tid {
        lemma_override_find(ov.drop_first(), tid);
        assert(forall|i: int| 1 <= i < ov.len() ==> #[trigger] ov[i] == ov.drop_first()[i - 1]);
    }
}

/// The image of a transfer after manual overrides: when its event has an
/// override, the USD value becomes that magnitude, signed like the
/// transfer's own value; otherwise the transfer is unchanged.
pub open spec fn override_one(ov: Seq<(String, Amount)>, t: TransferV) -> TransferV {
    let f = override_find(ov, t.transfer_id);
    if f == -1 {
        t
    } else {
        let mag = ov[f].1@;
        TransferV {
            usd_value: Some(
                if t.value >= 0 {
                    mag
                } else {
                    -mag
                },
            ),
            ..t
        }
    }
}

/// Every override magnitude is in range.
pub open spec fn overrides_wf(ov: Seq<(String, Amount)>) -> bool {
    forall|i: int| 0 <= i < ov.len() ==> -UNIT_LIMIT <= (#[trigger] ov[i].1)@ <= UNIT_LIMIT
}

/// The magnitude of the first override entry for `tid`, if any.
fn find_override(overrides: &Vec<(String, Amount)>, tid: &String) -> (r: Option<Amount>)
    ensures
        match r {
            Some(m) => {
                let f = override_find(overrides@, tid@);
                0 <= f < overrides@.len() && m == overrides@[f].1
            },
            None => override_find(overrides@, tid@) == -1,
        },
{
    proof {
        lemma_override_find(overrides@, tid@);
    }
    let n = overrides.len();
    let mut j: usize = 0;
    while j < n
        invariant
            j <= n,
            forall|q: int| 0 <= q < j ==> (#[trigger] overrides@[q].0)@ != tid@,
        decreases n - j,
    {
        if overrides[j].0 == *tid {
            return Some(overrides[j].1);
        }
        j += 1;
    }
    None
}

/// Applies operator-supplied USD overrides: a transfer whose event
/// identifier has an entry gets that absolute USD value, signed like the
/// transfer's own value, whatever was computed before; all other transfers
/// are untouched.
pub fn apply_manual_usd(transfers: &mut Vec<Transfer>, overrides: &Vec<(String, Amount)>)
    requires
        overrides_wf(overrides@),
    ensures
        final(transfers)@.len() == old(transfers)@.len(),
        forall|i: int|
            0 <= i < old(transfers)@.len() ==> views(final(transfers)@)[i] == override_one(
                overrides@,
                views(old(transfers)@)[i],
            ),
{
    let n = transfers.len();
    let mut out: Vec<Transfer> = Vec::new();
    let mut i: usize = 0;
    while i < n
        invariant
            i <= n,
            n == transfers@.len(),
            transfers@ == old(transfers)@,
            out@.len() == i,
            forall|q: int|
                0 <= q < i ==> views(out@)[q] == override_one(
                    overrides@,
                    views(old(transfers)@)[q],
                ),
        decreases n - i,
    {
        let t = &transfers[i];
        let new_usd: Option<Amount> = match find_override(overrides, &t.transfer_id) {
            Some(mag) => {
                proof {
                    let f = override_find(overrides@, t@.transfer_id);
                    assert(-UNIT_LIMIT <= overrides@[f].1@ <= UNIT_LIMIT);
                }
                if t.value.is_negative() {
                    Some(mag.neg())
                } else {
                    Some(mag)
                }
            },
            None => t.usd_value,
        };
        let ghost prev_out = out@;
        out.push(
            Transfer {
                transfer_id: t.transfer_id.clone(),
                datetime: t.datetime.clone(),
                token: t.token.clone(),
                value: t.value,
                usd_value: new_usd,
                counterparty: clone_strings(&t.counterparty),
            },
        );
        proof {
            assert forall|q: int| 0 <= q <= i as int implies views(out@)[q] == override_one(
                overrides@,
                views(old(transfers)@)[q],
            ) by {
                if q < i as int {
                    assert(out@[q] == prev_out[q]);
                    assert(views(prev_out)[q] == override_one(
                        overrides@,
                        views(old(transfers)@)[q],
                    ));
                } else {
                    assert(views(out@)[q] == out@[q]@);
                }
            }
        }
        i += 1;
    }
    *transfers = out;
}

} // verus!
