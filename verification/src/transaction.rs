//! Grouping of net transfers into classified transactions.
//!
//! [`to_transactions`] nets a batch, gathers the net transfers of each
//! on-chain event, names the assets involved, and classifies every event.

use vstd::prelude::*;

use crate::amount::{UNIT_LIMIT, USD_LIMIT};

use crate::category::{classify, classify_spec, table_valid, usd_bounded, TransactionCategory};
use crate::transfer::{
    lemma_net_spec_bounds, net_spec, net_transfers, views, wf_all, Transfer, TransferV,
};

verus! {

/// Grouped representation of on-chain activity: the net transfers of one
/// event and their classification.
pub struct Transaction {
    /// Identifier shared across the underlying transfers.
    pub transfer_id: String,
    /// ISO8601 timestamp of the event, from its first net transfer.
    pub datetime: String,
    /// Classification of the transaction.
    pub category: TransactionCategory,
    /// Net transfers that compose this transaction.
    pub net_transfers: Vec<Transfer>,
    /// The symbols of the tokens involved, joined by `|`.
    pub assets: String,
}

/// The event identifiers of a batch, in first-occurrence order.
pub open spec fn first_ids(s: Seq<TransferV>) -> Seq<Seq<char>>
    decreases s.len(),
{
    if s.len() == 0 {
        Seq::empty()
    } else {
        let p = first_ids(s.drop_last());
        if p.contains(s.last().transfer_id) {
            p
        } else {
            p.push(s.last().transfer_id)
        }
    }
}

/// The transfers of a batch belonging to event `id`, in order.
pub open spec fn keep_id(s: Seq<TransferV>, id: Seq<char>) -> Seq<TransferV>
    decreases s.len(),
{
    if s.len() == 0 {
        Seq::empty()
    } else if s.last().transfer_id == id {
        keep_id(s.drop_last(), id).push(s.last())
    } else {
        keep_id(s.drop_last(), id)
    }
}

/// The token symbols of a group, joined by `|`.
pub open spec fn join_symbols(s: Seq<TransferV>) -> Seq<char>
    decreases s.len(),
{
    if s.len() == 0 {
        Seq::empty()
    } else if s.len() == 1 {
        s[0].token.symbol
    } else {
        join_symbols(s.drop_last()) + "|"@ + s.last().token.symbol
    }
}

/// An identifier is listed exactly when some transfer carries it, each
/// identifier is listed once, and absent identifiers keep no transfers.
proof fn lemma_first_ids(s: Seq<TransferV>)
    ensures
        forall|i: int|
            0 <= i < s.len() ==> first_ids(s).contains((#[trigger] s[i]).transfer_id),
        forall|j: int|
            0 <= j < first_ids(s).len() ==> exists|i: int|
                0 <= i < s.len() && (#[trigger] s[i]).transfer_id == #[trigger] first_ids(s)[j],
        forall|j1: int, j2: int|
            0 <= j1 < j2 < first_ids(s).len() ==> first_ids(s)[j1] != first_ids(s)[j2],
    decreases s.len(),
{
    if s.len() > 0 {
        lemma_first_ids(s.drop_last());
        let p = first_ids(s.drop_last());
        let out = first_ids(s);
        assert(forall|i: int|
            0 <= i < s.drop_last().len() ==> #[trigger] s.drop_last()[i] == s[i]);
        assert forall|i: int| 0 <= i < s.len() implies out.contains(
            (#[trigger] s[i]).transfer_id,
        ) by {
            if i < s.len() - 1 {
                assert(s.drop_last()[i] == s[i]);
                assert(p.contains(s.drop_last()[i].transfer_id));
                let j = choose|j: int| 0 <= j < p.len() && p[j] == s[i].transfer_id;
                assert(out[j] == s[i].transfer_id);
            } else {
                if p.contains(s.last().transfer_id) {
                    let j = choose|j: int| 0 <= j < p.len() && p[j] == s.last().transfer_id;
                    assert(out[j] == s[i].transfer_id);
                } else {
                    assert(out[out.len() - 1] == s[i].transfer_id);
                }
            }
        }
        assert forall|j: int| 0 <= j < out.len() implies exists|i: int|
            0 <= i < s.len() && (#[trigger] s[i]).transfer_id == #[trigger] out[j] by {
            if j < p.len() {
                let i = choose|i: int|
                    0 <= i < s.drop_last().len() && (#[trigger] s.drop_last()[i]).transfer_id
                        == p[j];
                assert(s[i].transfer_id == out[j]);
            } else {
                assert(s[s.len() - 1].transfer_id == out[j]);
            }
        }
        assert forall|j1: int, j2: int| 0 <= j1 < j2 < out.len() implies out[j1] != out[j2] by {
            if j2 == p.len() {
                if out[j1] == out[j2] {
                    assert(p.contains(s.last().transfer_id));
                }
            }
        }
    }
}

/// A batch keeps no transfers for an identifier none of them carries.
proof fn lemma_keep_id_empty(s: Seq<TransferV>, id: Seq<char>)
    requires
        forall|i: int| 0 <= i < s.len() ==> (#[trigger] s[i]).transfer_id != id,
    ensures
        keep_id(s, id) == Seq::<TransferV>::empty(),
    decreases s.len(),
{
    if s.len() > 0 {
        assert(forall|i: int|
            0 <= i < s.drop_last().len() ==> #[trigger] s.drop_last()[i] == s[i]);
        lemma_keep_id_empty(s.drop_last(), id);
    }
}

/// Every kept transfer occurs in the batch.
proof fn lemma_keep_id_members(s: Seq<TransferV>, id: Seq<char>)
    ensures
        forall|j: int|
            0 <= j < keep_id(s, id).len() ==> exists|i: int|
                0 <= i < s.len() && s[i] == #[trigger] keep_id(s, id)[j],
    decreases s.len(),
{
    if s.len() > 0 {
        lemma_keep_id_members(s.drop_last(), id);
        let prev = keep_id(s.drop_last(), id);
        assert forall|j: int| 0 <= j < keep_id(s, id).len() implies exists|i: int|
            0 <= i < s.len() && s[i] == #[trigger] keep_id(s, id)[j] by {
            if j < prev.len() {
                let i = choose|i: int|
                    0 <= i < s.drop_last().len() && s.drop_last()[i] == prev[j];
                assert(s[i] == keep_id(s, id)[j]);
            } else {
                assert(s[s.len() - 1] == keep_id(s, id)[j]);
            }
        }
    }
}

/// The token symbols of a group, joined by `|`.
fn join_symbols_exec(transfers: &Vec<Transfer>) -> (r: String)
    ensures
        r@ == join_symbols(views(transfers@)),
{
    let ghost s = views(transfers@);
    let mut r = String::new();
    let n = transfers.len();
    let mut i: usize = 0;
    while i < n
        invariant
            i <= n,
            n == transfers@.len(),
            r@ == join_symbols(s.take(i as int)),
        decreases n - i,
    {
        proof {
            assert(s.take(i as int + 1).drop_last() =~= s.take(i as int));
            assert(s.take(i as int + 1).last() == s[i as int]);
            assert(s[i as int] == transfers@[i as int]@);
        }
        if i > 0 {
            r.append("|");
        } else {
            proof {
                assert(s.take(1).len() == 1 && s.take(1)[0] == s[0]);
            }
        }
        r.append(transfers[i].token.symbol.as_str());
        proof {
            if i == 0 {
                assert(r@ =~= join_symbols(s.take(1)));
            }
        }
        i += 1;
    }
    proof {
        assert(s.take(n as int) =~= s);
    }
    r
}

/// Groups a batch into classified transactions.
///
/// The batch is netted; the net transfers of each on-chain event — in
/// first-occurrence order — form one [`Transaction`], timestamped by the
/// event's first net transfer, naming the symbols of the tokens involved,
/// and classified against the category table.
pub fn to_transactions(transfers: Vec<Transfer>, categories: &Vec<(String, String)>) -> (r: Vec<
    Transaction,
>)
    requires
        wf_all(views(transfers@)),
        transfers@.len() <= 1_000_000,
        table_valid(categories@),
    ensures
        ({
            let nv = net_spec(views(transfers@));
            let ids = first_ids(nv);
            &&& r@.len() == ids.len()
            &&& forall|j: int| 0 <= j < r@.len() ==> (#[trigger] r@[j]).transfer_id@ == ids[j]
            &&& forall|j: int|
                0 <= j < r@.len() ==> views((#[trigger] r@[j]).net_transfers@) == keep_id(
                    nv,
                    ids[j],
                )
            &&& forall|j: int|
                0 <= j < r@.len() ==> (#[trigger] r@[j]).category@ == classify_spec(
                    categories@,
                    keep_id(nv, ids[j]),
                )
            &&& forall|j: int|
                0 <= j < r@.len() ==> (#[trigger] r@[j]).assets@ == join_symbols(
                    keep_id(nv, ids[j]),
                )
            &&& forall|j: int|
                0 <= j < r@.len() ==> keep_id(nv, ids[j]).len() > 0 && (
                #[trigger] r@[j]).datetime@ == keep_id(nv, ids[j])[0].datetime
        }),
{
    let ghost sv = views(transfers@);
    let netted = net_transfers(transfers);
    let ghost nv = net_spec(sv);
    proof {
        lemma_net_spec_bounds(sv);
        assert(sv.len() * UNIT_LIMIT <= 1_000_000 * UNIT_LIMIT) by (nonlinear_arith)
            requires
                0 <= sv.len() <= 1_000_000,
        ;
    }
    let mut out: Vec<Transaction> = Vec::new();
    let n = netted.len();
    let mut k: usize = 0;
    while k < n
        invariant
            k <= n,
            n == netted@.len(),
            views(netted@) == nv,
            out@.len() == first_ids(nv.take(k as int)).len(),
            forall|j: int|
                0 <= j < out@.len() ==> (#[trigger] out@[j]).transfer_id@ == first_ids(
                    nv.take(k as int),
                )[j],
            forall|j: int|
                0 <= j < out@.len() ==> views((#[trigger] out@[j]).net_transfers@) == keep_id(
                    nv.take(k as int),
                    first_ids(nv.take(k as int))[j],
                ),
            forall|j: int|
                0 <= j < out@.len() ==> (#[trigger] out@[j]).net_transfers@.len() > 0 && (
                #[trigger] out@[j]).datetime@ == views(out@[j].net_transfers@)[0].datetime,
        decreases n - k,
    {
        proof {
            lemma_first_ids(nv.take(k as int));
            assert(nv.take(k as int + 1).drop_last() =~= nv.take(k as int));
            assert(nv.take(k as int + 1).last() == nv[k as int]);
            assert(nv[k as int] == netted@[k as int]@);
        }
        let t = &netted[k];
        let ghost id = t@.transfer_id;
        let ghost ids = first_ids(nv.take(k as int));
        // Look for the transaction of this event.
        let mut jj: usize = 0;
        let mut found: bool = false;
        while jj < out.len() && !found
            invariant
                jj <= out@.len(),
                !found ==> forall|q: int|
                    0 <= q < jj ==> (#[trigger] out@[q]).transfer_id@ != id,
                found ==> jj < out@.len() && out@[jj as int].transfer_id@ == id,
            decreases out@.len() - jj + (if found {
                0int
            } else {
                1int
            }),
        {
            if out[jj].transfer_id == t.transfer_id {
                found = true;
            } else {
                jj += 1;
            }
        }
        if found {
            proof {
                assert(ids[jj as int] == id);
                assert(ids.contains(id));
            }
            let mut tx = out.remove(jj);
            let ghost old_members = tx.net_transfers@;
            tx.net_transfers.push(t.clone());
            proof {
                assert(views(tx.net_transfers@) =~= views(old_members).push(nv[k as int]));
            }
            let ghost txg = tx;
            out.insert(jj, tx);
            proof {
                let prev_ids = ids;
                assert(first_ids(nv.take(k as int + 1)) == prev_ids);
                assert forall|j: int| 0 <= j < out@.len() implies views(
                    (#[trigger] out@[j]).net_transfers@,
                ) == keep_id(nv.take(k as int + 1), first_ids(nv.take(k as int + 1))[j]) by {
                    if j != jj as int {
                        assert(prev_ids[j] != prev_ids[jj as int]);
                        assert(keep_id(nv.take(k as int + 1), prev_ids[j]) == keep_id(
                            nv.take(k as int),
                            prev_ids[j],
                        ));
                    } else {
                        assert(keep_id(nv.take(k as int + 1), id) == keep_id(
                            nv.take(k as int),
                            id,
                        ).push(nv[k as int]));
                    }
                }
            }
        } else {
            proof {
                assert(jj as int == out@.len());
                assert(!ids.contains(id)) by {
                    if ids.contains(id) {
                        let q = choose|q: int| 0 <= q < ids.len() && ids[q] == id;
                        assert(out@[q].transfer_id@ == id);
                    }
                }
                assert forall|i: int| 0 <= i < nv.take(k as int).len() implies (#[trigger] nv.take(
                    k as int,
                )[i]).transfer_id != id by {
                    if nv.take(k as int)[i].transfer_id == id {
                        assert(ids.contains(nv.take(k as int)[i].transfer_id));
                    }
                }
                lemma_keep_id_empty(nv.take(k as int), id);
            }
            let mut members: Vec<Transfer> = Vec::new();
            members.push(t.clone());
            let tx = Transaction {
                transfer_id: t.transfer_id.clone(),
                datetime: t.datetime.clone(),
                category: TransactionCategory::Unknown,
                net_transfers: members,
                assets: String::new(),
            };
            out.push(tx);
            proof {
                assert(first_ids(nv.take(k as int + 1)) == ids.push(id));
                assert(views(out@[out@.len() - 1].net_transfers@) =~= keep_id(
                    nv.take(k as int + 1),
                    id,
                ));
                assert forall|j: int| 0 <= j < out@.len() implies views(
                    (#[trigger] out@[j]).net_transfers@,
                ) == keep_id(nv.take(k as int + 1), first_ids(nv.take(k as int + 1))[j]) by {
                    if j < out@.len() - 1 {
                        assert(ids[j] != id) by {
                            if ids[j] == id {
                                assert(ids.contains(id));
                            }
                        }
                        assert(keep_id(nv.take(k as int + 1), ids[j]) == keep_id(
                            nv.take(k as int),
                            ids[j],
                        ));
                    }
                }
            }
        }
        k += 1;
    }
    proof {
        assert(nv.take(n as int) =~= nv);
    }
    // Name the assets and classify each event.
    let m = out.len();
    let mut j: usize = 0;
    while j < m
        invariant
            j <= m,
            m == out@.len(),
            m == first_ids(nv).len(),
            forall|q: int|
                0 <= q < m ==> (#[trigger] out@[q]).transfer_id@ == first_ids(nv)[q],
            forall|q: int|
                0 <= q < m ==> views((#[trigger] out@[q]).net_transfers@) == keep_id(
                    nv,
                    first_ids(nv)[q],
                ),
            forall|q: int|
                0 <= q < m ==> (#[trigger] out@[q]).net_transfers@.len() > 0 && (
                #[trigger] out@[q]).datetime@ == views(out@[q].net_transfers@)[0].datetime,
            forall|q: int|
                0 <= q < j ==> (#[trigger] out@[q]).category@ == classify_spec(
                    categories@,
                    keep_id(nv, first_ids(nv)[q]),
                ),
            forall|q: int|
                0 <= q < j ==> (#[trigger] out@[q]).assets@ == join_symbols(
                    keep_id(nv, first_ids(nv)[q]),
                ),
        decreases m - j,
    {
        let ghost old_out = out@;
        let tx = out.remove(j);
        proof {
            lemma_keep_id_members(nv, first_ids(nv)[j as int]);
            assert forall|q: int| 0 <= q < views(tx.net_transfers@).len() implies match (
            #[trigger] views(tx.net_transfers@)[q]).usd_value {
                Some(u) => -USD_LIMIT <= u <= USD_LIMIT,
                None => true,
            } by {
                let i = choose|i: int|
                    0 <= i < nv.len() && nv[i] == #[trigger] keep_id(nv, first_ids(nv)[j as int])[q];
                assert(-(sv.len() * UNIT_LIMIT) <= nv[i].value <= sv.len() * UNIT_LIMIT);
            }
        }
        let assets = join_symbols_exec(&tx.net_transfers);
        let category = classify(&tx.net_transfers, categories);
        let finished = Transaction {
            transfer_id: tx.transfer_id,
            datetime: tx.datetime,
            category,
            net_transfers: tx.net_transfers,
            assets,
        };
        let ghost fng = finished;
        out.insert(j, finished);
        proof {
            assert(out@ =~= old_out.update(j as int, fng));
        }
        j += 1;
    }
    out
}

} // verus!
