//! First-in-first-out cost-basis accounting.
//!
//! [`transfers_to_sales`] consumes net transfers in time order.  Each
//! incoming transfer with a known USD value opens a lot; each outgoing
//! transfer consumes lots of its token front to back, emitting one [`Sale`]
//! per consumed piece.  When lots run out, the remainder is sold with a zero
//! cost basis.

use vstd::prelude::*;

use crate::amount::{abs_int, scaled_div, scaled_mul, tdiv, Amount, UNITS_PER_WHOLE, UNIT_LIMIT, USD_LIMIT};
use crate::token::{Token, TokenV};
use crate::transfer::{views, Transfer, TransferV};

verus! {

/// Mathematical image of a [`Sale`].
pub struct SaleV {
    pub datetime: Seq<char>,
    pub token: TokenV,
    pub amount: int,
    pub proceeds_usd: int,
    pub cost_basis_usd: int,
    pub gain_usd: int,
}

/// A realized sale of one piece of token quantity.
pub struct Sale {
    /// Timestamp of the outgoing transfer that realized the sale.
    pub datetime: String,
    /// Token sold.
    pub token: Token,
    /// Amount of token sold (always positive).
    pub amount: Amount,
    /// USD proceeds for the sold amount.
    pub proceeds_usd: Amount,
    /// USD cost basis for the sold amount (zero when no lot was available).
    pub cost_basis_usd: Amount,
    /// Realized gain: proceeds minus cost basis.
    pub gain_usd: Amount,
}

impl View for Sale {
    type V = SaleV;

    open spec fn view(&self) -> SaleV {
        SaleV {
            datetime: self.datetime@,
            token: self.token@,
            amount: self.amount@,
            proceeds_usd: self.proceeds_usd@,
            cost_basis_usd: self.cost_basis_usd@,
            gain_usd: self.gain_usd@,
        }
    }
}

/// The images of a sequence of sales.
pub open spec fn sale_views(s: Seq<Sale>) -> Seq<SaleV> {
    s.map_values(|x: Sale| x@)
}

/// A held position: a token quantity and the USD cost basis behind it.
pub struct PortfolioItem {
    /// Token being held.
    pub token: Token,
    /// USD cost basis of the held amount.
    pub cost_basis: Amount,
    /// Amount of token held.
    pub amount: Amount,
}

/// A transfer annotated with the cost basis realized against it.
pub struct CostBasisTransfer {
    /// Identifier shared across the underlying transfers.
    pub transfer_id: String,
    /// ISO8601 timestamp of the transfer.
    pub datetime: String,
    /// Token being transferred.
    pub token: Token,
    /// Signed amount of token moved.
    pub value: Amount,
    /// Sale price realized for the moved amount.
    pub sale_price: Amount,
    /// USD cost basis consumed by the sale.
    pub cost_basis: Amount,
    /// Realized profit and loss.
    pub pnl: Amount,
}

/// Mathematical image of a cost-basis lot.
pub struct LotV {
    pub datetime: Seq<char>,
    pub amount: int,
    pub usd_value: int,
}

/// An open cost-basis lot: a purchased quantity awaiting sale.
struct CostBasis {
    datetime: String,
    amount: Amount,
    usd_value: Amount,
}

impl View for CostBasis {
    type V = LotV;

    closed spec fn view(&self) -> LotV {
        LotV { datetime: self.datetime@, amount: self.amount@, usd_value: self.usd_value@ }
    }
}

/// The images of a queue of lots.
spec fn lot_views(s: Seq<CostBasis>) -> Seq<LotV> {
    s.map_values(|x: CostBasis| x@)
}

/// State of the engine: one lot queue per token identity, and the sales
/// emitted so far.
pub struct FifoStateV {
    pub queues: Map<Seq<char>, Seq<LotV>>,
    pub sales: Seq<SaleV>,
}

/// The lot queue of token identity `k`: absent keys hold no lots.
pub open spec fn queue_of(m: Map<Seq<char>, Seq<LotV>>, k: Seq<char>) -> Seq<LotV> {
    if m.dom().contains(k) {
        m[k]
    } else {
        Seq::empty()
    }
}

/// Consumes `remaining` units from the front of `queue` at `ppu` USD per
/// whole unit, returning the emitted sales and the remaining queue.
///
/// An empty queue sells the whole remainder at zero cost basis.  A lot no
/// larger than the remainder is consumed whole at its full USD value; a
/// larger lot is split, giving up the proportional part of its USD value.
pub open spec fn sell_loop(
    queue: Seq<LotV>,
    remaining: int,
    ppu: int,
    datetime: Seq<char>,
    token: TokenV,
) -> (Seq<SaleV>, Seq<LotV>)
    decreases queue.len(),
{
    if remaining <= 0 {
        (Seq::empty(), queue)
    } else if queue.len() == 0 {
        let proceeds = scaled_mul(ppu, remaining);
        (
            seq![
                SaleV {
                    datetime,
                    token,
                    amount: remaining,
                    proceeds_usd: proceeds,
                    cost_basis_usd: 0,
                    gain_usd: proceeds,
                },
            ],
            queue,
        )
    } else {
        let lot = queue[0];
        if lot.amount <= remaining {
            let proceeds = scaled_mul(ppu, lot.amount);
            let sale = SaleV {
                datetime,
                token,
                amount: lot.amount,
                proceeds_usd: proceeds,
                cost_basis_usd: lot.usd_value,
                gain_usd: proceeds - lot.usd_value,
            };
            let (rest_sales, rest_queue) = sell_loop(
                queue.drop_first(),
                remaining - lot.amount,
                ppu,
                datetime,
                token,
            );
            (seq![sale] + rest_sales, rest_queue)
        } else {
            let proceeds = scaled_mul(ppu, remaining);
            let cost = scaled_div(scaled_mul(lot.usd_value, remaining), lot.amount);
            let sale = SaleV {
                datetime,
                token,
                amount: remaining,
                proceeds_usd: proceeds,
                cost_basis_usd: cost,
                gain_usd: proceeds - cost,
            };
            let shrunk = LotV {
                datetime: lot.datetime,
                amount: lot.amount - remaining,
                usd_value: lot.usd_value - cost,
            };
            (seq![sale], queue.update(0, shrunk))
        }
    }
}

/// One step of the engine on a single transfer.
///
/// A positive transfer with a known USD value opens a lot at the back of
/// its token's queue; a positive transfer without one is not tracked.  A
/// negative transfer sells its magnitude at the per-unit price implied by
/// its own USD value.  A zero transfer changes nothing.
pub open spec fn fifo_step(st: FifoStateV, t: TransferV) -> FifoStateV {
    let k = t.token.key();
    if t.value > 0 {
        match t.usd_value {
            Option::Some(u) => FifoStateV {
                queues: st.queues.insert(
                    k,
                    queue_of(st.queues, k).push(
                        LotV { datetime: t.datetime, amount: t.value, usd_value: u },
                    ),
                ),
                sales: st.sales,
            },
            Option::None => st,
        }
    } else if t.value < 0 {
        let sale_amount = -t.value;
        let proceeds_total = abs_int(
            match t.usd_value {
                Option::Some(u) => u,
                Option::None => 0,
            },
        );
        let ppu = scaled_div(proceeds_total, sale_amount);
        let (new_sales, new_queue) = sell_loop(
            queue_of(st.queues, k),
            sale_amount,
            ppu,
            t.datetime,
            t.token,
        );
        FifoStateV { queues: st.queues.insert(k, new_queue), sales: st.sales + new_sales }
    } else {
        st
    }
}

/// Runs the engine over the transfers from index `i` onward.
pub open spec fn fifo_run(s: Seq<TransferV>, i: int, st: FifoStateV) -> FifoStateV
    decreases s.len() - i,
{
    if i < 0 || i >= s.len() {
        st
    } else {
        fifo_run(s, i + 1, fifo_step(st, s[i]))
    }
}

/// The engine's initial state: no lots, no sales.
pub open spec fn fifo_init() -> FifoStateV {
    FifoStateV { queues: Map::empty(), sales: Seq::empty() }
}

/// The sales realized by a batch of transfers, in emission order.
pub open spec fn fifo_sales_spec(s: Seq<TransferV>) -> Seq<SaleV> {
    fifo_run(s, 0, fifo_init()).sales
}

/// Sum of the amounts of a sequence of sales.
pub open spec fn sum_sale_amounts(s: Seq<SaleV>) -> int
    decreases s.len(),
{
    if s.len() == 0 {
        0
    } else {
        sum_sale_amounts(s.drop_last()) + s.last().amount
    }
}

/// Sum of the magnitudes of the strictly negative transfer values from
/// index `i` onward.
pub open spec fn sum_neg_from(s: Seq<TransferV>, i: int) -> int
    decreases s.len() - i,
{
    if i < 0 || i >= s.len() {
        0
    } else {
        (if s[i].value < 0 {
            -s[i].value
        } else {
            0
        }) + sum_neg_from(s, i + 1)
    }
}

/// Sum of the magnitudes of the strictly negative transfer values.
pub open spec fn sum_neg_magnitudes(s: Seq<TransferV>) -> int {
    sum_neg_from(s, 0)
}

/// Sale-amount sums split over concatenation.
proof fn lemma_sum_sale_amounts_add(a: Seq<SaleV>, b: Seq<SaleV>)
    ensures
        sum_sale_amounts(a + b) == sum_sale_amounts(a) + sum_sale_amounts(b),
    decreases b.len(),
{
    if b.len() == 0 {
        assert(a + b =~= a);
    } else {
        lemma_sum_sale_amounts_add(a, b.drop_last());
        assert((a + b).drop_last() =~= a + b.drop_last());
    }
}

/// The sales of one selling pass cover exactly the sold magnitude.
proof fn lemma_sell_loop_amount(
    queue: Seq<LotV>,
    remaining: int,
    ppu: int,
    datetime: Seq<char>,
    token: TokenV,
)
    requires
        remaining >= 0,
        forall|i: int| 0 <= i < queue.len() ==> (#[trigger] queue[i]).amount > 0,
    ensures
        sum_sale_amounts(sell_loop(queue, remaining, ppu, datetime, token).0) == remaining,
    decreases queue.len(),
{
    let (sales, _) = sell_loop(queue, remaining, ppu, datetime, token);
    if remaining <= 0 {
    } else if queue.len() == 0 {
        assert(sales.len() == 1 && sales.last().amount == remaining);
        assert(sales.drop_last() =~= Seq::<SaleV>::empty());
        assert(sum_sale_amounts(Seq::<SaleV>::empty()) == 0);
    } else {
        let lot = queue[0];
        if lot.amount <= remaining {
            assert(forall|i: int|
                0 <= i < queue.drop_first().len() ==> #[trigger] queue.drop_first()[i]
                    == queue[i + 1]);
            lemma_sell_loop_amount(
                queue.drop_first(),
                remaining - lot.amount,
                ppu,
                datetime,
                token,
            );
            let proceeds = scaled_mul(ppu, lot.amount);
            let sale = SaleV {
                datetime,
                token,
                amount: lot.amount,
                proceeds_usd: proceeds,
                cost_basis_usd: lot.usd_value,
                gain_usd: proceeds - lot.usd_value,
            };
            let rest = sell_loop(queue.drop_first(), remaining - lot.amount, ppu, datetime, token);
            lemma_sum_sale_amounts_add(seq![sale], rest.0);
            assert(sum_sale_amounts(seq![sale]) == lot.amount) by {
                assert(seq![sale].len() == 1);
                assert(seq![sale].last() == sale);
                assert(seq![sale].drop_last() =~= Seq::<SaleV>::empty());
                assert(sum_sale_amounts(Seq::<SaleV>::empty()) == 0);
            }
        } else {
            assert(sales.len() == 1 && sales.last().amount == remaining);
            assert(sales.drop_last() =~= Seq::<SaleV>::empty());
            assert(sum_sale_amounts(Seq::<SaleV>::empty()) == 0);
        }
    }
}

/// Conservation from index `i` onward: what the engine sells is exactly the
/// summed magnitude of the remaining negative transfers.
proof fn lemma_fifo_run_amount(s: Seq<TransferV>, i: int, st: FifoStateV)
    requires
        0 <= i <= s.len(),
        forall|k: Seq<char>, q: int|
            st.queues.dom().contains(k) && 0 <= q < st.queues[k].len() ==> (#[trigger] st.queues[k][q]).amount
                > 0,
    ensures
        sum_sale_amounts(fifo_run(s, i, st).sales) == sum_sale_amounts(st.sales) + sum_neg_from(
            s,
            i,
        ),
    decreases s.len() - i,
{
    if i < s.len() {
        let t = s[i];
        let st2 = fifo_step(st, t);
        let k = t.token.key();
        // The step keeps every lot amount positive.
        assert forall|k2: Seq<char>, q: int|
            st2.queues.dom().contains(k2) && 0 <= q < st2.queues[k2].len() implies (
        #[trigger] st2.queues[k2][q]).amount > 0 by {
            if t.value > 0 && t.usd_value is Some && k2 == k {
                let old_q = queue_of(st.queues, k);
                if q < old_q.len() {
                    assert(st.queues[k][q].amount > 0);
                }
            } else if t.value < 0 && k2 == k {
                lemma_sell_loop_lots(
                    queue_of(st.queues, k),
                    -t.value,
                    scaled_div(
                        abs_int(
                            match t.usd_value {
                                Option::Some(u) => u,
                                Option::None => 0,
                            },
                        ),
                        -t.value,
                    ),
                    t.datetime,
                    t.token,
                );
            } else {
                assert(st.queues.dom().contains(k2) && st2.queues[k2] == st.queues[k2]);
            }
        }
        lemma_fifo_run_amount(s, i + 1, st2);
        if t.value < 0 {
            let sale_amount = -t.value;
            let proceeds_total = abs_int(
                match t.usd_value {
                    Option::Some(u) => u,
                    Option::None => 0,
                },
            );
            let ppu = scaled_div(proceeds_total, sale_amount);
            let (new_sales, _) = sell_loop(
                queue_of(st.queues, k),
                sale_amount,
                ppu,
                t.datetime,
                t.token,
            );
            assert forall|q: int| 0 <= q < queue_of(st.queues, k).len() implies (
            #[trigger] queue_of(st.queues, k)[q]).amount > 0 by {
                assert(st.queues[k][q].amount > 0);
            }
            lemma_sell_loop_amount(queue_of(st.queues, k), sale_amount, ppu, t.datetime, t.token);
            lemma_sum_sale_amounts_add(st.sales, new_sales);
        }
    }
}

/// Lots left by one selling pass keep a positive amount.
proof fn lemma_sell_loop_lots(
    queue: Seq<LotV>,
    remaining: int,
    ppu: int,
    datetime: Seq<char>,
    token: TokenV,
)
    requires
        forall|i: int| 0 <= i < queue.len() ==> (#[trigger] queue[i]).amount > 0,
    ensures
        forall|i: int|
            0 <= i < sell_loop(queue, remaining, ppu, datetime, token).1.len() ==> (
            #[trigger] sell_loop(queue, remaining, ppu, datetime, token).1[i]).amount > 0,
    decreases queue.len(),
{
    if remaining <= 0 || queue.len() == 0 {
    } else {
        let lot = queue[0];
        if lot.amount <= remaining {
            assert(forall|i: int|
                0 <= i < queue.drop_first().len() ==> #[trigger] queue.drop_first()[i]
                    == queue[i + 1]);
            lemma_sell_loop_lots(queue.drop_first(), remaining - lot.amount, ppu, datetime, token);
            let out = sell_loop(queue, remaining, ppu, datetime, token).1;
            let rest = sell_loop(queue.drop_first(), remaining - lot.amount, ppu, datetime, token).1;
            assert(out == rest);
            assert forall|i: int| 0 <= i < out.len() implies (#[trigger] out[i]).amount > 0 by {
                assert(rest[i].amount > 0);
            }
        } else {
            let cost = scaled_div(scaled_mul(lot.usd_value, remaining), lot.amount);
            let shrunk = LotV {
                datetime: lot.datetime,
                amount: lot.amount - remaining,
                usd_value: lot.usd_value - cost,
            };
            let out = sell_loop(queue, remaining, ppu, datetime, token).1;
            assert(out == queue.update(0, shrunk));
            assert forall|i: int| 0 <= i < out.len() implies (#[trigger] out[i]).amount > 0 by {
                if i > 0 {
                    assert(out[i] == queue[i]);
                } else {
                    assert(out[0] == shrunk);
                }
            }
        }
    }
}

/// Conservation: over any batch, the engine's sales cover exactly the
/// summed magnitude of the outgoing transfers — every sold unit appears in
/// exactly one sale, whether or not a lot backed it.
pub proof fn lemma_fifo_conservation(s: Seq<TransferV>)
    ensures
        sum_sale_amounts(fifo_sales_spec(s)) == sum_neg_magnitudes(s),
{
    lemma_fifo_run_amount(s, 0, fifo_init());
}

/// Inputs the engine accepts: values inside the amount range, USD values
/// inside the derived-value range.
pub open spec fn fifo_input_ok(s: Seq<TransferV>) -> bool {
    forall|i: int|
        0 <= i < s.len() ==> {
            &&& -UNIT_LIMIT <= (#[trigger] s[i]).value <= UNIT_LIMIT
            &&& match s[i].usd_value {
                Option::Some(u) => -USD_LIMIT <= u <= USD_LIMIT,
                Option::None => true,
            }
        }
}

/// Checks that a batch is inside the ranges accepted by
/// [`transfers_to_sales`].
pub fn fifo_input_in_range(transfers: &Vec<Transfer>) -> (r: bool)
    ensures
        r == fifo_input_ok(views(transfers@)),
{
    let n = transfers.len();
    let mut i: usize = 0;
    while i < n
        invariant
            i <= n,
            forall|q: int|
                0 <= q < i ==> {
                    &&& -UNIT_LIMIT <= (#[trigger] views(transfers@)[q]).value <= UNIT_LIMIT
                    &&& match views(transfers@)[q].usd_value {
                        Option::Some(u) => -USD_LIMIT <= u <= USD_LIMIT,
                        Option::None => true,
                    }
                },
        decreases n - i,
    {
        proof {
            assert(views(transfers@)[i as int] == transfers@[i as int]@);
        }
        let t = &transfers[i];
        if t.value.units < -UNIT_LIMIT || t.value.units > UNIT_LIMIT {
            return false;
        }
        match t.usd_value {
            Some(u) => {
                if u.units < -USD_LIMIT || u.units > USD_LIMIT {
                    return false;
                }
            },
            None => {},
        }
        i += 1;
    }
    true
}

/// Every lot of every queue has a positive amount inside the amount range
/// and a USD value inside the derived-value range.
pub open spec fn lots_ok(m: Map<Seq<char>, Seq<LotV>>) -> bool {
    forall|k: Seq<char>, q: int|
        m.dom().contains(k) && 0 <= q < m[k].len() ==> {
            &&& 0 < (#[trigger] m[k][q]).amount <= UNIT_LIMIT
            &&& -USD_LIMIT <= m[k][q].usd_value <= USD_LIMIT
        }
}

/// The proportional cost of a nonnegative split lot value stays below it.
proof fn lemma_partial_cost_nonneg(p: int, r: int, a: int)
    requires
        0 <= p <= USD_LIMIT,
        0 < r < a,
        a <= UNIT_LIMIT,
    ensures
        0 <= tdiv(tdiv(p * r, UNITS_PER_WHOLE as int) * UNITS_PER_WHOLE as int, a) <= p,
{
    let s = UNITS_PER_WHOLE as int;
    assert(p * r >= 0) by (nonlinear_arith)
        requires
            p >= 0,
            r > 0,
    ;
    let y1 = tdiv(p * r, s);
    assert(y1 == (p * r) / s);
    assert(y1 >= 0 && y1 * s <= p * r) by (nonlinear_arith)
        requires
            y1 == (p * r) / s,
            p * r >= 0,
            s >= 1,
    ;
    assert(y1 * s >= 0) by (nonlinear_arith)
        requires
            y1 >= 0,
            s >= 1,
    ;
    let cost = tdiv(y1 * s, a);
    assert(cost == (y1 * s) / a);
    assert(0 <= (y1 * s) / a && (y1 * s) / a <= (p * r) / a) by (nonlinear_arith)
        requires
            0 <= y1 * s <= p * r,
            a >= 1,
    ;
    assert((p * r) / a <= p) by (nonlinear_arith)
        requires
            p >= 0,
            0 < r <= a,
    ;
}

/// Bounds of the cost carved out of a split lot: the intermediate products
/// fit in an `i128`, and the cost keeps the sign of the lot's USD value
/// without exceeding it.
proof fn lemma_partial_cost(u: int, r: int, a: int)
    requires
        0 < r < a,
        a <= UNIT_LIMIT,
        -USD_LIMIT <= u <= USD_LIMIT,
    ensures
        i128::MIN <= u * r <= i128::MAX,
        i128::MIN <= scaled_mul(u, r) * UNITS_PER_WHOLE <= i128::MAX,
        u >= 0 ==> 0 <= scaled_div(scaled_mul(u, r), a) <= u,
        u < 0 ==> u <= scaled_div(scaled_mul(u, r), a) <= 0,
{
    let s = UNITS_PER_WHOLE as int;
    crate::amount::lemma_mul_bounds(u, r, USD_LIMIT as int, UNIT_LIMIT as int);
    crate::amount::lemma_tdiv_scale(u * r, s, 1_000_000_000_000_000_000_000_000_000);
    crate::amount::lemma_mul_bounds(
        scaled_mul(u, r),
        s,
        1_000_000_000_000_000_000_000_000_000,
        s,
    );
    if u >= 0 {
        lemma_partial_cost_nonneg(u, r, a);
    } else {
        let p = -u;
        lemma_partial_cost_nonneg(p, r, a);
        assert(u * r == -(p * r)) by (nonlinear_arith)
            requires
                p == -u,
        ;
        assert(p * r >= 0) by (nonlinear_arith)
            requires
                p >= 0,
                r > 0,
        ;
        assert(scaled_mul(u, r) == -tdiv(p * r, s));
        assert(scaled_mul(u, r) * s == -(tdiv(p * r, s) * s)) by (nonlinear_arith)
            requires
                scaled_mul(u, r) == -tdiv(p * r, s),
        ;
        assert(tdiv(p * r, s) * s >= 0) by (nonlinear_arith)
            requires
                tdiv(p * r, s) >= 0,
                s >= 1,
        ;
        assert(scaled_div(scaled_mul(u, r), a) == -tdiv(tdiv(p * r, s) * s, a));
    }
}

/// Lots left by one selling pass stay inside the lot ranges.
proof fn lemma_sell_loop_lot_bounds(
    queue: Seq<LotV>,
    remaining: int,
    ppu: int,
    datetime: Seq<char>,
    token: TokenV,
)
    requires
        forall|i: int|
            0 <= i < queue.len() ==> {
                &&& 0 < (#[trigger] queue[i]).amount <= UNIT_LIMIT
                &&& -USD_LIMIT <= queue[i].usd_value <= USD_LIMIT
            },
    ensures
        forall|i: int|
            0 <= i < sell_loop(queue, remaining, ppu, datetime, token).1.len() ==> {
                &&& 0 < (#[trigger] sell_loop(queue, remaining, ppu, datetime, token).1[i]).amount
                    <= UNIT_LIMIT
                &&& -USD_LIMIT <= sell_loop(queue, remaining, ppu, datetime, token).1[i].usd_value
                    <= USD_LIMIT
            },
    decreases queue.len(),
{
    if remaining <= 0 || queue.len() == 0 {
    } else {
        let lot = queue[0];
        let out = sell_loop(queue, remaining, ppu, datetime, token).1;
        if lot.amount <= remaining {
            assert(forall|i: int|
                0 <= i < queue.drop_first().len() ==> #[trigger] queue.drop_first()[i]
                    == queue[i + 1]);
            lemma_sell_loop_lot_bounds(
                queue.drop_first(),
                remaining - lot.amount,
                ppu,
                datetime,
                token,
            );
            let rest = sell_loop(
                queue.drop_first(),
                remaining - lot.amount,
                ppu,
                datetime,
                token,
            ).1;
            assert(out == rest);
            assert forall|i: int| 0 <= i < out.len() implies {
                &&& 0 < (#[trigger] out[i]).amount <= UNIT_LIMIT
                &&& -USD_LIMIT <= out[i].usd_value <= USD_LIMIT
            } by {
                assert(rest[i].amount > 0);
            }
        } else {
            lemma_partial_cost(lot.usd_value, remaining, lot.amount);
            let cost = scaled_div(scaled_mul(lot.usd_value, remaining), lot.amount);
            let shrunk = LotV {
                datetime: lot.datetime,
                amount: lot.amount - remaining,
                usd_value: lot.usd_value - cost,
            };
            assert(out == queue.update(0, shrunk));
            assert forall|i: int| 0 <= i < out.len() implies {
                &&& 0 < (#[trigger] out[i]).amount <= UNIT_LIMIT
                &&& -USD_LIMIT <= out[i].usd_value <= USD_LIMIT
            } by {
                if i > 0 {
                    assert(out[i] == queue[i]);
                } else {
                    assert(out[0] == shrunk);
                }
            }
        }
    }
}

/// The lot queues of the engine state mirror the entry vector: one entry
/// per token identity, holding exactly the lots of that token's queue.
spec fn basis_inv(b: Seq<(Token, Vec<CostBasis>)>, m: Map<Seq<char>, Seq<LotV>>) -> bool {
    &&& forall|j1: int, j2: int|
        0 <= j1 < j2 < b.len() ==> (#[trigger] b[j1].0)@.key() != (#[trigger] b[j2].0)@.key()
    &&& forall|j: int|
        0 <= j < b.len() ==> m.dom().contains((#[trigger] b[j].0)@.key()) && m[b[j].0@.key()]
            == lot_views(b[j].1@)
    &&& forall|k: Seq<char>|
        m.dom().contains(k) ==> exists|j: int| 0 <= j < b.len() && (#[trigger] b[j].0)@.key() == k
}

/// Index of the entry holding `token`'s lot queue, if one exists.
fn find_queue(basis: &Vec<(Token, Vec<CostBasis>)>, token: &Token) -> (r: Option<usize>)
    ensures
        match r {
            Some(j) => (j as int) < basis@.len() && (basis@[j as int].0)@.key() == token@.key(),
            None => forall|j: int|
                0 <= j < basis@.len() ==> (#[trigger] basis@[j].0)@.key() != token@.key(),
        },
{
    let n = basis.len();
    let mut j: usize = 0;
    while j < n
        invariant
            j <= n,
            n == basis@.len(),
            forall|q: int| 0 <= q < j ==> (#[trigger] basis@[q].0)@.key() != token@.key(),
        decreases n - j,
    {
        if basis[j].0.same_token(token) {
            return Some(j);
        }
        j += 1;
    }
    None
}

/// Converts a time-ordered batch of net transfers into realized sales.
///
/// Every positive transfer with a known USD value opens a cost-basis lot of
/// its token; every negative transfer consumes that token's lots front to
/// back at the per-unit price implied by its own USD value, emitting one
/// sale per consumed piece and a zero-cost-basis sale for any uncovered
/// remainder.  The result is exactly the run of the engine
/// ([`fifo_sales_spec`]), and the sale amounts cover exactly the outgoing
/// magnitudes.
pub fn transfers_to_sales(transfers: Vec<Transfer>) -> (r: Vec<Sale>)
    requires
        fifo_input_ok(views(transfers@)),
    ensures
        sale_views(r@) == fifo_sales_spec(views(transfers@)),
        sum_sale_amounts(sale_views(r@)) == sum_neg_magnitudes(views(transfers@)),
{
    let ghost s = views(transfers@);
    let mut basis: Vec<(Token, Vec<CostBasis>)> = Vec::new();
    let mut sales: Vec<Sale> = Vec::new();
    let ghost mut st = fifo_init();
    let n = transfers.len();
    let mut idx: usize = 0;
    while idx < n
        invariant
            idx <= n,
            n == transfers@.len(),
            fifo_run(s, idx as int, st) == fifo_run(s, 0, fifo_init()),
            basis_inv(basis@, st.queues),
            lots_ok(st.queues),
            sale_views(sales@) == st.sales,
        decreases n - idx,
    {
        let t = &transfers[idx];
        proof {
            assert(s[idx as int] == transfers@[idx as int]@);
        }
        let ghost st0 = st;
        proof {
            st = fifo_step(st0, s[idx as int]);
        }
        let ghost k = t@.token.key();
        if t.value.is_positive() {
            if let Some(u) = t.usd_value {
                let lot = CostBasis { datetime: t.datetime.clone(), amount: t.value, usd_value: u };
                let ghost lotv = lot@;
                match find_queue(&basis, &t.token) {
                    Some(j) => {
                        let ghost old_b = basis@;
                        let (tok_entry, mut queue) = basis.remove(j);
                        let ghost old_q = lot_views(queue@);
                        queue.push(lot);
                        let ghost np = (tok_entry, queue);
                        basis.insert(j, (tok_entry, queue));
                        proof {
                            assert(basis@ =~= old_b.update(j as int, np));
                            assert(old_q == queue_of(st0.queues, k));
                            assert(lot_views(np.1@) =~= old_q.push(lotv));
                            lemma_basis_update(old_b, st0.queues, j as int, np, k, st.queues);
                        }
                    },
                    None => {
                        let ghost old_b = basis@;
                        let mut queue: Vec<CostBasis> = Vec::new();
                        queue.push(lot);
                        let tok_entry = t.token.clone();
                        let ghost np = (tok_entry, queue);
                        basis.push((tok_entry, queue));
                        proof {
                            assert(!st0.queues.dom().contains(k)) by {
                                if st0.queues.dom().contains(k) {
                                    let j0 = choose|j0: int|
                                        0 <= j0 < old_b.len() && (#[trigger] old_b[j0].0)@.key()
                                            == k;
                                }
                            }
                            assert(queue_of(st0.queues, k) =~= Seq::<LotV>::empty());
                            assert(lot_views(np.1@) =~= queue_of(st0.queues, k).push(lotv));
                            assert(basis@ =~= old_b.push(np));
                            lemma_basis_append(old_b, st0.queues, np, k, st.queues);
                        }
                    },
                }
            }
        } else if t.value.is_negative() {
            let sale_amount = t.value.abs();
            let proceeds_total = match t.usd_value {
                Some(u) => u.abs(),
                None => Amount::zero(),
            };
            proof {
                crate::amount::lemma_mul_bounds(
                    proceeds_total@,
                    UNITS_PER_WHOLE as int,
                    USD_LIMIT as int,
                    UNITS_PER_WHOLE as int,
                );
            }
            let ppu = proceeds_total.div_scaled(&sale_amount);
            proof {
                crate::amount::lemma_tdiv_mul_le(
                    proceeds_total@ * UNITS_PER_WHOLE,
                    sale_amount@,
                    sale_amount@,
                );
                assert(proceeds_total@ * UNITS_PER_WHOLE <= USD_LIMIT * UNITS_PER_WHOLE)
                    by (nonlinear_arith)
                    requires
                        0 <= proceeds_total@ <= USD_LIMIT,
                ;
                assert(ppu@ >= 0) by {
                    crate::amount::lemma_tdiv_bounds(
                        proceeds_total@ * UNITS_PER_WHOLE,
                        sale_amount@,
                    );
                }
            }
            let ghost old_b = basis@;
            let found = find_queue(&basis, &t.token);
            let (j, pair): (usize, (Token, Vec<CostBasis>)) = match found {
                Some(j0) => (j0, basis.remove(j0)),
                None => (basis.len(), (t.token.clone(), Vec::new())),
            };
            let (tok_entry, mut queue) = pair;
            proof {
                if found is None {
                    assert(!st0.queues.dom().contains(k)) by {
                        if st0.queues.dom().contains(k) {
                            let j0 = choose|j0: int|
                                0 <= j0 < old_b.len() && (#[trigger] old_b[j0].0)@.key() == k;
                        }
                    }
                    assert(lot_views(queue@) =~= Seq::<LotV>::empty());
                }
            }
            let ghost q0 = lot_views(queue@);
            proof {
                assert(q0 == queue_of(st0.queues, k));
                assert forall|q: int| 0 <= q < q0.len() implies {
                    &&& 0 < (#[trigger] q0[q]).amount <= UNIT_LIMIT
                    &&& -USD_LIMIT <= q0[q].usd_value <= USD_LIMIT
                } by {
                    assert(st0.queues[k][q] == q0[q]);
                }
                lemma_sell_loop_lot_bounds(q0, sale_amount@, ppu@, t@.datetime, t@.token);
            }
            let ghost dtv = t@.datetime;
            let ghost tokv = t@.token;
            let ghost full = sell_loop(q0, sale_amount@, ppu@, dtv, tokv);
            let ghost base_sales = sales@;
            let mut remaining = sale_amount;
            while remaining.is_positive()
                invariant
                    0 <= remaining@ <= sale_amount@,
                    base_sales.len() <= sales@.len(),
                    sales@.subrange(0, base_sales.len() as int) == base_sales,
                    forall|q: int|
                        0 <= q < lot_views(queue@).len() ==> {
                            &&& 0 < (#[trigger] lot_views(queue@)[q]).amount <= UNIT_LIMIT
                            &&& -USD_LIMIT <= lot_views(queue@)[q].usd_value <= USD_LIMIT
                        },
                    full.0 == sale_views(
                        sales@.subrange(base_sales.len() as int, sales@.len() as int),
                    ) + sell_loop(lot_views(queue@), remaining@, ppu@, dtv, tokv).0,
                    full.1 == sell_loop(lot_views(queue@), remaining@, ppu@, dtv, tokv).1,
                decreases queue@.len() + (if remaining@ > 0 {
                    1int
                } else {
                    0int
                }),
            {
                let ghost emitted = sales@.subrange(base_sales.len() as int, sales@.len() as int);
                let ghost cur = sell_loop(lot_views(queue@), remaining@, ppu@, dtv, tokv);
                proof {
                    assert(ppu@ * remaining@ <= proceeds_total@ * UNITS_PER_WHOLE)
                        by (nonlinear_arith)
                        requires
                            0 <= remaining@ <= sale_amount@,
                            0 <= ppu@,
                            ppu@ * sale_amount@ <= proceeds_total@ * UNITS_PER_WHOLE,
                    ;
                    crate::amount::lemma_tdiv_bounds(ppu@ * remaining@, UNITS_PER_WHOLE as int);
                }
                if queue.is_empty() {
                    let proceeds = ppu.mul_scaled(&remaining);
                    let sale = Sale {
                        datetime: t.datetime.clone(),
                        token: t.token.clone(),
                        amount: remaining,
                        proceeds_usd: proceeds,
                        cost_basis_usd: Amount::zero(),
                        gain_usd: proceeds,
                    };
                    let ghost sv = sale@;
                    let ghost pre = sales@;
                    sales.push(sale);
                    remaining = Amount::zero();
                    proof {
                        assert(cur.0 =~= seq![sv]);
                        lemma_emitted_push(base_sales, pre, sales@, sv);
                        assert(sell_loop(lot_views(queue@), remaining@, ppu@, dtv, tokv).0
                            =~= Seq::<SaleV>::empty());
                        assert(full.0 =~= sale_views(
                            sales@.subrange(base_sales.len() as int, sales@.len() as int),
                        ) + sell_loop(lot_views(queue@), remaining@, ppu@, dtv, tokv).0);
                    }
                } else {
                    let ghost pre_q = lot_views(queue@);
                    let front_le = queue[0].amount.le(&remaining);
                    let lot0 = queue.remove(0);
                    proof {
                        assert(lot_views(queue@) =~= pre_q.drop_first());
                        assert(pre_q[0] == lot0@);
                    }
                    if front_le {
                        proof {
                            assert(ppu@ * lot0@.amount <= ppu@ * remaining@) by (nonlinear_arith)
                                requires
                                    0 <= ppu@,
                                    0 < lot0@.amount <= remaining@,
                            ;
                            crate::amount::lemma_tdiv_bounds(
                                ppu@ * lot0@.amount,
                                UNITS_PER_WHOLE as int,
                            );
                            assert(0 <= ppu@ * lot0@.amount) by (nonlinear_arith)
                                requires
                                    0 <= ppu@,
                                    0 < lot0@.amount,
                            ;
                        }
                        let proceeds = ppu.mul_scaled(&lot0.amount);
                        let gain = proceeds.sub(&lot0.usd_value);
                        let sale = Sale {
                            datetime: t.datetime.clone(),
                            token: t.token.clone(),
                            amount: lot0.amount,
                            proceeds_usd: proceeds,
                            cost_basis_usd: lot0.usd_value,
                            gain_usd: gain,
                        };
                        let ghost sv = sale@;
                        let ghost pre = sales@;
                        sales.push(sale);
                        remaining = remaining.sub(&lot0.amount);
                        proof {
                            let rest = sell_loop(lot_views(queue@), remaining@, ppu@, dtv, tokv);
                            assert(cur.0 =~= seq![sv] + rest.0);
                            assert(cur.1 == rest.1);
                            lemma_emitted_push(base_sales, pre, sales@, sv);
                            assert(sale_views(emitted) + cur.0 =~= (sale_views(emitted) + seq![sv])
                                + rest.0);
                            assert(full.0 =~= sale_views(
                                sales@.subrange(base_sales.len() as int, sales@.len() as int),
                            ) + rest.0);
                        }
                    } else {
                        proof {
                            lemma_partial_cost(lot0@.usd_value, remaining@, lot0@.amount);
                        }
                        let partial = lot0.usd_value.mul_scaled(&remaining);
                        let cost = partial.div_scaled(&lot0.amount);
                        let proceeds = ppu.mul_scaled(&remaining);
                        let gain = proceeds.sub(&cost);
                        let sale = Sale {
                            datetime: t.datetime.clone(),
                            token: t.token.clone(),
                            amount: remaining,
                            proceeds_usd: proceeds,
                            cost_basis_usd: cost,
                            gain_usd: gain,
                        };
                        let ghost sv = sale@;
                        let ghost pre = sales@;
                        sales.push(sale);
                        let shrunk = CostBasis {
                            datetime: lot0.datetime,
                            amount: lot0.amount.sub(&remaining),
                            usd_value: lot0.usd_value.sub(&cost),
                        };
                        let ghost shrunkv = shrunk@;
                        queue.insert(0, shrunk);
                        remaining = Amount::zero();
                        proof {
                            assert(cur.0 =~= seq![sv]);
                            assert(cur.1 =~= pre_q.update(0, shrunkv));
                            assert(lot_views(queue@) =~= pre_q.update(0, shrunkv));
                            lemma_emitted_push(base_sales, pre, sales@, sv);
                            assert(sell_loop(lot_views(queue@), remaining@, ppu@, dtv, tokv).0
                                =~= Seq::<SaleV>::empty());
                            assert(sell_loop(lot_views(queue@), remaining@, ppu@, dtv, tokv).1
                                == lot_views(queue@));
                            assert(full.0 =~= sale_views(
                                sales@.subrange(base_sales.len() as int, sales@.len() as int),
                            ) + sell_loop(lot_views(queue@), remaining@, ppu@, dtv, tokv).0);
                        }
                    }
                }
            }
            let ghost np = (tok_entry, queue);
            basis.insert(j, (tok_entry, queue));
            proof {
                assert(full.0 =~= sale_views(
                    sales@.subrange(base_sales.len() as int, sales@.len() as int),
                ));
                assert(full.1 == lot_views(np.1@));
                assert(sales@ =~= base_sales + sales@.subrange(
                    base_sales.len() as int,
                    sales@.len() as int,
                ));
                lemma_sale_views_add(
                    base_sales,
                    sales@.subrange(base_sales.len() as int, sales@.len() as int),
                );
                assert(sale_views(sales@) =~= st0.sales + full.0);
                match found {
                    Some(_) => {
                        assert(basis@ =~= old_b.remove(j as int).insert(j as int, np));
                        assert(basis@ =~= old_b.update(j as int, np));
                        lemma_basis_update(old_b, st0.queues, j as int, np, k, st.queues);
                    },
                    None => {
                        assert(basis@ =~= old_b.push(np));
                        lemma_basis_append(old_b, st0.queues, np, k, st.queues);
                    },
                }
                lemma_sell_loop_lot_bounds(q0, sale_amount@, ppu@, dtv, tokv);
            }
        }
        idx += 1;
    }
    proof {
        assert(sale_views(sales@) == fifo_sales_spec(s));
        lemma_fifo_conservation(s);
    }
    sales
}

/// Pushing one sale extends the emitted slice by its image.
proof fn lemma_emitted_push(base: Seq<Sale>, pre: Seq<Sale>, now: Seq<Sale>, sv: SaleV)
    requires
        base.len() <= pre.len(),
        now.len() == pre.len() + 1,
        now == pre.push(now.last()),
        now.last()@ == sv,
    ensures
        sale_views(now.subrange(base.len() as int, now.len() as int)) =~= sale_views(
            pre.subrange(base.len() as int, pre.len() as int),
        ) + seq![sv],
{
    let pre_slice = pre.subrange(base.len() as int, pre.len() as int);
    assert(now.subrange(base.len() as int, now.len() as int) =~= pre_slice.push(now.last()));
    assert(sale_views(pre_slice.push(now.last())) =~= sale_views(pre_slice) + seq![sv]);
}

/// Sale images distribute over concatenation.
proof fn lemma_sale_views_add(a: Seq<Sale>, b: Seq<Sale>)
    ensures
        sale_views(a + b) =~= sale_views(a) + sale_views(b),
{
}

/// Replacing the queue of one entry preserves the state correspondence.
proof fn lemma_basis_update(
    b: Seq<(Token, Vec<CostBasis>)>,
    m: Map<Seq<char>, Seq<LotV>>,
    j: int,
    np: (Token, Vec<CostBasis>),
    k: Seq<char>,
    m2: Map<Seq<char>, Seq<LotV>>,
)
    requires
        basis_inv(b, m),
        0 <= j < b.len(),
        b[j].0@.key() == k,
        np.0@.key() == k,
        m2 == m.insert(k, lot_views(np.1@)),
    ensures
        basis_inv(b.update(j, np), m2),
{
    let b2 = b.update(j, np);
    assert forall|k2: Seq<char>| m2.dom().contains(k2) implies exists|j2: int|
        0 <= j2 < b2.len() && (#[trigger] b2[j2].0)@.key() == k2 by {
        if k2 == k {
            assert(b2[j].0@.key() == k2);
        } else {
            let j0 = choose|j0: int| 0 <= j0 < b.len() && (#[trigger] b[j0].0)@.key() == k2;
            assert(b2[j0].0@.key() == k2);
        }
    }
}

/// Appending an entry for a fresh token preserves the state correspondence.
proof fn lemma_basis_append(
    b: Seq<(Token, Vec<CostBasis>)>,
    m: Map<Seq<char>, Seq<LotV>>,
    np: (Token, Vec<CostBasis>),
    k: Seq<char>,
    m2: Map<Seq<char>, Seq<LotV>>,
)
    requires
        basis_inv(b, m),
        !m.dom().contains(k),
        np.0@.key() == k,
        m2 == m.insert(k, lot_views(np.1@)),
    ensures
        basis_inv(b.push(np), m2),
{
    let b2 = b.push(np);
    assert forall|j1: int, j2: int| 0 <= j1 < j2 < b2.len() implies (#[trigger] b2[j1].0)@.key()
        != (#[trigger] b2[j2].0)@.key() by {
        if j2 == b.len() {
            assert(m.dom().contains(b[j1].0@.key()));
        }
    }
    assert forall|k2: Seq<char>| m2.dom().contains(k2) implies exists|j2: int|
        0 <= j2 < b2.len() && (#[trigger] b2[j2].0)@.key() == k2 by {
        if k2 == k {
            assert(b2[b.len() as int].0@.key() == k2);
        } else {
            let j0 = choose|j0: int| 0 <= j0 < b.len() && (#[trigger] b[j0].0)@.key() == k2;
            assert(b2[j0].0@.key() == k2);
        }
    }
}

} // verus!
