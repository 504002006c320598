//! The distribution engine: splits the pooled balance of every
//! denomination across the registered peers, proportionally to their
//! activity weights, rounding each share down.  The residual dust is
//! retained by the pool.

use vstd::prelude::*;
use vstd::arithmetic::div_mod::lemma_fundamental_div_mod;
use crate::contract::Coordinator;
use crate::error::Error;
use crate::state::{CoinModel, CoinValue};

verus! {

/// One transfer instruction: the receiving peer and its non-zero
/// shares, one per denomination.
pub struct TransferMsg {
    pub to_address: String,
    pub amount: Vec<CoinValue>,
}

/// Model of a [`TransferMsg`].
pub struct TransferModel {
    pub to_address: Seq<char>,
    pub amount: Seq<CoinModel>,
}

impl View for TransferMsg {
    type V = TransferModel;

    open spec fn view(&self) -> TransferModel {
        TransferModel { to_address: self.to_address@, amount: self.amount.deep_view() }
    }
}

impl DeepView for TransferMsg {
    type V = TransferModel;

    open spec fn deep_view(&self) -> TransferModel {
        self@
    }
}

/// The sum of a weight vector.
pub open spec fn sum_weights(ws: Seq<u64>) -> int
    decreases ws.len(),
{
    if ws.len() == 0 {
        0
    } else {
        sum_weights(ws.drop_last()) + ws.last()
    }
}

/// The share of a balance `b` owed to weight `w` out of `total`:
/// `floor(b * w / total)`.
pub open spec fn share(b: u128, w: u64, total: int) -> int
    recommends
        total > 0,
{
    (b as int) * (w as int) / total
}

/// The non-zero shares of one peer across all denominations, in the
/// order the balances were read.
pub open spec fn spec_shares(funds: Seq<CoinModel>, w: u64, total: int) -> Seq<CoinModel>
    decreases funds.len(),
{
    if funds.len() == 0 {
        Seq::empty()
    } else {
        let rest = spec_shares(funds.drop_last(), w, total);
        let s = share(funds.last().amount, w, total);
        if s == 0 {
            rest
        } else {
            rest.push(CoinModel { denom: funds.last().denom, amount: s as u128 })
        }
    }
}

/// The transfer set: one instruction per peer with at least one
/// non-zero share, in ascending peer order; all-zero peers are
/// dropped silently.
pub open spec fn spec_transfers(
    peers: Seq<Seq<char>>,
    ws: Seq<u64>,
    funds: Seq<CoinModel>,
    total: int,
) -> Seq<TransferModel>
    recommends
        peers.len() == ws.len(),
    decreases peers.len(),
{
    if peers.len() == 0 {
        Seq::empty()
    } else {
        let rest = spec_transfers(peers.drop_last(), ws.drop_last(), funds, total);
        let coins = spec_shares(funds, ws.last(), total);
        if coins.len() == 0 {
            rest
        } else {
            rest.push(TransferModel { to_address: peers.last(), amount: coins })
        }
    }
}

/// Whether some single product `balance * weight` exceeds the widened
/// arithmetic domain.
pub open spec fn overflow_exists(funds: Seq<CoinModel>, ws: Seq<u64>) -> bool {
    exists|i: int, j: int|
        0 <= i < ws.len() && 0 <= j < funds.len() && (funds[j].amount as int) * (ws[i] as int)
            > u128::MAX
}

/// The sum of one denomination's shares over a weight vector.
pub open spec fn sum_shares(b: u128, ws: Seq<u64>, total: int) -> int
    decreases ws.len(),
{
    if ws.len() == 0 {
        0
    } else {
        sum_shares(b, ws.drop_last(), total) + share(b, ws.last(), total)
    }
}

/// The total amount of denomination `d` carried by a coin list.
pub open spec fn denom_amount(coins: Seq<CoinModel>, d: Seq<char>) -> int
    decreases coins.len(),
{
    if coins.len() == 0 {
        0
    } else {
        denom_amount(coins.drop_last(), d) + if coins.last().denom == d {
            coins.last().amount as int
        } else {
            0
        }
    }
}

/// The total amount of denomination `d` across a transfer set.
pub open spec fn denom_sent(ts: Seq<TransferModel>, d: Seq<char>) -> int
    decreases ts.len(),
{
    if ts.len() == 0 {
        0
    } else {
        denom_sent(ts.drop_last(), d) + denom_amount(ts.last().amount, d)
    }
}

/// Each denomination occurs at most once among the pooled balances.
pub open spec fn unique_denoms(funds: Seq<CoinModel>) -> bool {
    forall|a: int, b: int| 0 <= a < b < funds.len() ==> funds[a].denom != funds[b].denom
}

/// A share is never negative.
proof fn lemma_share_nonneg(b: u128, w: u64, total: int)
    requires
        total > 0,
    ensures
        share(b, w, total) >= 0,
{
    vstd::arithmetic::mul::lemma_mul_nonnegative(b as int, w as int);
    vstd::arithmetic::div_mod::lemma_div_pos_is_pos((b as int) * (w as int), total);
}

/// A denomination that is not among the balances is not among the
/// shares either.
proof fn lemma_denom_amount_absent(funds: Seq<CoinModel>, w: u64, total: int, d: Seq<char>)
    requires
        total > 0,
        forall|j: int| 0 <= j < funds.len() ==> funds[j].denom != d,
    ensures
        denom_amount(spec_shares(funds, w, total), d) == 0,
    decreases funds.len(),
{
    if funds.len() > 0 {
        lemma_denom_amount_absent(funds.drop_last(), w, total, d);
        let rest = spec_shares(funds.drop_last(), w, total);
        let sh = share(funds.last().amount, w, total);
        if sh != 0 {
            let c = (CoinModel { denom: funds.last().denom, amount: sh as u128 });
            assert(rest.push(c).drop_last() =~= rest);
            assert(rest.push(c).last() == c);
        }
    }
}

/// In one peer's share list, the amount carried for the `k`-th pooled
/// denomination is exactly that denomination's floored share.
proof fn lemma_denom_amount_shares(funds: Seq<CoinModel>, w: u64, total: int, k: int)
    requires
        total > 0,
        unique_denoms(funds),
        0 <= k < funds.len(),
        forall|j: int|
            0 <= j < funds.len() ==> share(#[trigger] funds[j].amount, w, total) <= u128::MAX,
    ensures
        denom_amount(spec_shares(funds, w, total), funds[k].denom) == share(
            funds[k].amount,
            w,
            total,
        ),
    decreases funds.len(),
{
    let f0 = funds.drop_last();
    let d = funds[k].denom;
    let sh = share(funds.last().amount, w, total);
    lemma_share_nonneg(funds.last().amount, w, total);
    let rest = spec_shares(f0, w, total);
    if sh != 0 {
        let c = (CoinModel { denom: funds.last().denom, amount: sh as u128 });
        assert(rest.push(c).drop_last() =~= rest);
        assert(rest.push(c).last() == c);
    }
    if k == funds.len() - 1 {
        lemma_denom_amount_absent(f0, w, total, d);
    } else {
        lemma_denom_amount_shares(f0, w, total, k);
        assert(funds.last().denom != d);
    }
}

/// A peer whose share list came out empty has a zero share in every
/// denomination.
proof fn lemma_shares_empty_all_zero(funds: Seq<CoinModel>, w: u64, total: int, k: int)
    requires
        total > 0,
        0 <= k < funds.len(),
        spec_shares(funds, w, total).len() == 0,
    ensures
        share(funds[k].amount, w, total) == 0,
    decreases funds.len(),
{
    if k < funds.len() - 1 {
        lemma_shares_empty_all_zero(funds.drop_last(), w, total, k);
    }
}

/// Across the whole transfer set, the amount sent of the `k`-th
/// pooled denomination is exactly the sum of that denomination's
/// floored shares — the dropped all-zero peers contribute nothing.
proof fn lemma_denom_sent_transfers(
    peers: Seq<Seq<char>>,
    ws: Seq<u64>,
    funds: Seq<CoinModel>,
    total: int,
    k: int,
)
    requires
        total > 0,
        unique_denoms(funds),
        peers.len() == ws.len(),
        0 <= k < funds.len(),
        forall|i: int, j: int|
            0 <= i < ws.len() && 0 <= j < funds.len() ==> share(
                #[trigger] funds[j].amount,
                #[trigger] ws[i],
                total,
            ) <= u128::MAX,
    ensures
        denom_sent(spec_transfers(peers, ws, funds, total), funds[k].denom) == sum_shares(
            funds[k].amount,
            ws,
            total,
        ),
    decreases peers.len(),
{
    if peers.len() == 0 {
    } else {
        lemma_denom_sent_transfers(peers.drop_last(), ws.drop_last(), funds, total, k);
        let w = ws.last();
        let coins = spec_shares(funds, w, total);
        let rest = spec_transfers(peers.drop_last(), ws.drop_last(), funds, total);
        if coins.len() == 0 {
            lemma_shares_empty_all_zero(funds, w, total, k);
        } else {
            let t = (TransferModel { to_address: peers.last(), amount: coins });
            assert(rest.push(t).drop_last() =~= rest);
            assert(rest.push(t).last() == t);
            lemma_denom_amount_shares(funds, w, total, k);
        }
    }
}

/// The engine never oversends: with distinct pooled denominations and
/// no overflow, the transfer set carries, for each denomination, at
/// most that denomination's pooled balance; the dust stays in the
/// pool.
pub proof fn lemma_transfers_never_oversend(
    peers: Seq<Seq<char>>,
    ws: Seq<u64>,
    funds: Seq<CoinModel>,
    k: int,
)
    requires
        sum_weights(ws) > 0,
        peers.len() == ws.len(),
        unique_denoms(funds),
        0 <= k < funds.len(),
        !overflow_exists(funds, ws),
    ensures
        denom_sent(spec_transfers(peers, ws, funds, sum_weights(ws)), funds[k].denom)
            <= funds[k].amount,
{
    let total = sum_weights(ws);
    assert forall|i: int, j: int| 0 <= i < ws.len() && 0 <= j < funds.len() implies share(
        #[trigger] funds[j].amount,
        #[trigger] ws[i],
        total,
    ) <= u128::MAX by {
        let p = (funds[j].amount as int) * (ws[i] as int);
        assert(p <= u128::MAX);
        vstd::arithmetic::mul::lemma_mul_nonnegative(funds[j].amount as int, ws[i] as int);
        lemma_fundamental_div_mod(p, total);
        vstd::arithmetic::div_mod::lemma_mod_bound(p, total);
        let q = p / total;
        vstd::arithmetic::div_mod::lemma_div_pos_is_pos(p, total);
        assert(q <= total * q) by (nonlinear_arith)
            requires
                q >= 0 && total >= 1,
        ;
    }
    lemma_denom_sent_transfers(peers, ws, funds, total, k);
    lemma_shares_never_exceed_balance(funds[k].amount, ws);
}

/// Scaled by the total, the sum of the floored shares stays below the
/// balance times the summed weights.
proof fn lemma_sum_shares_scaled(b: u128, ws: Seq<u64>, total: int)
    requires
        total > 0,
    ensures
        total * sum_shares(b, ws, total) <= (b as int) * sum_weights(ws),
        sum_shares(b, ws, total) >= 0,
    decreases ws.len(),
{
    if ws.len() == 0 {
    } else {
        let ws0 = ws.drop_last();
        let w = ws.last();
        lemma_sum_shares_scaled(b, ws0, total);
        let p = (b as int) * (w as int);
        let q = p / total;
        lemma_fundamental_div_mod(p, total);
        vstd::arithmetic::mul::lemma_mul_nonnegative(b as int, w as int);
        vstd::arithmetic::div_mod::lemma_mod_bound(p, total);
        assert(total * q == p - p % total);
        assert(q >= 0) by (nonlinear_arith)
            requires
                total > 0 && total * q >= 0,
        ;
        assert(total * (sum_shares(b, ws0, total) + q) == total * sum_shares(b, ws0, total) + total
            * q) by (nonlinear_arith);
        assert((b as int) * (sum_weights(ws0) + (w as int)) == (b as int) * sum_weights(ws0) + (
        b as int) * (w as int)) by (nonlinear_arith);
    }
}

/// Dust is retained, never oversent: for every weight vector and every
/// balance, the floored shares sum to at most the balance.
pub proof fn lemma_shares_never_exceed_balance(b: u128, ws: Seq<u64>)
    requires
        sum_weights(ws) > 0,
    ensures
        sum_shares(b, ws, sum_weights(ws)) <= b,
{
    let total = sum_weights(ws);
    lemma_sum_shares_scaled(b, ws, total);
    let s = sum_shares(b, ws, total);
    assert(total * s <= (b as int) * total);
    assert(s <= b) by (nonlinear_arith)
        requires
            total > 0 && total * s <= (b as int) * total,
    ;
}

/// `b * w` stays in the domain exactly when `b` is at most
/// `floor(m / w)`.
proof fn lemma_mul_div_bound(b: int, w: int, m: int)
    requires
        w > 0,
        m >= 0,
        b >= 0,
    ensures
        b <= m / w ==> b * w <= m,
        b > m / w ==> b * w > m,
{
    let q = m / w;
    lemma_fundamental_div_mod(m, w);
    assert(m % w >= 0 && m % w < w) by (nonlinear_arith)
        requires
            w > 0,
    ;
    if b <= q {
        assert(b * w <= q * w) by (nonlinear_arith)
            requires
                b <= q && w > 0,
        ;
        assert(q * w <= m);
    } else {
        assert(b * w >= (q + 1) * w) by (nonlinear_arith)
            requires
                b >= q + 1 && w > 0,
        ;
        assert((q + 1) * w == q * w + w) by (nonlinear_arith);
    }
}

/// Splits `funds` across the peers proportionally to their weights.
///
/// With a zero total weight the result is an empty transfer set, not
/// an error.  A product `balance * weight` that cannot be represented
/// even in the widened domain is rejected.  Otherwise the transfer
/// set holds one instruction per peer with a non-zero share, in the
/// peers' order, each carrying the peer's non-zero floored shares.
pub fn compute_distribution(peers: &Vec<String>, weights: &Vec<u64>, funds: &Vec<CoinValue>) -> (r:
    Result<Vec<TransferMsg>, Error>)
    requires
        peers@.len() == weights@.len(),
    ensures
        ({
            let total = sum_weights(weights@);
            let fm = funds.deep_view();
            let pm = peers.deep_view();
            &&& total == 0 ==> (r matches Ok(v) && v@.len() == 0)
            &&& total > 0 && overflow_exists(fm, weights@) ==> r == Err::<Vec<TransferMsg>, Error>(
                Error::ArithmeticOverflow,
            )
            &&& total > 0 && !overflow_exists(fm, weights@) ==> (r matches Ok(v) && v.deep_view()
                == spec_transfers(pm, weights@, fm, total))
        }),
{
    let ghost fm = funds.deep_view();
    let ghost pm = peers.deep_view();
    let n = weights.len();
    let m = funds.len();

    let mut total: u128 = 0;
    let mut i: usize = 0;
    while i < n
        invariant
            i <= n,
            n == weights@.len(),
            total as int == sum_weights(weights@.take(i as int)),
            total as int <= (i as int) * 0xffff_ffff_ffff_ffff,
        decreases n - i,
    {
        let w = weights[i];
        proof {
            assert(weights@.take(i as int + 1).drop_last() =~= weights@.take(i as int));
            assert(weights@.take(i as int + 1).last() == weights@[i as int]);
            assert(total as int + w as int <= (i as int + 1) * 0xffff_ffff_ffff_ffff)
                by (nonlinear_arith)
                requires
                    total as int <= (i as int) * 0xffff_ffff_ffff_ffff && w as int
                        <= 0xffff_ffff_ffff_ffff,
            ;
            assert(((i as int) + 1) * 0xffff_ffff_ffff_ffff < u128::MAX) by (nonlinear_arith)
                requires
                    i as int + 1 <= 0x1_0000_0000_0000_0000,
            ;
        }
        total = total + w as u128;
        i = i + 1;
    }
    proof {
        assert(weights@.take(n as int) =~= weights@);
    }

    if total == 0 {
        return Ok(Vec::new());
    }
    let ghost total_int = total as int;

    let mut out: Vec<TransferMsg> = Vec::new();
    let mut i: usize = 0;
    while i < n
        invariant
            i <= n,
            n == weights@.len(),
            n == weights.len(),
            n == peers@.len(),
            n == peers.len(),
            m == funds@.len(),
            m == funds.len(),
            fm == funds.deep_view(),
            pm == peers.deep_view(),
            total_int == total as int,
            total_int == sum_weights(weights@),
            total_int > 0,
            out.deep_view() == spec_transfers(
                pm.take(i as int),
                weights@.take(i as int),
                fm,
                total_int,
            ),
            forall|a: int, b: int|
                0 <= a < i && 0 <= b < m ==> (fm[b].amount as int) * (weights@[a] as int)
                    <= u128::MAX,
        decreases n - i,
    {
        let w = weights[i];
        let mut coins: Vec<CoinValue> = Vec::new();
        let mut j: usize = 0;
        while j < m
            invariant
                j <= m,
                m == funds@.len(),
                m == funds.len(),
                fm == funds.deep_view(),
                i < n,
                n == weights@.len(),
                n == weights.len(),
                w == weights@[i as int],
                total_int == total as int,
                total_int == sum_weights(weights@),
                total_int > 0,
                coins.deep_view() == spec_shares(fm.take(j as int), w, total_int),
                forall|b: int|
                    0 <= b < j ==> (fm[b].amount as int) * (w as int) <= u128::MAX,
            decreases m - j,
        {
            let b = funds[j].amount;
            proof {
                assert(fm.take(j as int + 1).drop_last() =~= fm.take(j as int));
                assert(fm.take(j as int + 1).last() == fm[j as int]);
            }
            if w != 0 {
                if b > u128::MAX / (w as u128) {
                    proof {
                        lemma_mul_div_bound(b as int, w as int, u128::MAX as int);
                        assert(overflow_exists(fm, weights@)) by {
                            assert((i as int) < weights@.len() && (j as int) < fm.len() && (
                            fm[j as int].amount as int) * (weights@[i as int] as int) > u128::MAX);
                        }
                    }
                    return Err(Error::ArithmeticOverflow);
                }
                proof {
                    lemma_mul_div_bound(b as int, w as int, u128::MAX as int);
                }
                let s = b * (w as u128) / total;
                proof {
                    assert((b * (w as u128)) as int == (b as int) * (w as int));
                    assert(s as int == share(fm[j as int].amount, w, total_int));
                    assert(s as int >= 0);
                }
                if s != 0 {
                    coins.push(CoinValue::new(funds[j].denom.clone(), s));
                    proof {
                        assert(coins.deep_view() =~= spec_shares(
                            fm.take(j as int + 1),
                            w,
                            total_int,
                        ));
                    }
                } else {
                    proof {
                        assert(coins.deep_view() =~= spec_shares(
                            fm.take(j as int + 1),
                            w,
                            total_int,
                        ));
                    }
                }
            } else {
                proof {
                    assert((fm[j as int].amount as int) * 0 == 0) by (nonlinear_arith);
                    assert(share(fm[j as int].amount, w, total_int) == 0) by {
                        vstd::arithmetic::div_mod::lemma_div_of0(total_int);
                    }
                    assert(coins.deep_view() =~= spec_shares(fm.take(j as int + 1), w, total_int));
                }
            }
            j = j + 1;
        }
        proof {
            assert(fm.take(m as int) =~= fm);
            assert(pm.take(i as int + 1).drop_last() =~= pm.take(i as int));
            assert(weights@.take(i as int + 1).drop_last() =~= weights@.take(i as int));
            assert(pm.take(i as int + 1).last() == pm[i as int]);
            assert(weights@.take(i as int + 1).last() == weights@[i as int]);
        }
        if coins.len() > 0 {
            let msg = TransferMsg { to_address: peers[i].clone(), amount: coins };
            out.push(msg);
            proof {
                assert(out.deep_view() =~= spec_transfers(
                    pm.take(i as int + 1),
                    weights@.take(i as int + 1),
                    fm,
                    total_int,
                ));
            }
        } else {
            proof {
                assert(out.deep_view() =~= spec_transfers(
                    pm.take(i as int + 1),
                    weights@.take(i as int + 1),
                    fm,
                    total_int,
                ));
            }
        }
        i = i + 1;
    }
    proof {
        assert(pm.take(n as int) =~= pm);
        assert(weights@.take(n as int) =~= weights@);
    }
    Ok(out)
}

impl Coordinator {
    /// Splits `funds` across the registered peers, in ascending peer
    /// order; `weights[k]` is the activity weight read for the `k`-th
    /// registered peer of one snapshot round.
    pub fn donate(&self, weights: &Vec<u64>, funds: &Vec<CoinValue>) -> (r: Result<
        Vec<TransferMsg>,
        Error,
    >)
        requires
            weights@.len() == self@.registry.len(),
        ensures
            ({
                let pm = self@.registry.map_values(|e: (Seq<char>, Seq<char>)| e.0);
                let total = sum_weights(weights@);
                let fm = funds.deep_view();
                &&& total == 0 ==> (r matches Ok(v) && v@.len() == 0)
                &&& total > 0 && overflow_exists(fm, weights@) ==> r == Err::<
                    Vec<TransferMsg>,
                    Error,
                >(Error::ArithmeticOverflow)
                &&& total > 0 && !overflow_exists(fm, weights@) ==> (r matches Ok(v)
                    && v.deep_view() == spec_transfers(pm, weights@, fm, total))
            }),
    {
        let peers = self.registry_peers();
        proof {
            assert(peers.deep_view() =~= self@.registry.map_values(
                |e: (Seq<char>, Seq<char>)| e.0,
            ));
        }
        compute_distribution(&peers, weights, funds)
    }
}

} // verus!
