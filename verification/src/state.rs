//! Data model of the coordinator: configuration, coin values, the
//! fixed-point ratio type, the pending-spawn table and the peer
//! registry, together with their mathematical models.

use vstd::prelude::*;
use crate::order::lex_lt;

verus! {

/// Scale of the fixed-point [`Ratio`] type: one whole, written with
/// eighteen decimal places of precision.
pub const RATIO_ONE: u128 = 1_000_000_000_000_000_000;

/// A fraction in `[0, 1]`, held as a fixed-point number with eighteen
/// decimal places.
#[derive(Clone, Copy, PartialEq, Eq, Debug)]
pub struct Ratio {
    atomics: u128,
}

impl View for Ratio {
    type V = u128;

    /// The raw fixed-point value, scaled by [`RATIO_ONE`].
    closed spec fn view(&self) -> u128 {
        self.atomics
    }
}

impl Ratio {
    /// A ratio is well formed when it does not exceed one whole.
    pub open spec fn wf(&self) -> bool {
        self@ <= RATIO_ONE
    }

    /// Builds the ratio `p / 100`.
    pub fn percent(p: u64) -> (r: Ratio)
        requires
            p <= 100,
        ensures
            r@ == p * (RATIO_ONE / 100),
            r.wf(),
    {
        Ratio { atomics: (p as u128) * (RATIO_ONE / 100) }
    }

    /// Builds a ratio directly from its fixed-point value; refuses a
    /// value above one whole.
    pub fn from_atomics(atomics: u128) -> (r: Option<Ratio>)
        ensures
            atomics <= RATIO_ONE ==> (r matches Some(q) && q@ == atomics && q.wf()),
            atomics > RATIO_ONE ==> r is None,
    {
        if atomics <= RATIO_ONE {
            Some(Ratio { atomics })
        } else {
            None
        }
    }

    /// The raw fixed-point value.
    pub fn atomics(&self) -> (r: u128)
        ensures
            r == self@,
    {
        self.atomics
    }
}

/// An amount of one currency denomination.
#[derive(PartialEq, Eq, Debug)]
pub struct CoinValue {
    pub denom: String,
    pub amount: u128,
}

/// Model of a [`CoinValue`]: the denomination characters and the amount.
pub struct CoinModel {
    pub denom: Seq<char>,
    pub amount: u128,
}

impl View for CoinValue {
    type V = CoinModel;

    open spec fn view(&self) -> CoinModel {
        CoinModel { denom: self.denom@, amount: self.amount }
    }
}

impl DeepView for CoinValue {
    type V = CoinModel;

    open spec fn deep_view(&self) -> CoinModel {
        self@
    }
}

impl CoinValue {
    /// Builds a coin value from a denomination and an amount.
    pub fn new(denom: String, amount: u128) -> (r: CoinValue)
        ensures
            r@.denom == denom@,
            r@.amount == amount,
    {
        CoinValue { denom, amount }
    }

    /// An independent copy with the same denomination and amount.
    pub fn duplicate(&self) -> (r: CoinValue)
        ensures
            r@ == self@,
    {
        CoinValue { denom: self.denom.clone(), amount: self.amount }
    }
}

/// The coordinator's configuration, set exactly once at initialization.
#[derive(PartialEq, Eq, Debug)]
pub struct Config {
    /// Identifies what kind of peer unit a join request creates.
    pub peer_code_id: u64,
    /// The donation step each peer is created with; its meaning is
    /// outside this core.
    pub incremental_donation: CoinValue,
    /// Stored for the peer units; not consumed by the distribution
    /// algorithm.
    pub collective_ratio: Ratio,
}

/// Model of a [`Config`].
pub struct ConfigModel {
    pub peer_code_id: u64,
    pub incremental_donation: CoinModel,
    pub collective_ratio: u128,
}

impl View for Config {
    type V = ConfigModel;

    open spec fn view(&self) -> ConfigModel {
        ConfigModel {
            peer_code_id: self.peer_code_id,
            incremental_donation: self.incremental_donation@,
            collective_ratio: self.collective_ratio@,
        }
    }
}

impl Config {
    /// An independent copy of the configuration.
    pub fn snapshot(&self) -> (r: Config)
        ensures
            r@ == self@,
    {
        Config {
            peer_code_id: self.peer_code_id,
            incremental_donation: self.incremental_donation.duplicate(),
            collective_ratio: self.collective_ratio,
        }
    }
}

/// One in-flight spawn request: the requesting owner and the
/// configuration snapshot taken when the join was issued.
pub struct PendingEntry {
    pub owner: String,
    pub config: Config,
}

/// Model of a [`PendingEntry`].
pub struct PendingModel {
    pub owner: Seq<char>,
    pub config: ConfigModel,
}

impl View for PendingEntry {
    type V = PendingModel;

    open spec fn view(&self) -> PendingModel {
        PendingModel { owner: self.owner@, config: self.config@ }
    }
}

/// Model of the whole coordinator state.
pub struct CoordModel {
    /// The configuration, if initialization has happened.
    pub config: Option<ConfigModel>,
    /// The next correlation token to hand out.
    pub next_token: u64,
    /// The in-flight spawn requests, keyed by correlation token, in
    /// order of issue.
    pub pending: Seq<(u64, PendingModel)>,
    /// The peer registry: pairs of peer identity and owner identity,
    /// in ascending order of peer identity.
    pub registry: Seq<(Seq<char>, Seq<char>)>,
}

/// The pending table carries each token at most once, and only tokens
/// that have been handed out.
pub open spec fn pending_wf(s: Seq<(u64, PendingModel)>, next_token: u64) -> bool {
    &&& forall|i: int, j: int| 0 <= i < j < s.len() ==> s[i].0 != s[j].0
    &&& forall|i: int| 0 <= i < s.len() ==> s[i].0 < next_token
}

/// The registry is strictly sorted by peer identity; its keys are
/// thereby unique.
pub open spec fn reg_sorted(reg: Seq<(Seq<char>, Seq<char>)>) -> bool {
    forall|i: int, j: int| 0 <= i < j < reg.len() ==> lex_lt(reg[i].0, reg[j].0)
}

impl CoordModel {
    /// Well-formedness: pending tokens are unique and below the next
    /// token to hand out, and the registry is strictly sorted by peer
    /// identity.
    pub open spec fn wf(&self) -> bool {
        &&& pending_wf(self.pending, self.next_token)
        &&& reg_sorted(self.registry)
    }
}

/// The pending entry recorded under a token: the first (and, in a
/// well-formed state, only) occurrence of the token in the table.
pub open spec fn find_pending(s: Seq<(u64, PendingModel)>, token: u64) -> Option<PendingModel>
    decreases s.len(),
{
    if s.len() == 0 {
        None
    } else if s[0].0 == token {
        Some(s[0].1)
    } else {
        find_pending(s.drop_first(), token)
    }
}

/// The pending table with the first entry for `token` removed.
pub open spec fn pending_remove(s: Seq<(u64, PendingModel)>, token: u64) -> Seq<
    (u64, PendingModel),
>
    decreases s.len(),
{
    if s.len() == 0 {
        s
    } else if s[0].0 == token {
        s.drop_first()
    } else {
        seq![s[0]] + pending_remove(s.drop_first(), token)
    }
}

/// The registry with `(peer, owner)` inserted at its place in the
/// ascending order; an entry already keyed by `peer` is replaced.
pub open spec fn reg_insert(
    reg: Seq<(Seq<char>, Seq<char>)>,
    peer: Seq<char>,
    owner: Seq<char>,
) -> Seq<(Seq<char>, Seq<char>)>
    decreases reg.len(),
{
    if reg.len() == 0 {
        seq![(peer, owner)]
    } else if lex_lt(peer, reg[0].0) {
        seq![(peer, owner)] + reg
    } else if peer == reg[0].0 {
        seq![(peer, owner)] + reg.drop_first()
    } else {
        seq![reg[0]] + reg_insert(reg.drop_first(), peer, owner)
    }
}

/// The peer of the first registry entry, in ascending peer order,
/// whose owner is `owner`.
pub open spec fn find_peer_for_owner(reg: Seq<(Seq<char>, Seq<char>)>, owner: Seq<char>) -> Option<
    Seq<char>,
>
    decreases reg.len(),
{
    if reg.len() == 0 {
        None
    } else if reg[0].1 == owner {
        Some(reg[0].0)
    } else {
        find_peer_for_owner(reg.drop_first(), owner)
    }
}

/// A scan that has passed the first `i` entries without finding
/// `token` finds in the rest exactly what it finds in the whole.
pub proof fn lemma_find_pending_skip(s: Seq<(u64, PendingModel)>, token: u64, i: int)
    requires
        0 <= i <= s.len(),
        forall|k: int| 0 <= k < i ==> s[k].0 != token,
    ensures
        find_pending(s, token) == find_pending(s.skip(i), token),
    decreases i,
{
    if i > 0 {
        lemma_find_pending_skip(s.drop_first(), token, i - 1);
        assert(s.drop_first().skip(i - 1) =~= s.skip(i));
    } else {
        assert(s.skip(0) =~= s);
    }
}

/// A token is found in the table exactly when some entry carries it.
pub proof fn lemma_find_pending_exists(s: Seq<(u64, PendingModel)>, token: u64)
    ensures
        (find_pending(s, token) is Some) <==> exists|k: int| 0 <= k < s.len() && s[k].0 == token,
    decreases s.len(),
{
    if s.len() > 0 && s[0].0 != token {
        lemma_find_pending_exists(s.drop_first(), token);
        if find_pending(s, token) is Some {
            let k = choose|k: int| 0 <= k < s.drop_first().len() && s.drop_first()[k].0 == token;
            assert(s[k + 1].0 == token);
        }
        if exists|k: int| 0 <= k < s.len() && s[k].0 == token {
            let k = choose|k: int| 0 <= k < s.len() && s[k].0 == token;
            assert(s.drop_first()[k - 1].0 == token);
        }
    }
}

/// Removing a token whose first occurrence stands at index `i` removes
/// exactly that entry.
pub proof fn lemma_pending_remove_at(s: Seq<(u64, PendingModel)>, token: u64, i: int)
    requires
        0 <= i < s.len(),
        s[i].0 == token,
        forall|k: int| 0 <= k < i ==> s[k].0 != token,
    ensures
        pending_remove(s, token) == s.remove(i),
    decreases i,
{
    if i == 0 {
        assert(pending_remove(s, token) =~= s.remove(0));
    } else {
        lemma_pending_remove_at(s.drop_first(), token, i - 1);
        s.remove_ensures(i);
        s.drop_first().remove_ensures(i - 1);
        assert(seq![s[0]] + s.drop_first().remove(i - 1) =~= s.remove(i));
    }
}

/// In a table with unique tokens, a removed token is gone.
pub proof fn lemma_pending_remove_gone(s: Seq<(u64, PendingModel)>, token: u64, i: int)
    requires
        0 <= i < s.len(),
        s[i].0 == token,
        forall|k: int, l: int| 0 <= k < l < s.len() ==> s[k].0 != s[l].0,
    ensures
        find_pending(pending_remove(s, token), token) is None,
{
    assert forall|k: int| 0 <= k < i implies s[k].0 != token by {}
    lemma_pending_remove_at(s, token, i);
    s.remove_ensures(i);
    lemma_find_pending_exists(s.remove(i), token);
    if exists|k: int| 0 <= k < s.remove(i).len() && s.remove(i)[k].0 == token {
        let k = choose|k: int| 0 <= k < s.remove(i).len() && s.remove(i)[k].0 == token;
        if k < i {
            assert(s[k].0 == token);
        } else {
            assert(s[k + 1].0 == token);
        }
        assert(false);
    }
}

/// A scan that has passed the first `i` registry entries without a
/// matching owner finds in the rest exactly what it finds in the whole.
pub proof fn lemma_find_owner_skip(reg: Seq<(Seq<char>, Seq<char>)>, owner: Seq<char>, i: int)
    requires
        0 <= i <= reg.len(),
        forall|k: int| 0 <= k < i ==> reg[k].1 != owner,
    ensures
        find_peer_for_owner(reg, owner) == find_peer_for_owner(reg.skip(i), owner),
    decreases i,
{
    if i > 0 {
        lemma_find_owner_skip(reg.drop_first(), owner, i - 1);
        assert(reg.drop_first().skip(i - 1) =~= reg.skip(i));
    } else {
        assert(reg.skip(0) =~= reg);
    }
}

/// Inserting at the position a scan found produces exactly the
/// recursive insertion: all entries before `p` stay, the new pair goes
/// in, and the old entry for an equal key is dropped.
pub proof fn lemma_reg_insert_split(
    reg: Seq<(Seq<char>, Seq<char>)>,
    peer: Seq<char>,
    owner: Seq<char>,
    p: int,
)
    requires
        0 <= p <= reg.len(),
        forall|k: int| 0 <= k < p ==> lex_lt(reg[k].0, peer),
        p < reg.len() ==> !lex_lt(reg[p].0, peer),
    ensures
        p < reg.len() && reg[p].0 == peer ==> reg_insert(reg, peer, owner) == reg.take(p)
            + seq![(peer, owner)] + reg.skip(p + 1),
        !(p < reg.len() && reg[p].0 == peer) ==> reg_insert(reg, peer, owner) == reg.take(p)
            + seq![(peer, owner)] + reg.skip(p),
    decreases p,
{
    if p == 0 {
        if reg.len() > 0 && reg[0].0 == peer {
            crate::order::lemma_lex_lt_irrefl(peer);
            assert(reg_insert(reg, peer, owner) =~= reg.take(0) + seq![(peer, owner)] + reg.skip(
                1,
            ));
        } else if reg.len() > 0 && !lex_lt(peer, reg[0].0) {
            crate::order::lemma_lex_lt_connex(peer, reg[0].0);
            assert(false);
        } else {
            assert(reg_insert(reg, peer, owner) =~= reg.take(0) + seq![(peer, owner)] + reg.skip(
                0,
            ));
        }
    } else {
        crate::order::lemma_lex_lt_irrefl(reg[0].0);
        assert(!lex_lt(peer, reg[0].0)) by {
            if lex_lt(peer, reg[0].0) {
                crate::order::lemma_lex_lt_trans(reg[0].0, peer, reg[0].0);
            }
        }
        assert(reg[0].0 != peer);
        lemma_reg_insert_split(reg.drop_first(), peer, owner, p - 1);
        if p < reg.len() && reg[p].0 == peer {
            assert(reg.drop_first()[p - 1].0 == peer);
            assert(seq![reg[0]] + (reg.drop_first().take(p - 1) + seq![(peer, owner)]
                + reg.drop_first().skip(p)) =~= reg.take(p) + seq![(peer, owner)] + reg.skip(
                p + 1,
            ));
        } else {
            assert(seq![reg[0]] + (reg.drop_first().take(p - 1) + seq![(peer, owner)]
                + reg.drop_first().skip(p - 1)) =~= reg.take(p) + seq![(peer, owner)] + reg.skip(
                p,
            ));
        }
    }
}

/// In a registry whose adjacent entries are ordered, any earlier
/// entry is below any later one.
pub proof fn lemma_sorted_chain(reg: Seq<(Seq<char>, Seq<char>)>, i: int, j: int)
    requires
        forall|k: int| 0 <= k < reg.len() - 1 ==> lex_lt(#[trigger] reg[k].0, reg[k + 1].0),
        0 <= i < j < reg.len(),
    ensures
        lex_lt(reg[i].0, reg[j].0),
    decreases j - i,
{
    if j == i + 1 {
        assert(lex_lt(reg[i].0, reg[i + 1].0));
    } else {
        lemma_sorted_chain(reg, i, j - 1);
        assert(lex_lt(reg[j - 1].0, reg[j - 1 + 1].0));
        crate::order::lemma_lex_lt_trans(reg[i].0, reg[j - 1].0, reg[j].0);
    }
}

/// Every entry of an insertion's result is the inserted pair or an
/// entry of the original registry.
pub proof fn lemma_reg_insert_elems(
    reg: Seq<(Seq<char>, Seq<char>)>,
    peer: Seq<char>,
    owner: Seq<char>,
)
    ensures
        forall|k: int|
            0 <= k < reg_insert(reg, peer, owner).len() ==> #[trigger] reg_insert(
                reg,
                peer,
                owner,
            )[k] == (peer, owner) || exists|l: int|
                0 <= l < reg.len() && reg_insert(reg, peer, owner)[k] == reg[l],
    decreases reg.len(),
{
    let res = reg_insert(reg, peer, owner);
    if reg.len() == 0 {
    } else if lex_lt(peer, reg[0].0) {
        assert forall|k: int| 0 <= k < res.len() implies res[k] == (peer, owner) || exists|l: int|
            0 <= l < reg.len() && res[k] == reg[l] by {
            if k > 0 {
                assert(res[k] == reg[k - 1]);
            }
        }
    } else if peer == reg[0].0 {
        assert forall|k: int| 0 <= k < res.len() implies res[k] == (peer, owner) || exists|l: int|
            0 <= l < reg.len() && res[k] == reg[l] by {
            if k > 0 {
                assert(res[k] == reg[k]);
            }
        }
    } else {
        lemma_reg_insert_elems(reg.drop_first(), peer, owner);
        let sub = reg_insert(reg.drop_first(), peer, owner);
        assert forall|k: int| 0 <= k < res.len() implies res[k] == (peer, owner) || exists|l: int|
            0 <= l < reg.len() && res[k] == reg[l] by {
            if k == 0 {
                assert(res[0] == reg[0]);
            } else {
                assert(res[k] == sub[k - 1]);
                if sub[k - 1] == (peer, owner) {
                } else {
                    let l = choose|l: int|
                        0 <= l < reg.drop_first().len() && sub[k - 1] == reg.drop_first()[l];
                    assert(reg.drop_first()[l] == reg[l + 1]);
                }
            }
        }
    }
}

/// Insertion keeps the registry strictly sorted.
pub proof fn lemma_reg_insert_sorted(
    reg: Seq<(Seq<char>, Seq<char>)>,
    peer: Seq<char>,
    owner: Seq<char>,
)
    requires
        reg_sorted(reg),
    ensures
        reg_sorted(reg_insert(reg, peer, owner)),
    decreases reg.len(),
{
    let res = reg_insert(reg, peer, owner);
    if reg.len() == 0 {
    } else if lex_lt(peer, reg[0].0) {
        assert forall|i: int, j: int| 0 <= i < j < res.len() implies lex_lt(
            res[i].0,
            res[j].0,
        ) by {
            if i == 0 {
                assert(res[j] == reg[j - 1]);
                if j > 1 {
                    crate::order::lemma_lex_lt_trans(peer, reg[0].0, reg[j - 1].0);
                }
            } else {
                assert(res[i] == reg[i - 1]);
                assert(res[j] == reg[j - 1]);
            }
        }
    } else if peer == reg[0].0 {
        assert forall|i: int, j: int| 0 <= i < j < res.len() implies lex_lt(
            res[i].0,
            res[j].0,
        ) by {
            if i == 0 {
                assert(res[j] == reg[j]);
            } else {
                assert(res[i] == reg[i]);
                assert(res[j] == reg[j]);
            }
        }
    } else {
        assert(reg_sorted(reg.drop_first()));
        lemma_reg_insert_sorted(reg.drop_first(), peer, owner);
        lemma_reg_insert_elems(reg.drop_first(), peer, owner);
        let sub = reg_insert(reg.drop_first(), peer, owner);
        assert(lex_lt(reg[0].0, peer)) by {
            if !lex_lt(reg[0].0, peer) {
                crate::order::lemma_lex_lt_connex(peer, reg[0].0);
            }
        }
        assert forall|i: int, j: int| 0 <= i < j < res.len() implies lex_lt(
            res[i].0,
            res[j].0,
        ) by {
            if i == 0 {
                assert(res[j] == sub[j - 1]);
                if sub[j - 1] == (peer, owner) {
                } else {
                    let l = choose|l: int|
                        0 <= l < reg.drop_first().len() && sub[j - 1] == reg.drop_first()[l];
                    assert(reg.drop_first()[l] == reg[l + 1]);
                    assert(lex_lt(reg[0].0, reg[l + 1].0));
                }
            } else {
                assert(res[i] == sub[i - 1]);
                assert(res[j] == sub[j - 1]);
            }
        }
    }
}

/// After an insertion for an owner that had no peer, the owner's
/// lookup finds exactly the inserted peer.
pub proof fn lemma_find_owner_after_insert(
    reg: Seq<(Seq<char>, Seq<char>)>,
    peer: Seq<char>,
    owner: Seq<char>,
)
    requires
        find_peer_for_owner(reg, owner) is None,
    ensures
        find_peer_for_owner(reg_insert(reg, peer, owner), owner) == Some(peer),
    decreases reg.len(),
{
    if reg.len() == 0 {
    } else if lex_lt(peer, reg[0].0) {
        assert((seq![(peer, owner)] + reg)[0] == (peer, owner));
    } else if peer == reg[0].0 {
        assert((seq![(peer, owner)] + reg.drop_first())[0] == (peer, owner));
    } else {
        lemma_find_owner_after_insert(reg.drop_first(), peer, owner);
        let r = seq![reg[0]] + reg_insert(reg.drop_first(), peer, owner);
        assert(r[0] == reg[0]);
        assert(reg[0].1 != owner);
        assert(r.drop_first() =~= reg_insert(reg.drop_first(), peer, owner));
    }
}

/// Whether a completion for `token` can register a peer: the token
/// must still be pending.
pub open spec fn register_ok(m: CoordModel, token: u64) -> bool {
    find_pending(m.pending, token) is Some
}

/// The coordinator state after the completion for `token` has
/// registered the new peer `peer`: the pending entry is consumed and
/// the registry maps `peer` to the owner recorded at join time.
pub open spec fn register_next(m: CoordModel, token: u64, peer: Seq<char>) -> CoordModel {
    CoordModel {
        config: m.config,
        next_token: m.next_token,
        pending: pending_remove(m.pending, token),
        registry: reg_insert(m.registry, peer, find_pending(m.pending, token)->0.owner),
    }
}

} // verus!
