//! The registry coordinator: initialization, the join half of the
//! spawn protocol, completion reconciliation, expiry and the queries.

use vstd::prelude::*;
use vstd::string::StringExecFns;
use crate::error::Error;
use crate::msg::{CompletionOutcome, GetConfigResponse, MemberPeerAddrResp, SpawnRequest};
use crate::order::{lex_lt, str_eq, str_lt};
use crate::state::{
    find_pending, lemma_find_pending_exists, lemma_find_pending_skip, register_ok, register_next,
    CoordModel, PendingEntry, PendingModel, Config,
};

verus! {

/// The identity decoded from a successful spawn reply, a function of
/// the payload bytes alone; `None` stands for a payload the decoder
/// refuses.
pub uninterp spec fn parsed_instantiate_reply(data: Seq<u8>) -> Option<Seq<char>>;

/// Relies on `cw_utils::parse_instantiate_response_data`: decoding the
/// protobuf-encoded instantiate reply is a function of the payload
/// bytes alone, and yields the new contract's address when it
/// succeeds.
#[verifier::external_body]
fn parse_instantiate_reply(data: &Vec<u8>) -> (r: Option<String>)
    ensures
        r is Some <==> parsed_instantiate_reply(data@) is Some,
        r matches Some(s) ==> s@ == parsed_instantiate_reply(data@)->0,
{
    match cw_utils::parse_instantiate_response_data(data) {
        Ok(resp) => Some(resp.contract_address),
        Err(_) => None,
    }
}

/// The coordinator: configuration, the correlation-keyed table of
/// in-flight spawn requests, and the peer-to-owner registry.
pub struct Coordinator {
    config: Option<Config>,
    next_token: u64,
    pending: Vec<(u64, PendingEntry)>,
    registry: Vec<(String, String)>,
}

impl View for Coordinator {
    type V = CoordModel;

    closed spec fn view(&self) -> CoordModel {
        CoordModel {
            config: match self.config {
                Some(c) => Some(c@),
                None => None,
            },
            next_token: self.next_token,
            pending: self.pending@.map_values(|p: (u64, PendingEntry)| (p.0, p.1@)),
            registry: self.registry@.map_values(|p: (String, String)| (p.0@, p.1@)),
        }
    }
}

impl Coordinator {
    /// Well-formedness of the coordinator's state.
    pub open spec fn wf(&self) -> bool {
        self@.wf()
    }

    /// A fresh coordinator: no configuration, nothing pending, an
    /// empty registry.
    pub fn new() -> (r: Coordinator)
        ensures
            r@ == (CoordModel {
                config: None,
                next_token: 0,
                pending: Seq::empty(),
                registry: Seq::empty(),
            }),
            r.wf(),
    {
        let r = Coordinator { config: None, next_token: 0, pending: Vec::new(), registry: Vec::new() };
        proof {
            assert(r@.pending =~= Seq::<(u64, PendingModel)>::empty());
            assert(r@.registry =~= Seq::<(Seq<char>, Seq<char>)>::empty());
            assert(r@ =~= (CoordModel {
                config: None,
                next_token: 0,
                pending: Seq::empty(),
                registry: Seq::empty(),
            }));
        }
        r
    }

    /// Rebuilds a coordinator from stored parts; refuses parts that
    /// break the invariants: a duplicated pending token, a pending
    /// token not below the next one to hand out, or a registry out of
    /// ascending peer order.
    pub fn from_parts(
        config: Option<Config>,
        next_token: u64,
        pending: Vec<(u64, PendingEntry)>,
        registry: Vec<(String, String)>,
    ) -> (r: Option<Coordinator>)
        ensures
            ({
                let m = (CoordModel {
                    config: match config {
                        Some(c) => Some(c@),
                        None => None,
                    },
                    next_token: next_token,
                    pending: pending@.map_values(|p: (u64, PendingEntry)| (p.0, p.1@)),
                    registry: registry@.map_values(|p: (String, String)| (p.0@, p.1@)),
                });
                &&& r matches Some(c) ==> c@ == m && c.wf()
                &&& r is None ==> !m.wf()
            }),
    {
        let ghost m = (CoordModel {
            config: match &config {
                Some(c) => Some(c@),
                None => None,
            },
            next_token: next_token,
            pending: pending@.map_values(|p: (u64, PendingEntry)| (p.0, p.1@)),
            registry: registry@.map_values(|p: (String, String)| (p.0@, p.1@)),
        });
        let np = pending.len();
        let mut i: usize = 0;
        while i < np
            invariant
                i <= np,
                np == pending.len(),
                m.pending == pending@.map_values(|p: (u64, PendingEntry)| (p.0, p.1@)),
                m.next_token == next_token,
                forall|a: int, b: int|
                    0 <= a < b < np && a < i ==> m.pending[a].0 != m.pending[b].0,
                forall|a: int| 0 <= a < i ==> m.pending[a].0 < next_token,
            decreases np - i,
        {
            if pending[i].0 >= next_token {
                proof {
                    assert(m.pending[i as int].0 >= next_token);
                }
                return None;
            }
            let mut j: usize = i + 1;
            while j < np
                invariant
                    i < j <= np,
                    np == pending.len(),
                    m.pending == pending@.map_values(|p: (u64, PendingEntry)| (p.0, p.1@)),
                    forall|b: int| i < b < j ==> m.pending[i as int].0 != m.pending[b].0,
                decreases np - j,
            {
                if pending[i].0 == pending[j].0 {
                    proof {
                        assert(m.pending[i as int].0 == m.pending[j as int].0);
                    }
                    return None;
                }
                j = j + 1;
            }
            i = i + 1;
        }
        let nr = registry.len();
        if nr > 0 {
            let mut k: usize = 0;
            while k < nr - 1
                invariant
                    nr >= 1,
                    k <= nr - 1,
                    nr == registry.len(),
                    m.registry == registry@.map_values(|p: (String, String)| (p.0@, p.1@)),
                    forall|a: int|
                        0 <= a < k ==> lex_lt(#[trigger] m.registry[a].0, m.registry[a + 1].0),
                decreases nr - k,
            {
                if !str_lt(registry[k].0.as_str(), registry[k + 1].0.as_str()) {
                    proof {
                        assert(!lex_lt(m.registry[k as int].0, m.registry[k as int + 1].0));
                    }
                    return None;
                }
                k = k + 1;
            }
        }
        proof {
            assert forall|a: int, b: int| 0 <= a < b < m.registry.len() implies lex_lt(
                m.registry[a].0,
                m.registry[b].0,
            ) by {
                crate::state::lemma_sorted_chain(m.registry, a, b);
            }
        }
        let r = Coordinator { config, next_token, pending, registry };
        proof {
            assert(r@ =~= m);
        }
        Some(r)
    }

    /// The coordinator's parts, for persisting: configuration, next
    /// token, pending table and registry.
    pub fn into_parts(self) -> (r: (
        Option<Config>,
        u64,
        Vec<(u64, PendingEntry)>,
        Vec<(String, String)>,
    ))
        ensures
            self@ == (CoordModel {
                config: match r.0 {
                    Some(c) => Some(c@),
                    None => None,
                },
                next_token: r.1,
                pending: r.2@.map_values(|p: (u64, PendingEntry)| (p.0, p.1@)),
                registry: r.3@.map_values(|p: (String, String)| (p.0@, p.1@)),
            }),
    {
        (self.config, self.next_token, self.pending, self.registry)
    }

    /// The next correlation token that a join would hand out.
    pub fn next_token(&self) -> (r: u64)
        ensures
            r == self@.next_token,
    {
        self.next_token
    }

    /// Stores the configuration; refused once one is stored.
    pub fn initialize(&mut self, config: Config) -> (r: Result<(), Error>)
        requires
            old(self).wf(),
        ensures
            final(self).wf(),
            old(self)@.config is Some ==> r == Err::<(), Error>(Error::AlreadyInitialized)
                && final(self)@ == old(self)@,
            old(self)@.config is None ==> r == Ok::<(), Error>(()) && final(self)@ == (CoordModel {
                config: Some(config@),
                ..old(self)@
            }),
    {
        match &self.config {
            Some(_) => Err(Error::AlreadyInitialized),
            None => {
                self.config = Some(config);
                proof {
                    assert(self@ =~= (CoordModel { config: Some(config@), ..old(self)@ }));
                }
                Ok(())
            },
        }
    }

    /// Issues a spawn request on behalf of `sender`: allocates a fresh
    /// correlation token, snapshots the configuration into a new
    /// pending entry under that token, and describes the peer unit to
    /// create.  Fails when no configuration has been stored.
    pub fn join(&mut self, sender: String) -> (r: Result<(u64, SpawnRequest), Error>)
        requires
            old(self).wf(),
            old(self)@.next_token < u64::MAX,
        ensures
            final(self).wf(),
            old(self)@.config is None ==> r == Err::<(u64, SpawnRequest), Error>(
                Error::ConfigNotFound,
            ) && final(self)@ == old(self)@,
            old(self)@.config matches Some(cfg) ==> (r matches Ok(issued) && {
                let (token, req) = issued;
                &&& token == old(self)@.next_token
                &&& find_pending(old(self)@.pending, token) is None
                &&& final(self)@.pending == old(self)@.pending.push(
                    (token, (PendingModel { owner: sender@, config: cfg })),
                )
                &&& final(self)@.registry == old(self)@.registry
                &&& final(self)@.config == old(self)@.config
                &&& final(self)@.next_token == token + 1
                &&& req@.code_id == cfg.peer_code_id
                &&& req@.owner == sender@
                &&& req@.incremental_donation == cfg.incremental_donation
                &&& req@.collective_ratio == cfg.collective_ratio
                &&& req@.label == sender@ + "-peer"@
            }),
    {
        let cfg = match &self.config {
            None => {
                return Err(Error::ConfigNotFound);
            },
            Some(c) => c.snapshot(),
        };
        let token = self.next_token;
        self.next_token = token + 1;
        let label = sender.clone().concat("-peer");
        let req = SpawnRequest {
            code_id: cfg.peer_code_id,
            owner: sender.clone(),
            incremental_donation: cfg.incremental_donation.duplicate(),
            collective_ratio: cfg.collective_ratio,
            label,
        };
        let entry = PendingEntry { owner: sender, config: cfg };
        let ghost entry_model = entry@;
        self.pending.push((token, entry));
        proof {
            let m0 = old(self)@;
            lemma_find_pending_exists(m0.pending, token);
            assert(self@.pending =~= m0.pending.push((token, entry_model)));
            assert(self@.registry =~= m0.registry);
            assert forall|i: int, j: int| 0 <= i < j < self@.pending.len() implies self@.pending[i].0
                != self@.pending[j].0 by {
                if j < m0.pending.len() {
                } else {
                    assert(self@.pending[i] == m0.pending[i]);
                }
            }
        }
        Ok((token, req))
    }

    /// The index of the pending entry for `token`, if one exists.
    fn find_token_index(&self, token: u64) -> (r: Option<usize>)
        ensures
            match r {
                Some(i) => i < self@.pending.len() && self@.pending[i as int].0 == token && (
                forall|k: int| 0 <= k < i ==> self@.pending[k].0 != token) && find_pending(
                    self@.pending,
                    token,
                ) == Some(self@.pending[i as int].1),
                None => find_pending(self@.pending, token) is None,
            },
    {
        let n = self.pending.len();
        let mut i: usize = 0;
        while i < n
            invariant
                i <= n,
                n == self@.pending.len(),
                n == self.pending.len(),
                forall|k: int| 0 <= k < i ==> self@.pending[k].0 != token,
            decreases n - i,
        {
            if self.pending[i].0 == token {
                proof {
                    lemma_find_pending_skip(self@.pending, token, i as int);
                    assert(self@.pending.skip(i as int)[0] == self@.pending[i as int]);
                }
                return Some(i);
            }
            i = i + 1;
        }
        proof {
            lemma_find_pending_skip(self@.pending, token, n as int);
            assert(self@.pending.skip(n as int).len() == 0);
        }
        None
    }

    /// Removes and returns the pending entry for `token`, if one
    /// exists; the rest of the state is untouched.
    fn take_pending(&mut self, token: u64) -> (r: Option<PendingEntry>)
        requires
            old(self).wf(),
        ensures
            final(self).wf(),
            find_pending(old(self)@.pending, token) is None ==> r is None && final(self)@ == old(
                self,
            )@,
            find_pending(old(self)@.pending, token) matches Some(e) ==> (r matches Some(entry)
                && entry@ == e && final(self)@ == (CoordModel {
                pending: crate::state::pending_remove(old(self)@.pending, token),
                ..old(self)@
            })),
    {
        let idx = match self.find_token_index(token) {
            None => {
                return None;
            },
            Some(i) => i,
        };
        let ghost m0 = self@;
        let (_, entry) = self.pending.remove(idx);
        proof {
            crate::state::lemma_pending_remove_at(m0.pending, token, idx as int);
            m0.pending.remove_ensures(idx as int);
            assert(self@.pending =~= m0.pending.remove(idx as int));
            assert(self@.registry =~= m0.registry);
            assert(self@ =~= (CoordModel {
                pending: crate::state::pending_remove(m0.pending, token),
                ..m0
            }));
            assert forall|i: int, j: int| 0 <= i < j < self@.pending.len() implies self@.pending[i].0
                != self@.pending[j].0 by {}
            assert forall|i: int| 0 <= i < self@.pending.len() implies self@.pending[i].0
                < self@.next_token by {}
        }
        Some(entry)
    }

    /// The position at which `peer` belongs in the ascending registry:
    /// the first index whose key is not below `peer`.
    fn find_insert_pos(&self, peer: &str) -> (r: usize)
        ensures
            r <= self@.registry.len(),
            forall|k: int| 0 <= k < r ==> lex_lt(self@.registry[k].0, peer@),
            r < self@.registry.len() ==> !lex_lt(self@.registry[r as int].0, peer@),
    {
        let n = self.registry.len();
        let mut i: usize = 0;
        while i < n
            invariant
                i <= n,
                n == self@.registry.len(),
                n == self.registry.len(),
                forall|k: int| 0 <= k < i ==> lex_lt(self@.registry[k].0, peer@),
            decreases n - i,
        {
            if !str_lt(self.registry[i].0.as_str(), peer) {
                return i;
            }
            i = i + 1;
        }
        i
    }

    /// Consumes the pending entry for `token` and writes the registry:
    /// the new `peer` is mapped to the owner recorded at join time.
    /// Returns that owner.  Fails, without touching any state, when
    /// the token is not pending — a replayed or unknown completion.
    pub fn register_peer(&mut self, token: u64, peer: String) -> (r: Result<String, Error>)
        requires
            old(self).wf(),
        ensures
            final(self).wf(),
            !register_ok(old(self)@, token) ==> r == Err::<String, Error>(
                Error::UnknownCorrelationToken,
            ) && final(self)@ == old(self)@,
            register_ok(old(self)@, token) ==> (r matches Ok(owner) && owner@ == find_pending(
                old(self)@.pending,
                token,
            )->0.owner && final(self)@ == register_next(old(self)@, token, peer@)),
    {
        let ghost m0 = self@;
        let entry = match self.take_pending(token) {
            None => {
                return Err(Error::UnknownCorrelationToken);
            },
            Some(e) => e,
        };
        let owner_out = entry.owner.clone();
        let pos = self.find_insert_pos(peer.as_str());
        let ghost reg0 = self@.registry;
        let ghost pos_replace = pos < self.registry.len()
            && self@.registry[pos as int].0 == peer@;
        if pos < self.registry.len() && str_eq(self.registry[pos].0.as_str(), peer.as_str()) {
            self.registry.remove(pos);
        }
        self.registry.insert(pos, (peer, entry.owner));
        proof {
            crate::state::lemma_reg_insert_split(reg0, peer@, owner_out@, pos as int);
            if pos_replace {
                assert(self@.registry =~= reg0.take(pos as int) + seq![(peer@, owner_out@)]
                    + reg0.skip(pos as int + 1));
            } else {
                assert(self@.registry =~= reg0.take(pos as int) + seq![(peer@, owner_out@)]
                    + reg0.skip(pos as int));
            }
            assert(self@.registry == crate::state::reg_insert(reg0, peer@, owner_out@));
            crate::state::lemma_reg_insert_sorted(reg0, peer@, owner_out@);
            assert(self@.pending =~= register_next(m0, token, peer@).pending);
            assert(self@ =~= register_next(m0, token, peer@));
        }
        Ok(owner_out)
    }

    /// Releases the pending entry for `token` without writing the
    /// registry: the explicit expiry of a spawn request that never
    /// completed.  Fails when the token is not pending.
    pub fn expire(&mut self, token: u64) -> (r: Result<(), Error>)
        requires
            old(self).wf(),
        ensures
            final(self).wf(),
            find_pending(old(self)@.pending, token) is None ==> r == Err::<(), Error>(
                Error::UnknownCorrelationToken,
            ) && final(self)@ == old(self)@,
            find_pending(old(self)@.pending, token) is Some ==> r == Ok::<(), Error>(())
                && final(self)@ == (CoordModel {
                pending: crate::state::pending_remove(old(self)@.pending, token),
                ..old(self)@
            }),
    {
        match self.take_pending(token) {
            None => Err(Error::UnknownCorrelationToken),
            Some(_) => Ok(()),
        }
    }

    /// Reconciles a completion event for `token`.
    ///
    /// A reported failure releases the pending entry — even then the
    /// resource must not leak — and surfaces the reason; a missing or
    /// undecodable payload is refused before any state changes; a
    /// decoded peer identity consumes the pending entry and writes the
    /// registry.  An unknown or already consumed token is refused.
    /// On success, returns the registered peer and its owner.
    pub fn completion(&mut self, token: u64, outcome: CompletionOutcome) -> (r: Result<
        (String, String),
        Error,
    >)
        requires
            old(self).wf(),
        ensures
            final(self).wf(),
            outcome matches CompletionOutcome::Failure { reason } ==> (find_pending(
                old(self)@.pending,
                token,
            ) is None ==> r == Err::<(String, String), Error>(Error::UnknownCorrelationToken)
                && final(self)@ == old(self)@) && (find_pending(old(self)@.pending, token) is Some
                ==> (r matches Err(e) && e matches Error::SpawnFailed { reason: surfaced }
                && surfaced@ == reason@) && final(self)@ == (CoordModel {
                pending: crate::state::pending_remove(old(self)@.pending, token),
                ..old(self)@
            })),
            outcome matches CompletionOutcome::Success { payload: None } ==> r == Err::<
                (String, String),
                Error,
            >(Error::MissingCompletionPayload) && final(self)@ == old(self)@,
            outcome matches CompletionOutcome::Success { payload: Some(data) } ==> {
                &&& parsed_instantiate_reply(data@) is None ==> r == Err::<
                    (String, String),
                    Error,
                >(Error::MalformedCompletionPayload) && final(self)@ == old(self)@
                &&& parsed_instantiate_reply(data@) matches Some(peer) ==> (!register_ok(
                    old(self)@,
                    token,
                ) ==> r == Err::<(String, String), Error>(Error::UnknownCorrelationToken)
                    && final(self)@ == old(self)@) && (register_ok(old(self)@, token) ==> (
                r matches Ok(po) && po.0@ == peer && po.1@ == find_pending(
                    old(self)@.pending,
                    token,
                )->0.owner && final(self)@ == register_next(old(self)@, token, peer)))
            },
    {
        match outcome {
            CompletionOutcome::Failure { reason } => {
                match self.take_pending(token) {
                    None => Err(Error::UnknownCorrelationToken),
                    Some(_) => Err(Error::SpawnFailed { reason }),
                }
            },
            CompletionOutcome::Success { payload } => {
                let data = match payload {
                    None => {
                        return Err(Error::MissingCompletionPayload);
                    },
                    Some(d) => d,
                };
                let peer = match parse_instantiate_reply(&data) {
                    None => {
                        return Err(Error::MalformedCompletionPayload);
                    },
                    Some(p) => p,
                };
                let peer_out = peer.clone();
                match self.register_peer(token, peer) {
                    Err(e) => Err(e),
                    Ok(owner) => Ok((peer_out, owner)),
                }
            },
        }
    }

    /// The first registry entry, in ascending peer order, whose owner
    /// is `addr`: owners with several peers only ever surface the
    /// smallest peer identity here.  Fails when no peer is owned by
    /// `addr`.
    pub fn query_member_peer_addr(&self, addr: &str) -> (r: Result<MemberPeerAddrResp, Error>)
        ensures
            crate::state::find_peer_for_owner(self@.registry, addr@) matches Some(p) ==> (
            r matches Ok(resp) && resp.addr@ == p),
            crate::state::find_peer_for_owner(self@.registry, addr@) is None ==> r == Err::<
                MemberPeerAddrResp,
                Error,
            >(Error::OwnerNotRegistered),
    {
        let n = self.registry.len();
        let mut i: usize = 0;
        while i < n
            invariant
                i <= n,
                n == self@.registry.len(),
                n == self.registry.len(),
                forall|k: int| 0 <= k < i ==> self@.registry[k].1 != addr@,
            decreases n - i,
        {
            if str_eq(self.registry[i].1.as_str(), addr) {
                proof {
                    crate::state::lemma_find_owner_skip(self@.registry, addr@, i as int);
                    assert(self@.registry.skip(i as int)[0] == self@.registry[i as int]);
                }
                return Ok(MemberPeerAddrResp { addr: self.registry[i].0.clone() });
            }
            i = i + 1;
        }
        proof {
            crate::state::lemma_find_owner_skip(self@.registry, addr@, n as int);
            assert(self@.registry.skip(n as int).len() == 0);
        }
        Err(Error::OwnerNotRegistered)
    }

    /// The registered peers, in ascending order.
    pub fn registry_peers(&self) -> (r: Vec<String>)
        ensures
            r@.len() == self@.registry.len(),
            forall|i: int| 0 <= i < r@.len() ==> r@[i]@ == self@.registry[i].0,
    {
        let n = self.registry.len();
        let mut peers: Vec<String> = Vec::new();
        let mut i: usize = 0;
        while i < n
            invariant
                i <= n,
                n == self@.registry.len(),
                n == self.registry.len(),
                peers@.len() == i,
                forall|k: int| 0 <= k < i ==> peers@[k]@ == self@.registry[k].0,
            decreases n - i,
        {
            peers.push(self.registry[i].0.clone());
            i = i + 1;
        }
        peers
    }

    /// The configuration, if initialization has happened.
    pub fn query_config(&self) -> (r: GetConfigResponse)
        ensures
            self@.config is Some ==> (r.config matches Some(c) && c@ == self@.config->0),
            self@.config is None ==> r.config is None,
    {
        match &self.config {
            Some(c) => GetConfigResponse { config: Some(c.snapshot()) },
            None => GetConfigResponse { config: None },
        }
    }
}

} // verus!
