use vstd::prelude::*;

verus! {

/// A time-boxed, single-owner claim on one node.
#[derive(Debug)]
pub struct Reservation {
    /// The proof of ownership the reserver presented (an opaque secret or a
    /// caller identity, depending on the deployment's ownership scheme).
    pub reserved_by: String,
    /// Absolute time, in seconds since the epoch, at which the claim ends.
    pub reserved_until: u64,
}

/// The mathematical content of a `Reservation`.
#[verifier::ext_equal]
pub struct ResData {
    pub owner: Seq<char>,
    pub until: u64,
}

impl View for Reservation {
    type V = ResData;

    open spec fn view(&self) -> ResData {
        ResData { owner: self.reserved_by@, until: self.reserved_until }
    }
}

impl Clone for Reservation {
    fn clone(&self) -> (r: Self)
        ensures
            r == *self,
    {
        Reservation { reserved_by: self.reserved_by.clone(), reserved_until: self.reserved_until }
    }
}

/// A node paired with its current reservation, computed on demand; never
/// stored.
pub struct Xnode {
    pub id: String,
    pub reservation: Option<Reservation>,
}

/// The outward shape of a node listing: identifier and, if reserved, when the
/// reservation ends.
pub struct PublicXnode {
    pub xnode_id: String,
    pub reserved_until: Option<u64>,
}

impl PublicXnode {
    pub fn of_xnode(x: &Xnode) -> (r: PublicXnode)
        ensures
            r.xnode_id@ == x.id@,
            r.reserved_until == match x.reservation {
                Some(res) => Some(res.reserved_until),
                None => None::<u64>,
            },
    {
        PublicXnode {
            xnode_id: x.id.clone(),
            reserved_until: match &x.reservation {
                Some(res) => Some(res.reserved_until),
                None => None,
            },
        }
    }
}

pub open spec fn opt_res_view(o: Option<Reservation>) -> Option<ResData> {
    match o {
        Some(r) => Some(r@),
        None => None,
    }
}

/// Index of the first occurrence of `id`, or -1 if there is none.
pub open spec fn first_index_of(ids: Seq<Seq<char>>, id: Seq<char>) -> int
    decreases ids.len(),
{
    if ids.len() == 0 {
        -1
    } else if ids[0] == id {
        0
    } else {
        let r = first_index_of(ids.skip(1), id);
        if r < 0 {
            -1
        } else {
            1 + r
        }
    }
}

pub proof fn lemma_first_index_bounds(ids: Seq<Seq<char>>, id: Seq<char>)
    ensures
        first_index_of(ids, id) == -1 || (0 <= first_index_of(ids, id) < ids.len()
            && ids[first_index_of(ids, id)] == id),
    decreases ids.len(),
{
    if ids.len() > 0 && ids[0] != id {
        lemma_first_index_bounds(ids.skip(1), id);
    }
}

/// Links a linear scan to `first_index_of`: if the first `i` entries all
/// differ from `id`, the first occurrence is at `i` (or absent).
pub proof fn lemma_first_index_from_prefix(ids: Seq<Seq<char>>, id: Seq<char>, i: int)
    requires
        0 <= i <= ids.len(),
        forall|k: int| 0 <= k < i ==> ids[k] != id,
        i < ids.len() ==> ids[i] == id,
    ensures
        first_index_of(ids, id) == if i == ids.len() {
            -1
        } else {
            i
        },
    decreases ids.len(),
{
    if ids.len() == 0 {
    } else if ids[0] == id {
        assert(i == 0);
    } else {
        assert(i >= 1);
        let tail = ids.skip(1);
        assert(forall|k: int| 0 <= k < i - 1 ==> tail[k] == ids[k + 1] && ids[k + 1] != id);
        if i < ids.len() {
            assert(tail[i - 1] == ids[i]);
        }
        lemma_first_index_from_prefix(tail, id, i - 1);
    }
}

/// The state of the reservation ledger, as mathematics: the configured node
/// identifiers, the reservation duration, one reservation slot per node, and
/// the queue of nodes whose expired reservations still await remote cleanup.
#[verifier::ext_equal]
pub struct LedgerModel {
    pub ids: Seq<Seq<char>>,
    pub duration: u64,
    pub slots: Seq<Option<ResData>>,
    pub pending: Seq<Seq<char>>,
}

impl LedgerModel {
    pub open spec fn wf(self) -> bool {
        &&& self.slots.len() == self.ids.len()
        &&& forall|i: int, j: int|
            0 <= i < j < self.ids.len() ==> #[trigger] self.ids[i] != #[trigger] self.ids[j]
    }

    pub open spec fn idx(self, id: Seq<char>) -> int {
        first_index_of(self.ids, id)
    }
}

/// Whether a reservation is still in force at time `now`.
pub open spec fn live_at(r: ResData, now: u64) -> bool {
    r.until > now
}

/// What a read of one node's reservation does: report a live reservation
/// unchanged; on the first read past the expiry time, drop the record and
/// queue the node for reclamation; report nothing otherwise.
pub open spec fn spec_get(m: LedgerModel, id: Seq<char>, now: u64) -> (LedgerModel, Option<
    ResData,
>) {
    let i = m.idx(id);
    if i < 0 {
        (m, None)
    } else {
        match m.slots[i] {
            None => (m, None),
            Some(r) => if live_at(r, now) {
                (m, Some(r))
            } else {
                (
                    LedgerModel {
                        slots: m.slots.update(i, None),
                        pending: m.pending.push(id),
                        ..m
                    },
                    None,
                )
            },
        }
    }
}

#[derive(Clone, Copy, PartialEq, Eq, Structural, Debug)]
pub enum LedgerError {
    /// The identifier is not one of the configured nodes.
    UnknownNode,
    /// The node currently has a live reservation.
    AlreadyReserved,
}

impl LedgerError {
    /// The safe, caller-facing words for each refusal.
    pub fn message(&self) -> (r: String)
        ensures
            r@ == match self {
                LedgerError::UnknownNode => "Invalid Xnode id."@,
                LedgerError::AlreadyReserved => "Xnode is already reserved."@,
            },
    {
        match self {
            LedgerError::UnknownNode => String::from_str("Invalid Xnode id."),
            LedgerError::AlreadyReserved => String::from_str("Xnode is already reserved."),
        }
    }
}

/// What a reserve does: fail on an unknown node, fail if the current
/// reservation is still live, and otherwise record a fresh claim ending
/// `duration` seconds from now (queueing cleanup if an expired claim was
/// displaced).
pub open spec fn spec_reserve(m: LedgerModel, id: Seq<char>, owner: Seq<char>, now: u64) -> (
    LedgerModel,
    Result<ResData, LedgerError>,
) {
    let i = m.idx(id);
    if i < 0 {
        (m, Err(LedgerError::UnknownNode))
    } else {
        let (m1, cur) = spec_get(m, id, now);
        match cur {
            Some(_) => (m, Err(LedgerError::AlreadyReserved)),
            None => {
                let r = ResData { owner, until: (now + m.duration) as u64 };
                (LedgerModel { slots: m1.slots.update(i, Some(r)), ..m1 }, Ok(r))
            },
        }
    }
}

/// What restoring one persisted record does: a record for a configured node
/// takes that node's slot as it stands — a later read applies expiry to it
/// as to any other — and a record for an unknown node is ignored.
pub open spec fn spec_restore(m: LedgerModel, id: Seq<char>, r: ResData) -> LedgerModel {
    let i = first_index_of(m.ids, id);
    if i < 0 {
        m
    } else {
        LedgerModel { slots: m.slots.update(i, Some(r)), ..m }
    }
}

/// Which reservations remain visible at time `now`.
pub open spec fn clear_expired(slots: Seq<Option<ResData>>, now: u64) -> Seq<Option<ResData>> {
    Seq::new(
        slots.len(),
        |i: int|
            match slots[i] {
                Some(r) => if live_at(r, now) {
                    Some(r)
                } else {
                    None
                },
                None => None,
            },
    )
}

/// The nodes whose reservations a listing at time `now` finds expired, in
/// configuration order.
pub open spec fn expired_ids(ids: Seq<Seq<char>>, slots: Seq<Option<ResData>>, now: u64) -> Seq<
    Seq<char>,
>
    decreases ids.len(),
{
    if ids.len() == 0 || slots.len() == 0 {
        Seq::empty()
    } else {
        expired_ids(ids.drop_last(), slots.drop_last(), now) + match slots.last() {
            Some(r) => if live_at(r, now) {
                Seq::<Seq<char>>::empty()
            } else {
                seq![ids.last()]
            },
            None => Seq::<Seq<char>>::empty(),
        }
    }
}

/// What listing every node does: each node reports as `spec_get` would, all
/// expired records are dropped, and their nodes queue for reclamation in
/// configuration order.
pub open spec fn spec_list(m: LedgerModel, now: u64) -> (LedgerModel, Seq<Option<ResData>>) {
    (
        LedgerModel {
            slots: clear_expired(m.slots, now),
            pending: m.pending + expired_ids(m.ids, m.slots, now),
            ..m
        },
        clear_expired(m.slots, now),
    )
}

/// The reservation ledger: the single shared, mutable resource of the
/// subsystem. One slot per configured node; at most one reservation per node.
pub struct Ledger {
    nodes: Vec<String>,
    duration: u64,
    slots: Vec<Option<Reservation>>,
    pending: Vec<String>,
}

impl View for Ledger {
    type V = LedgerModel;

    closed spec fn view(&self) -> LedgerModel {
        LedgerModel {
            ids: self.nodes@.map_values(|s: String| s@),
            duration: self.duration,
            slots: Seq::new(self.slots@.len(), |i: int| opt_res_view(self.slots@[i])),
            pending: self.pending@.map_values(|s: String| s@),
        }
    }
}

impl Ledger {
    /// Sets up the ledger over the configured pool of node identifiers, all
    /// unreserved. A repeated identifier counts once.
    pub fn new(nodes: Vec<String>, duration: u64) -> (l: Ledger)
        ensures
            l@.wf(),
            l@.ids == dedup_first(nodes.deep_view()),
            l@.duration == duration,
            forall|i: int| 0 <= i < l@.slots.len() ==> l@.slots[i] is None,
            l@.pending == Seq::<Seq<char>>::empty(),
    {
        let deduped = dedup_ids(nodes);
        let mut slots: Vec<Option<Reservation>> = Vec::new();
        let mut k: usize = 0;
        while k < deduped.len()
            invariant
                slots@.len() == k,
                k <= deduped@.len(),
                forall|i: int| 0 <= i < k ==> slots@[i] is None,
            decreases deduped@.len() - k,
        {
            slots.push(None);
            k = k + 1;
        }
        let l = Ledger { nodes: deduped, duration, slots, pending: Vec::new() };
        proof {
            lemma_dedup_first_distinct(nodes.deep_view());
            assert(l@.ids =~= dedup_first(nodes.deep_view()));
            assert(l@.pending =~= Seq::<Seq<char>>::empty());
        }
        l
    }

    /// Index of the node in the configured pool, if it is known.
    fn find_index(&self, id: &String) -> (r: Option<usize>)
        ensures
            match r {
                Some(i) => i < self@.ids.len() && self@.idx(id@) == i as int,
                None => self@.idx(id@) == -1,
            },
    {
        let mut k: usize = 0;
        while k < self.nodes.len()
            invariant
                k <= self.nodes@.len(),
                self@.ids.len() == self.nodes@.len(),
                forall|j: int| 0 <= j < k ==> self@.ids[j] != id@,
            decreases self.nodes@.len() - k,
        {
            let node = &self.nodes[k];
            if *node == *id {
                proof {
                    lemma_first_index_from_prefix(self@.ids, id@, k as int);
                }
                return Some(k);
            }
            k = k + 1;
        }
        proof {
            lemma_first_index_from_prefix(self@.ids, id@, self@.ids.len() as int);
        }
        None
    }
}

pub open spec fn res_result_view(r: Result<Reservation, LedgerError>) -> Result<
    ResData,
    LedgerError,
> {
    match r {
        Ok(res) => Ok(res@),
        Err(e) => Err(e),
    }
}

impl Ledger {
    /// Whether the identifier names one of the configured nodes.
    pub fn knows_node(&self, id: &String) -> (r: bool)
        ensures
            r == (first_index_of(self@.ids, id@) >= 0),
    {
        match self.find_index(id) {
            Some(_) => true,
            None => false,
        }
    }

    /// Reads one node's reservation: a live one is reported as it stands; an
    /// expired one is deleted on this first late read and the node is queued
    /// for reclamation; otherwise the node reports as unreserved.
    pub fn get_xnode(&mut self, xnode_id: &String, now: u64) -> (x: Xnode)
        requires
            old(self)@.slots.len() == old(self)@.ids.len(),
        ensures
            x.id@ == xnode_id@,
            opt_res_view(x.reservation) == spec_get(old(self)@, xnode_id@, now).1,
            final(self)@ == spec_get(old(self)@, xnode_id@, now).0,
    {
        let id_copy = xnode_id.clone();
        match self.find_index(xnode_id) {
            None => Xnode { id: id_copy, reservation: None },
            Some(i) => {
                let (res_opt, expired) = match &self.slots[i] {
                    None => (None, false),
                    Some(r) => if r.reserved_until > now {
                        (Some(r.clone()), false)
                    } else {
                        (None, true)
                    },
                };
                if expired {
                    self.slots.set(i, None);
                    self.pending.push(xnode_id.clone());
                    proof {
                        let (m2, _) = spec_get(old(self)@, xnode_id@, now);
                        assert(self@.slots =~= m2.slots);
                        assert(self@.pending =~= m2.pending);
                        assert(self@ =~= m2);
                    }
                }
                Xnode { id: id_copy, reservation: res_opt }
            },
        }
    }

    /// Claims the node for `owner` until `duration` seconds from now. Fails
    /// with `UnknownNode` outside the configured pool and with
    /// `AlreadyReserved` while a live reservation stands; a displaced expired
    /// reservation queues the node for reclamation first.
    pub fn reserve(&mut self, xnode_id: &String, owner: &String, now: u64) -> (r: Result<
        Reservation,
        LedgerError,
    >)
        requires
            old(self)@.slots.len() == old(self)@.ids.len(),
            now + old(self)@.duration <= u64::MAX,
        ensures
            final(self)@ == spec_reserve(old(self)@, xnode_id@, owner@, now).0,
            res_result_view(r) == spec_reserve(old(self)@, xnode_id@, owner@, now).1,
    {
        match self.find_index(xnode_id) {
            None => Err(LedgerError::UnknownNode),
            Some(i) => {
                let expired = match &self.slots[i] {
                    None => false,
                    Some(r) => {
                        if r.reserved_until > now {
                            return Err(LedgerError::AlreadyReserved);
                        }
                        true
                    },
                };
                if expired {
                    self.pending.push(xnode_id.clone());
                }
                let res = Reservation {
                    reserved_by: owner.clone(),
                    reserved_until: now + self.duration,
                };
                self.slots.set(i, Some(res.clone()));
                proof {
                    let (m2, out) = spec_reserve(old(self)@, xnode_id@, owner@, now);
                    assert(self@.slots =~= m2.slots);
                    assert(self@.pending =~= m2.pending);
                    assert(self@ =~= m2);
                    match out {
                        Ok(rd) => {
                            assert(res@ =~= rd);
                        },
                        Err(_) => {
                            assert(false);
                        },
                    }
                }
                Ok(res)
            },
        }
    }

    /// Puts a reservation read back from storage into its node's slot, as it
    /// stands: whether it is still live is decided by the reads that follow,
    /// which also queue the cleanup of an expired one. Reports whether the
    /// node is configured at all.
    pub fn restore(&mut self, xnode_id: &String, reservation: Reservation) -> (r: bool)
        requires
            old(self)@.slots.len() == old(self)@.ids.len(),
        ensures
            final(self)@ == spec_restore(old(self)@, xnode_id@, reservation@),
            r == (first_index_of(old(self)@.ids, xnode_id@) >= 0),
    {
        match self.find_index(xnode_id) {
            None => false,
            Some(i) => {
                self.slots.set(i, Some(reservation));
                proof {
                    let m2 = spec_restore(old(self)@, xnode_id@, reservation@);
                    assert(self@.slots =~= m2.slots);
                    assert(self@ =~= m2);
                }
                true
            },
        }
    }

    /// Hands out the queue of nodes awaiting remote reclamation and empties
    /// it.
    pub fn take_reclaims(&mut self) -> (r: Vec<String>)
        ensures
            r.deep_view() == old(self)@.pending,
            final(self)@ == (LedgerModel { pending: Seq::empty(), ..old(self)@ }),
    {
        let mut out: Vec<String> = Vec::new();
        core::mem::swap(&mut self.pending, &mut out);
        proof {
            assert(out.deep_view() =~= old(self)@.pending);
            assert(self@ =~= (LedgerModel { pending: Seq::empty(), ..old(self)@ }));
        }
        out
    }

    /// Reads every configured node in configuration order, with the read's
    /// expiry side effects on each.
    pub fn get_xnodes(&mut self, now: u64) -> (r: Vec<Xnode>)
        requires
            old(self)@.slots.len() == old(self)@.ids.len(),
        ensures
            final(self)@ == spec_list(old(self)@, now).0,
            r@.len() == old(self)@.ids.len(),
            forall|i: int|
                0 <= i < r@.len() ==> (#[trigger] r@[i]).id@ == old(self)@.ids[i] && opt_res_view(
                    r@[i].reservation,
                ) == spec_list(old(self)@, now).1[i],
    {
        let mut out: Vec<Xnode> = Vec::new();
        let mut i: usize = 0;
        let ghost m0 = old(self)@;
        while i < self.nodes.len()
            invariant
                m0 == old(self)@,
                m0.slots.len() == m0.ids.len(),
                i <= self.nodes@.len(),
                self.nodes@.len() == m0.ids.len(),
                self.slots@.len() == m0.ids.len(),
                self@.ids == m0.ids,
                self@.duration == m0.duration,
                forall|k: int| i <= k < m0.ids.len() ==> self@.slots[k] == m0.slots[k],
                forall|k: int|
                    0 <= k < i ==> self@.slots[k] == clear_expired(m0.slots, now)[k],
                self@.pending == m0.pending + expired_ids(
                    m0.ids.take(i as int),
                    m0.slots.take(i as int),
                    now,
                ),
                out@.len() == i,
                forall|k: int|
                    0 <= k < i ==> (#[trigger] out@[k]).id@ == m0.ids[k] && opt_res_view(
                        out@[k].reservation,
                    ) == clear_expired(m0.slots, now)[k],
            decreases self.nodes@.len() - i,
        {
            let ghost pre = self@;
            let node = self.nodes[i].clone();
            let (res_opt, expired) = match &self.slots[i] {
                None => (None, false),
                Some(r) => if r.reserved_until > now {
                    (Some(r.clone()), false)
                } else {
                    (None, true)
                },
            };
            if expired {
                self.slots.set(i, None);
                self.pending.push(node.clone());
            }
            proof {
                assert(node@ == m0.ids[i as int]);
                assert(m0.ids.take(i + 1).drop_last() =~= m0.ids.take(i as int));
                assert(m0.slots.take(i + 1).drop_last() =~= m0.slots.take(i as int));
                assert(m0.ids.take(i + 1).last() == m0.ids[i as int]);
                assert(m0.slots.take(i + 1).last() == m0.slots[i as int]);
                if expired {
                    assert(self@.pending =~= pre.pending.push(node@));
                    assert(expired_ids(m0.ids.take(i + 1), m0.slots.take(i + 1), now)
                        =~= expired_ids(m0.ids.take(i as int), m0.slots.take(i as int), now)
                        + seq![m0.ids[i as int]]);
                } else {
                    assert(self@.pending =~= pre.pending);
                    assert(expired_ids(m0.ids.take(i + 1), m0.slots.take(i + 1), now)
                        =~= expired_ids(m0.ids.take(i as int), m0.slots.take(i as int), now));
                }
                assert(self@.pending =~= m0.pending + expired_ids(
                    m0.ids.take(i + 1),
                    m0.slots.take(i + 1),
                    now,
                ));
                assert(self@.ids =~= pre.ids);
            }
            out.push(Xnode { id: node, reservation: res_opt });
            i = i + 1;
        }
        proof {
            assert(m0.ids.take(m0.ids.len() as int) =~= m0.ids);
            assert(m0.slots.take(m0.ids.len() as int) =~= m0.slots);
            assert(self@.slots =~= clear_expired(m0.slots, now));
            assert(self@ =~= spec_list(m0, now).0);
        }
        out
    }
}

/// Reading a sequence of nodes one after another, each read acting on the
/// state the previous one left.
pub open spec fn iter_gets(m: LedgerModel, ids: Seq<Seq<char>>, now: u64) -> (
    LedgerModel,
    Seq<Option<ResData>>,
)
    decreases ids.len(),
{
    if ids.len() == 0 {
        (m, Seq::empty())
    } else {
        let (m1, r) = spec_get(m, ids[0], now);
        let (m2, rest) = iter_gets(m1, ids.skip(1), now);
        (m2, seq![r] + rest)
    }
}

proof fn lemma_iter_gets_suffix(m0: LedgerModel, m: LedgerModel, now: u64, k: int)
    requires
        m0.wf(),
        m.ids == m0.ids,
        m.duration == m0.duration,
        m.slots.len() == m0.slots.len(),
        0 <= k <= m0.ids.len(),
        forall|j: int| 0 <= j < k ==> m.slots[j] == clear_expired(m0.slots, now)[j],
        forall|j: int| k <= j < m0.slots.len() ==> m.slots[j] == m0.slots[j],
        m.pending == m0.pending + expired_ids(m0.ids.take(k), m0.slots.take(k), now),
    ensures
        iter_gets(m, m0.ids.skip(k), now).0 == spec_list(m0, now).0,
        iter_gets(m, m0.ids.skip(k), now).1 == clear_expired(m0.slots, now).skip(k),
    decreases m0.ids.len() - k,
{
    if k == m0.ids.len() {
        assert(m0.ids.skip(k) =~= Seq::<Seq<char>>::empty());
        assert(m0.ids.take(k) =~= m0.ids);
        assert(m0.slots.take(k) =~= m0.slots);
        assert(m.slots =~= clear_expired(m0.slots, now));
        assert(m =~= spec_list(m0, now).0);
        assert(iter_gets(m, m0.ids.skip(k), now).1 =~= clear_expired(m0.slots, now).skip(k));
    } else {
        let id = m0.ids[k];
        assert(forall|j: int| 0 <= j < k ==> m0.ids[j] != id);
        lemma_first_index_from_prefix(m.ids, id, k);
        let (m1, r) = spec_get(m, id, now);
        lemma_iter_gets_step(m0, m, m1, now, k);
        lemma_iter_gets_suffix(m0, m1, now, k + 1);
        assert(m0.ids.skip(k)[0] == id);
        assert(m0.ids.skip(k).skip(1) =~= m0.ids.skip(k + 1));
        assert(r == clear_expired(m0.slots, now)[k]);
        assert(seq![r] + clear_expired(m0.slots, now).skip(k + 1) =~= clear_expired(
            m0.slots,
            now,
        ).skip(k));
    }
}

/// One read in the middle of a sweep keeps the sweep's bookkeeping: the first
/// `k` slots already read, the rest untouched, the expired ones queued in
/// order.
proof fn lemma_iter_gets_step(m0: LedgerModel, m: LedgerModel, m1: LedgerModel, now: u64, k: int)
    requires
        m0.wf(),
        m.ids == m0.ids,
        m.duration == m0.duration,
        m.slots.len() == m0.slots.len(),
        0 <= k < m0.ids.len(),
        forall|j: int| 0 <= j < k ==> m.slots[j] == clear_expired(m0.slots, now)[j],
        forall|j: int| k <= j < m0.slots.len() ==> m.slots[j] == m0.slots[j],
        m.pending == m0.pending + expired_ids(m0.ids.take(k), m0.slots.take(k), now),
        m.idx(m0.ids[k]) == k,
        m1 == spec_get(m, m0.ids[k], now).0,
    ensures
        m1.ids == m0.ids,
        m1.duration == m0.duration,
        m1.slots.len() == m0.slots.len(),
        forall|j: int| 0 <= j < k + 1 ==> m1.slots[j] == clear_expired(m0.slots, now)[j],
        forall|j: int| k + 1 <= j < m0.slots.len() ==> m1.slots[j] == m0.slots[j],
        m1.pending == m0.pending + expired_ids(m0.ids.take(k + 1), m0.slots.take(k + 1), now),
{
    assert(m0.ids.take(k + 1).drop_last() =~= m0.ids.take(k));
    assert(m0.slots.take(k + 1).drop_last() =~= m0.slots.take(k));
    assert(m0.ids.take(k + 1).last() == m0.ids[k]);
    assert(m0.slots.take(k + 1).last() == m0.slots[k]);
    match m0.slots[k] {
        Some(r) => {
            if live_at(r, now) {
                assert(m1.pending =~= m0.pending + expired_ids(
                    m0.ids.take(k + 1),
                    m0.slots.take(k + 1),
                    now,
                ));
            } else {
                assert(m1.pending =~= m0.pending + expired_ids(
                    m0.ids.take(k + 1),
                    m0.slots.take(k + 1),
                    now,
                ));
            }
        },
        None => {
            assert(m1.pending =~= m0.pending + expired_ids(
                m0.ids.take(k + 1),
                m0.slots.take(k + 1),
                now,
            ));
        },
    }
}

/// Listing is nothing more than reading every configured node in
/// configuration order: the same answers and the same final state as the
/// one-node reads performed one after another.
pub proof fn lemma_list_is_iterated_get(m: LedgerModel, now: u64)
    requires
        m.wf(),
    ensures
        iter_gets(m, m.ids, now) == spec_list(m, now),
{
    assert(m.ids.take(0) =~= Seq::<Seq<char>>::empty());
    assert(m.slots.take(0) =~= Seq::<Option<ResData>>::empty());
    assert(expired_ids(m.ids.take(0), m.slots.take(0), now) =~= Seq::<Seq<char>>::empty());
    assert(m.pending =~= m.pending + expired_ids(m.ids.take(0), m.slots.take(0), now));
    lemma_iter_gets_suffix(m, m, now, 0);
    assert(m.ids.skip(0) =~= m.ids);
    assert(clear_expired(m.slots, now).skip(0) =~= clear_expired(m.slots, now));
}

/// Mutual exclusion: after one successful reserve of a node, a second
/// reserve of the same node issued before the expiry time always fails with
/// `AlreadyReserved`, whoever asks.
pub proof fn lemma_mutual_exclusion(
    m: LedgerModel,
    id: Seq<char>,
    owner1: Seq<char>,
    owner2: Seq<char>,
    t1: u64,
    t2: u64,
)
    requires
        m.slots.len() == m.ids.len(),
        spec_reserve(m, id, owner1, t1).1 is Ok,
        t2 < spec_reserve(m, id, owner1, t1).1.unwrap().until,
    ensures
        spec_reserve(spec_reserve(m, id, owner1, t1).0, id, owner2, t2).1 == Err::<
            ResData,
            LedgerError,
        >(LedgerError::AlreadyReserved),
        spec_reserve(spec_reserve(m, id, owner1, t1).0, id, owner2, t2).0 == spec_reserve(
            m,
            id,
            owner1,
            t1,
        ).0,
{
    lemma_first_index_bounds(m.ids, id);
    let (m1, out) = spec_reserve(m, id, owner1, t1);
    let i = m.idx(id);
    assert(m1.ids == m.ids);
    assert(m1.slots[i] == Some(out.unwrap()));
}

/// Expiry: a reservation made at `t0` reports as reserved for every read
/// strictly before `t0 + duration`; the first read at or past that time
/// deletes the record and reports the node unreserved; any later read finds
/// no record and changes nothing more.
pub proof fn lemma_expiry(
    m: LedgerModel,
    id: Seq<char>,
    owner: Seq<char>,
    t0: u64,
    t1: u64,
    t2: u64,
    t3: u64,
)
    requires
        m.slots.len() == m.ids.len(),
        spec_reserve(m, id, owner, t0).1 is Ok,
        t0 + m.duration <= u64::MAX,
        t1 < t0 + m.duration,
        t2 >= t0 + m.duration,
    ensures
        ({
            let m1 = spec_reserve(m, id, owner, t0).0;
            let r = spec_reserve(m, id, owner, t0).1.unwrap();
            let m2 = spec_get(m1, id, t2).0;
            &&& r.until == t0 + m.duration
            &&& spec_get(m1, id, t1) == (m1, Some(r))
            &&& spec_get(m1, id, t2).1 is None
            &&& m2.slots[m.idx(id)] is None
            &&& m2.pending == m1.pending.push(id)
            &&& spec_get(m2, id, t3) == (m2, None::<ResData>)
        }),
{
    lemma_first_index_bounds(m.ids, id);
    let m1 = spec_reserve(m, id, owner, t0).0;
    let r = spec_reserve(m, id, owner, t0).1.unwrap();
    let i = m.idx(id);
    assert(m1.ids == m.ids);
    assert(m1.slots[i] == Some(r));
    let m2 = spec_get(m1, id, t2).0;
    assert(m2.ids == m.ids);
    assert(m2.slots[i] is None);
}

/// Keeps the first occurrence of every identifier, in order.
pub open spec fn dedup_first(ids: Seq<Seq<char>>) -> Seq<Seq<char>>
    decreases ids.len(),
{
    if ids.len() == 0 {
        Seq::empty()
    } else {
        let prefix = dedup_first(ids.drop_last());
        if ids.drop_last().contains(ids.last()) {
            prefix
        } else {
            prefix.push(ids.last())
        }
    }
}

pub proof fn lemma_dedup_first_contains(ids: Seq<Seq<char>>, x: Seq<char>)
    ensures
        dedup_first(ids).contains(x) == ids.contains(x),
    decreases ids.len(),
{
    if ids.len() > 0 {
        lemma_dedup_first_contains(ids.drop_last(), x);
        assert(ids.contains(x) == (ids.drop_last().contains(x) || ids.last() == x)) by {
            if ids.contains(x) {
                let w = choose|w: int| 0 <= w < ids.len() && ids[w] == x;
                if w < ids.len() - 1 {
                    assert(ids.drop_last()[w] == x);
                }
            }
            if ids.drop_last().contains(x) {
                let w = choose|w: int| 0 <= w < ids.drop_last().len() && ids.drop_last()[w] == x;
                assert(ids[w] == x);
            }
        }
        if !ids.drop_last().contains(ids.last()) {
            let prefix = dedup_first(ids.drop_last());
            assert(prefix.push(ids.last()).contains(x) == (prefix.contains(x) || ids.last() == x))
                by {
                if prefix.contains(x) {
                    let w = choose|w: int| 0 <= w < prefix.len() && prefix[w] == x;
                    assert(prefix.push(ids.last())[w] == x);
                }
                if prefix.push(ids.last()).contains(x) {
                    let w = choose|w: int|
                        0 <= w < prefix.push(ids.last()).len() && prefix.push(ids.last())[w] == x;
                    if w < prefix.len() {
                        assert(prefix[w] == x);
                    }
                }
                assert(prefix.push(ids.last())[prefix.len() as int] == ids.last());
            }
        }
    }
}

pub proof fn lemma_dedup_first_distinct(ids: Seq<Seq<char>>)
    ensures
        forall|i: int, j: int|
            0 <= i < j < dedup_first(ids).len() ==> #[trigger] dedup_first(ids)[i]
                != #[trigger] dedup_first(ids)[j],
    decreases ids.len(),
{
    if ids.len() > 0 {
        lemma_dedup_first_distinct(ids.drop_last());
        let prefix = dedup_first(ids.drop_last());
        if !ids.drop_last().contains(ids.last()) {
            lemma_dedup_first_contains(ids.drop_last(), ids.last());
            assert(!prefix.contains(ids.last()));
            assert forall|i: int, j: int|
                0 <= i < j < dedup_first(ids).len() implies #[trigger] dedup_first(ids)[i]
                != #[trigger] dedup_first(ids)[j] by {
                if j < prefix.len() {
                } else {
                    assert(dedup_first(ids)[j] == ids.last());
                    assert(dedup_first(ids)[i] == prefix[i]);
                    if prefix[i] == ids.last() {
                        assert(prefix.contains(ids.last()));
                    }
                }
            }
        }
    }
}

/// Drops repeated identifiers, keeping the first occurrence of each.
fn dedup_ids(ids: Vec<String>) -> (r: Vec<String>)
    ensures
        r.deep_view() == dedup_first(ids.deep_view()),
{
    let mut out: Vec<String> = Vec::new();
    let mut k: usize = 0;
    while k < ids.len()
        invariant
            k <= ids@.len(),
            out.deep_view() == dedup_first(ids.deep_view().take(k as int)),
            ids.deep_view().len() == ids@.len(),
        decreases ids@.len() - k,
    {
        let ghost prefix = ids.deep_view().take(k as int);
        let mut seen = false;
        let mut j: usize = 0;
        while j < k
            invariant
                j <= k < ids@.len(),
                ids.deep_view().len() == ids@.len(),
                prefix == ids.deep_view().take(k as int),
                seen == exists|w: int| 0 <= w < j && ids.deep_view()[w] == ids@[k as int]@,
            decreases k - j,
        {
            let a = &ids[j];
            let b = &ids[k];
            if *a == *b {
                proof {
                    assert(ids.deep_view()[j as int] == ids@[k as int]@);
                }
                seen = true;
            }
            proof {
                if !seen {
                    assert(forall|w: int|
                        0 <= w < j + 1 ==> ids.deep_view()[w] != ids@[k as int]@);
                }
            }
            j = j + 1;
        }
        proof {
            assert(ids.deep_view().take(k + 1).drop_last() =~= prefix);
            assert(ids.deep_view().take(k + 1).last() == ids.deep_view()[k as int]);
            assert(ids.deep_view()[k as int] == ids@[k as int]@);
            assert(seen == prefix.contains(ids.deep_view()[k as int])) by {
                if seen {
                    let w = choose|w: int| 0 <= w < k && ids.deep_view()[w] == ids@[k as int]@;
                    assert(prefix[w] == ids.deep_view()[w]);
                }
                if prefix.contains(ids.deep_view()[k as int]) {
                    let w = choose|w: int|
                        0 <= w < prefix.len() && prefix[w] == ids.deep_view()[k as int];
                    assert(ids.deep_view()[w] == ids@[k as int]@);
                }
            }
        }
        if !seen {
            out.push(ids[k].clone());
            proof {
                assert(out.deep_view() =~= dedup_first(ids.deep_view().take(k + 1)));
            }
        } else {
            proof {
                assert(out.deep_view() =~= dedup_first(ids.deep_view().take(k + 1)));
            }
        }
        k = k + 1;
    }
    proof {
        assert(ids.deep_view().take(ids@.len() as int) =~= ids.deep_view());
    }
    out
}

} // verus!
