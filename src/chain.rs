use vstd::prelude::*;
use crate::block::{AccountId, Block, BlockHeader, CryptoHash};

verus! {

/// Why a block or header does not fit onto the known chain.
#[derive(Clone, Copy, Debug, PartialEq, Eq, Structural)]
pub enum UnfitReason {
    /// The parent named by `prev_hash` is not known.
    UnknownParent,
    /// The height is not one above the parent's height.
    WrongHeight,
    /// The header was already processed.
    AlreadyKnown,
    /// A block named as challenged and as challenger at once.
    SelfChallenge,
    /// The genesis block cannot be challenged.
    GenesisChallenge,
}

#[derive(Clone, Copy, Debug, PartialEq, Eq, Structural)]
pub enum ErrorKind {
    Unfit(UnfitReason),
    ChallengedBlockOnChain,
    NotFound,
    /// A different header with the same hash is already stored.
    StoreError,
}

#[derive(Clone, Copy, Debug, PartialEq, Eq, Structural)]
pub struct ChainError {
    pub kind: ErrorKind,
}

impl ChainError {
    pub fn new(kind: ErrorKind) -> (r: ChainError)
        ensures
            r.kind == kind,
    {
        ChainError { kind }
    }

    pub fn kind(&self) -> (r: ErrorKind)
        ensures
            r == self.kind,
    {
        self.kind
    }
}

/// Snapshot of the canonical head.
#[derive(Clone, Copy, Debug, PartialEq, Eq, Structural)]
pub struct Tip {
    pub last_block_hash: CryptoHash,
    pub height: u64,
    pub prev_block_hash: CryptoHash,
}

/// The tip that a header would form.
pub open spec fn tip_of(h: BlockHeader) -> Tip {
    Tip { last_block_hash: h.hash, height: h.height, prev_block_hash: h.prev_hash }
}

/// Evidence handed to a caller when a header reveals a challenge condition:
/// the same producer signed two different headers at one height.
#[derive(Clone, Copy, Debug, PartialEq, Eq, Structural)]
pub struct ChallengeEvidence {
    pub known_hash: CryptoHash,
    pub new_hash: CryptoHash,
}

/// The fork-choice rule: does `candidate` replace `current` as head?
/// A greater height always wins; at equal height the current head stays
/// unless it is invalid.
pub open spec fn candidate_wins(current: Tip, current_valid: bool, candidate: Tip) -> bool {
    candidate.height > current.height || (candidate.height == current.height && !current_valid)
}

pub fn fork_choice(current: &Tip, current_valid: bool, candidate: &Tip) -> (r: bool)
    ensures
        r == candidate_wins(*current, current_valid, *candidate),
{
    candidate.height > current.height || (candidate.height == current.height && !current_valid)
}

/// Index of the ancestor at height `h` of the block at index `i`, following
/// the parent indices `ps`.
pub open spec fn anc(hs: Seq<BlockHeader>, ps: Seq<usize>, i: int, h: int) -> int
    decreases i,
{
    if 0 < i < hs.len() && i < ps.len() && ps[i] < i && hs[i].height > h {
        anc(hs, ps, ps[i] as int, h)
    } else {
        i
    }
}

/// The block store: headers and bodies in arrival order, each block's
/// parent index, the invalid flags, and the canonical height index.
pub struct Chain {
    headers: Vec<BlockHeader>,
    bodies: Vec<Vec<u8>>,
    parents: Vec<usize>,
    invalid: Vec<bool>,
    canonical: Vec<usize>,
}

/// Parent links go backwards, heights grow by one along them, hashes are
/// unique, and invalidity passes from parent to child.
pub open spec fn store_wf(hs: Seq<BlockHeader>, ps: Seq<usize>, inv: Seq<bool>) -> bool {
    &&& hs.len() >= 1
    &&& ps.len() == hs.len()
    &&& inv.len() == hs.len()
    &&& hs[0].height == 0
    &&& forall|i: int| 0 < i < hs.len() ==> {
        &&& #[trigger] ps[i] < i
        &&& hs[ps[i] as int].hash == hs[i].prev_hash
        &&& hs[i].height == hs[ps[i] as int].height + 1
        &&& (inv[ps[i] as int] ==> inv[i])
    }
    &&& forall|i: int, j: int| 0 <= i < hs.len() && 0 <= j < hs.len() && i != j
        ==> #[trigger] hs[i].hash != #[trigger] hs[j].hash
}

/// Every entry of the height index is the head's ancestor at that height.
pub open spec fn index_shape(hs: Seq<BlockHeader>, ps: Seq<usize>, c: Seq<usize>) -> bool {
    &&& c.len() >= 1
    &&& c[c.len() - 1] < hs.len()
    &&& hs[c[c.len() - 1] as int].height == c.len() - 1
    &&& forall|h: int| 0 <= h < c.len() ==> #[trigger] c[h] == anc(hs, ps, c[c.len() - 1] as int, h)
}

/// The height index has the head's ancestry, the head is valid, and no
/// valid block is higher than the head.
pub open spec fn index_wf(hs: Seq<BlockHeader>, ps: Seq<usize>, inv: Seq<bool>, c: Seq<usize>) -> bool {
    &&& index_shape(hs, ps, c)
    &&& !inv[c[c.len() - 1] as int]
    &&& forall|i: int| 0 <= i < hs.len() && !inv[i] ==> #[trigger] hs[i].height < c.len()
}

proof fn lemma_anc(hs: Seq<BlockHeader>, ps: Seq<usize>, inv: Seq<bool>, i: int, h: int)
    requires
        store_wf(hs, ps, inv),
        0 <= i < hs.len(),
        0 <= h <= hs[i].height,
    ensures
        0 <= anc(hs, ps, i, h) <= i,
        hs[anc(hs, ps, i, h)].height == h,
        !inv[i] ==> !inv[anc(hs, ps, i, h)],
        h == 0 ==> anc(hs, ps, i, h) == 0,
    decreases i,
{
    if 0 < i && hs[i].height > h {
        lemma_anc(hs, ps, inv, ps[i] as int, h);
    } else if h == 0 && i != 0 {
        assert(ps[i] < i);
    }
}

proof fn lemma_anc_trans(hs: Seq<BlockHeader>, ps: Seq<usize>, inv: Seq<bool>, i: int, h1: int, h2: int)
    requires
        store_wf(hs, ps, inv),
        0 <= i < hs.len(),
        0 <= h2 <= h1 <= hs[i].height,
    ensures
        anc(hs, ps, anc(hs, ps, i, h1), h2) == anc(hs, ps, i, h2),
    decreases i,
{
    lemma_anc(hs, ps, inv, i, h1);
    if 0 < i && hs[i].height > h1 {
        lemma_anc_trans(hs, ps, inv, ps[i] as int, h1, h2);
    }
}

/// Appending to the store leaves the ancestry of earlier blocks unchanged.
proof fn lemma_anc_frame(hs: Seq<BlockHeader>, ps: Seq<usize>, hs2: Seq<BlockHeader>, ps2: Seq<usize>, i: int, h: int)
    requires
        hs.len() <= hs2.len(),
        ps.len() == hs.len(),
        ps2.len() == hs2.len(),
        hs2.subrange(0, hs.len() as int) == hs,
        ps2.subrange(0, ps.len() as int) == ps,
        0 <= i < hs.len(),
    ensures
        anc(hs2, ps2, i, h) == anc(hs, ps, i, h),
    decreases i,
{
    assert(hs2[i] == hs[i]);
    assert(ps2[i] == ps[i]);
    if 0 < i && ps[i] < i && hs[i].height > h {
        lemma_anc_frame(hs, ps, hs2, ps2, ps[i] as int, h);
    }
}

/// The block at `i` is `t` or a descendant of it.
pub open spec fn desc(hs: Seq<BlockHeader>, ps: Seq<usize>, i: int, t: int) -> bool {
    hs[i].height >= hs[t].height && anc(hs, ps, i, hs[t].height as int) == t
}

/// Descent passes from parent to child, and a block other than `t` at
/// `t`'s height or below does not descend from it.
proof fn lemma_desc_step(hs: Seq<BlockHeader>, ps: Seq<usize>, inv: Seq<bool>, i: int, t: int)
    requires
        store_wf(hs, ps, inv),
        0 <= i < hs.len(),
        0 < t < hs.len(),
    ensures
        i > 0 ==> (desc(hs, ps, i, t) <==> (i == t || desc(hs, ps, ps[i] as int, t))),
        i == 0 ==> !desc(hs, ps, i, t),
{
    if i > 0 {
        assert(ps[i] < i);
        let p = ps[i] as int;
        if desc(hs, ps, p, t) {
            assert(anc(hs, ps, i, hs[t].height as int) == anc(hs, ps, p, hs[t].height as int));
        }
        if desc(hs, ps, i, t) && i != t {
            assert(hs[i].height > hs[t].height);
            assert(anc(hs, ps, i, hs[t].height as int) == anc(hs, ps, p, hs[t].height as int));
        }
    } else {
        assert(hs[t].height > 0) by {
            assert(ps[t] < t);
        }
    }
}

/// What a successful challenge of `target` leaves: the store as it was,
/// `target` and its descendants invalid, and the height index unchanged
/// where `target` was not in it. Where it was, the head is a valid block of
/// the greatest height: the first stored one above `target`'s parent's
/// height, or else that parent.
pub open spec fn challenge_applied(pre: Chain, post: Chain, target: CryptoHash) -> bool {
    let t = pre.index_of(target);
    let ht = pre.header_of(target).height as int;
    &&& post.headers_spec() == pre.headers_spec()
    &&& post.bodies_spec() == pre.bodies_spec()
    &&& post.invalid_spec().len() == pre.invalid_spec().len()
    &&& forall|i: int| 0 <= i < pre.invalid_spec().len() ==> #[trigger] post.invalid_spec()[i]
        == (pre.invalid_spec()[i] || pre.descends(i, t))
    &&& (pre.canonical_at(ht) != Some(target) ==> post.canonical_spec() == pre.canonical_spec())
    &&& (pre.canonical_at(ht) == Some(target) ==> {
        &&& forall|i: int| #[trigger] post.valid_at(i)
            ==> post.headers_spec()[i].height <= post.head_spec().height
        &&& (post.head_spec().height == ht - 1
            ==> post.head_spec().last_block_hash == pre.header_of(target).prev_hash)
        &&& (post.head_spec().height > ht - 1 ==> forall|i: int| #[trigger] post.valid_at(i)
            && post.headers_spec()[i].height == post.head_spec().height ==> post.head_index() <= i)
    })
}

impl Chain {
    pub closed spec fn headers_spec(&self) -> Seq<BlockHeader> {
        self.headers@
    }

    pub closed spec fn parents_spec(&self) -> Seq<usize> {
        self.parents@
    }

    pub closed spec fn invalid_spec(&self) -> Seq<bool> {
        self.invalid@
    }

    pub closed spec fn canonical_spec(&self) -> Seq<usize> {
        self.canonical@
    }

    pub closed spec fn bodies_spec(&self) -> Seq<Seq<u8>> {
        self.bodies@.map_values(|b: Vec<u8>| b@)
    }

    /// The error that processing a block with this header meets, if any.
    pub open spec fn block_check(&self, b: BlockHeader) -> Option<ErrorKind> {
        if !self.known(b.prev_hash) {
            Some(ErrorKind::Unfit(UnfitReason::UnknownParent))
        } else if b.height != self.header_of(b.prev_hash).height + 1 {
            Some(ErrorKind::Unfit(UnfitReason::WrongHeight))
        } else if self.known(b.hash) && self.header_of(b.hash) == b {
            Some(ErrorKind::Unfit(UnfitReason::AlreadyKnown))
        } else if self.known(b.hash) {
            Some(ErrorKind::StoreError)
        } else if self.invalid_hash(b.prev_hash) {
            Some(ErrorKind::ChallengedBlockOnChain)
        } else {
            None
        }
    }

    pub closed spec fn wf(&self) -> bool {
        &&& store_wf(self.headers@, self.parents@, self.invalid@)
        &&& index_wf(self.headers@, self.parents@, self.invalid@, self.canonical@)
        &&& self.bodies@.len() == self.headers@.len()
    }

    /// A stored header has this hash.
    pub open spec fn known(&self, hash: CryptoHash) -> bool {
        exists|i: int| 0 <= i < self.headers_spec().len() && #[trigger] self.headers_spec()[i].hash == hash
    }

    /// Arena index of the stored header with this hash.
    pub open spec fn index_of(&self, hash: CryptoHash) -> int {
        choose|i: int| 0 <= i < self.headers_spec().len() && #[trigger] self.headers_spec()[i].hash == hash
    }

    pub open spec fn header_of(&self, hash: CryptoHash) -> BlockHeader {
        self.headers_spec()[self.index_of(hash)]
    }

    /// The block with this hash is known and marked invalid.
    pub open spec fn invalid_hash(&self, hash: CryptoHash) -> bool {
        self.known(hash) && self.invalid_spec()[self.index_of(hash)]
    }

    pub open spec fn head_index(&self) -> int {
        self.canonical_spec()[self.canonical_spec().len() - 1] as int
    }

    pub open spec fn head_spec(&self) -> Tip {
        tip_of(self.headers_spec()[self.head_index()])
    }

    /// The hash that the height index holds at `height`.
    pub open spec fn canonical_at(&self, height: int) -> Option<CryptoHash> {
        if 0 <= height < self.canonical_spec().len() {
            Some(self.headers_spec()[self.canonical_spec()[height] as int].hash)
        } else {
            None
        }
    }

    /// The block at index `i` is stored and not invalid.
    pub open spec fn valid_at(&self, i: int) -> bool {
        0 <= i < self.headers_spec().len() && !self.invalid_spec()[i]
    }

    /// The block at index `i` is the one at index `t` or descends from it.
    pub open spec fn descends(&self, i: int, t: int) -> bool {
        desc(self.headers_spec(), self.parents_spec(), i, t)
    }

    /// The block at index `i` is valid and signed by `header`'s producer at
    /// `header`'s height, under another hash.
    pub open spec fn equivocates(&self, i: int, header: BlockHeader) -> bool {
        &&& self.valid_at(i)
        &&& self.headers_spec()[i].height == header.height
        &&& self.headers_spec()[i].signer == header.signer
        &&& self.headers_spec()[i].hash != header.hash
    }

    /// The error that challenging `target` with `challenger` meets, if any.
    pub open spec fn challenge_check(&self, target: CryptoHash, challenger: CryptoHash) -> Option<ErrorKind> {
        if target == challenger {
            Some(ErrorKind::Unfit(UnfitReason::SelfChallenge))
        } else if !self.known(target) {
            Some(ErrorKind::NotFound)
        } else if self.header_of(target).height == 0 {
            Some(ErrorKind::Unfit(UnfitReason::GenesisChallenge))
        } else {
            None
        }
    }

    /// The hash reached from `hash` by following `prev_hash` `steps` times.
    pub open spec fn walk_back(&self, hash: CryptoHash, steps: nat) -> CryptoHash
        decreases steps,
    {
        if steps == 0 {
            hash
        } else {
            self.walk_back(self.header_of(hash).prev_hash, (steps - 1) as nat)
        }
    }

    /// A chain holding only the genesis block of the given producer.
    pub fn new(genesis_signer: AccountId) -> (r: Chain)
        ensures
            r.wf(),
            r.headers_spec() == seq![Block::genesis_header_spec(genesis_signer)],
            r.invalid_spec() == seq![false],
            r.head_spec() == tip_of(Block::genesis_header_spec(genesis_signer)),
    {
        let genesis = Block::genesis(genesis_signer);
        let mut headers: Vec<BlockHeader> = Vec::new();
        headers.push(genesis.header);
        let mut bodies: Vec<Vec<u8>> = Vec::new();
        bodies.push(genesis.body);
        let mut parents: Vec<usize> = Vec::new();
        parents.push(0);
        let mut invalid: Vec<bool> = Vec::new();
        invalid.push(false);
        let mut canonical: Vec<usize> = Vec::new();
        canonical.push(0);
        let r = Chain { headers, bodies, parents, invalid, canonical };
        assert(r.headers@ =~= seq![Block::genesis_header_spec(genesis_signer)]);
        assert(r.invalid@ =~= seq![false]);
        r
    }

    /// Looks a hash up in the store.
    fn find(&self, hash: CryptoHash) -> (r: Option<usize>)
        requires
            self.wf(),
        ensures
            r is None <==> !self.known(hash),
            r matches Some(i) ==> i == self.index_of(hash) && i < self.headers_spec().len(),
    {
        let mut i: usize = 0;
        while i < self.headers.len()
            invariant
                self.wf(),
                i <= self.headers@.len(),
                forall|j: int| 0 <= j < i ==> self.headers@[j].hash != hash,
            decreases self.headers@.len() - i,
        {
            if self.headers[i].hash == hash {
                proof {
                    assert(self.headers_spec()[i as int].hash == hash);
                    assert(self.known(hash));
                    let k = self.index_of(hash);
                    assert(self.headers@[k].hash == self.headers@[i as int].hash);
                }
                return Some(i);
            }
            i += 1;
        }
        None
    }

    /// Makes the block at `best` the head: walks back from it to the first
    /// ancestor already in the height index, then rewrites the index from
    /// there on.
    fn set_head(&mut self, best: usize)
        requires
            store_wf(old(self).headers@, old(self).parents@, old(self).invalid@),
            index_shape(old(self).headers@, old(self).parents@, old(self).canonical@),
            best < old(self).headers@.len(),
            old(self).headers@[best as int].height <= old(self).canonical@.len(),
        ensures
            final(self).headers@ == old(self).headers@,
            final(self).parents@ == old(self).parents@,
            final(self).invalid@ == old(self).invalid@,
            final(self).bodies@ == old(self).bodies@,
            index_shape(final(self).headers@, final(self).parents@, final(self).canonical@),
            final(self).canonical@[final(self).canonical@.len() - 1] == best,
    {
        let ghost hs = self.headers@;
        let ghost ps = self.parents@;
        let ghost inv = self.invalid@;
        let ghost c0 = self.canonical@;
        let ghost head = c0[c0.len() - 1] as int;
        let ghost hb = hs[best as int].height as int;
        proof {
            lemma_anc(hs, ps, inv, head, 0);
            lemma_anc(hs, ps, inv, best as int, 0);
        }
        let mut cur: usize = best;
        let mut path: Vec<usize> = Vec::new();
        loop
            invariant
                self.headers@ == hs,
                self.parents@ == ps,
                self.invalid@ == inv,
                self.canonical@ == c0,
                self.bodies@ == old(self).bodies@,
                store_wf(hs, ps, inv),
                index_shape(hs, ps, c0),
                head == c0[c0.len() - 1] as int,
                best < hs.len(),
                hb == hs[best as int].height,
                hb <= c0.len(),
                anc(hs, ps, best as int, 0) == 0,
                anc(hs, ps, head, 0) == 0,
                cur < hs.len(),
                hs[cur as int].height <= hb,
                cur == anc(hs, ps, best as int, hs[cur as int].height as int),
                path@.len() == hb - hs[cur as int].height,
                forall|j: int| 0 <= j < path@.len() ==> #[trigger] path@[j] == anc(hs, ps, best as int, hb - j),
            ensures
                self.headers@ == hs,
                self.parents@ == ps,
                self.invalid@ == inv,
                self.canonical@ == c0,
                self.bodies@ == old(self).bodies@,
                cur < hs.len(),
                hs[cur as int].height < c0.len(),
                c0[hs[cur as int].height as int] == cur,
                hs[cur as int].height <= hb,
                cur == anc(hs, ps, best as int, hs[cur as int].height as int),
                path@.len() == hb - hs[cur as int].height,
                forall|j: int| 0 <= j < path@.len() ==> #[trigger] path@[j] == anc(hs, ps, best as int, hb - j),
            decreases hs[cur as int].height,
        {
            let h = self.headers[cur].height;
            if h < self.canonical.len() as u64 && self.canonical[h as usize] == cur {
                break;
            }
            proof {
                if h == 0 {
                    assert(c0[0] == anc(hs, ps, head, 0));
                }
                assert(cur > 0);
                lemma_anc_trans(hs, ps, inv, best as int, h as int, h - 1);
            }
            let ghost prev = cur as int;
            path.push(cur);
            cur = self.parents[cur];
            proof {
                assert(anc(hs, ps, prev, h - 1) == anc(hs, ps, cur as int, h - 1));
                assert(anc(hs, ps, cur as int, h - 1) == cur);
            }
        }
        let ghost k = hs[cur as int].height as int;
        proof {
            assert(k < c0.len() && c0[k] == cur);
            assert forall|q: int| 0 <= q <= k implies c0[q] == anc(hs, ps, best as int, q) by {
                lemma_anc_trans(hs, ps, inv, head, k, q);
                lemma_anc_trans(hs, ps, inv, best as int, k, q);
            }
        }
        let index_len = self.canonical.len();
        let keep = self.headers[cur].height as usize;
        assert(keep < index_len);
        self.canonical.truncate(keep + 1);
        let mut m: usize = path.len();
        while m > 0
            invariant
                self.headers@ == hs,
                self.parents@ == ps,
                self.invalid@ == inv,
                self.bodies@ == old(self).bodies@,
                m <= path@.len(),
                path@.len() == hb - k,
                0 <= k <= hb,
                self.canonical@.len() == k + 1 + (path@.len() - m),
                forall|j: int| 0 <= j < path@.len() ==> #[trigger] path@[j] == anc(hs, ps, best as int, hb - j),
                forall|q: int| 0 <= q < self.canonical@.len() ==> #[trigger] self.canonical@[q] == anc(hs, ps, best as int, q),
            decreases m,
        {
            m -= 1;
            self.canonical.push(path[m]);
        }
        proof {
            lemma_anc(hs, ps, inv, best as int, hb);
        }
    }

    /// Marks the block at `t` and all its descendants invalid.
    fn invalidate_from(&mut self, t: usize)
        requires
            store_wf(old(self).headers@, old(self).parents@, old(self).invalid@),
            0 < t < old(self).headers@.len(),
        ensures
            final(self).headers@ == old(self).headers@,
            final(self).parents@ == old(self).parents@,
            final(self).bodies@ == old(self).bodies@,
            final(self).canonical@ == old(self).canonical@,
            store_wf(final(self).headers@, final(self).parents@, final(self).invalid@),
            forall|i: int| 0 <= i < final(self).invalid@.len() ==> #[trigger] final(self).invalid@[i]
                == (old(self).invalid@[i] || desc(old(self).headers@, old(self).parents@, i, t as int)),
    {
        let ghost hs = self.headers@;
        let ghost ps = self.parents@;
        let ghost inv = self.invalid@;
        let n = self.invalid.len();
        let mut i: usize = 0;
        while i < n
            invariant
                self.headers@ == hs,
                self.parents@ == ps,
                self.bodies@ == old(self).bodies@,
                self.canonical@ == old(self).canonical@,
                store_wf(hs, ps, inv),
                0 < t < hs.len(),
                n == hs.len(),
                i <= n,
                self.invalid@.len() == n,
                forall|j: int| 0 <= j < i ==> #[trigger] self.invalid@[j] == (inv[j] || desc(hs, ps, j, t as int)),
                forall|j: int| i <= j < n ==> #[trigger] self.invalid@[j] == inv[j],
            decreases n - i,
        {
            proof {
                lemma_desc_step(hs, ps, inv, i as int, t as int);
            }
            if i == t || (i > 0 && self.invalid[self.parents[i]]) {
                self.invalid.set(i, true);
            }
            i += 1;
        }
        proof {
            let nv = self.invalid@;
            assert forall|j: int| 0 < j < hs.len() && nv[ps[j] as int] implies nv[j] by {
                lemma_desc_step(hs, ps, inv, j, t as int);
            }
        }
    }

    /// The fork choice re-run over all valid blocks, starting from the
    /// valid block at `start`: the first-stored valid block of the greatest
    /// height, or `start` where none is higher.
    fn best_candidate(&self, start: usize) -> (r: usize)
        requires
            store_wf(self.headers@, self.parents@, self.invalid@),
            start < self.headers@.len(),
            !self.invalid@[start as int],
        ensures
            r < self.headers@.len(),
            !self.invalid@[r as int],
            forall|i: int| 0 <= i < self.headers@.len() && !self.invalid@[i]
                ==> #[trigger] self.headers@[i].height <= self.headers@[r as int].height,
            self.headers@[r as int].height >= self.headers@[start as int].height,
            self.headers@[r as int].height == self.headers@[start as int].height ==> r == start,
            self.headers@[r as int].height > self.headers@[start as int].height ==> forall|i: int|
                0 <= i < self.headers@.len() && !self.invalid@[i] && self.headers@[i].height
                    == self.headers@[r as int].height ==> r <= i,
    {
        let n = self.headers.len();
        let mut best: usize = start;
        let mut i: usize = 0;
        while i < n
            invariant
                store_wf(self.headers@, self.parents@, self.invalid@),
                n == self.headers@.len(),
                i <= n,
                start < n,
                !self.invalid@[start as int],
                best < n,
                !self.invalid@[best as int],
                forall|j: int| 0 <= j < i && !self.invalid@[j]
                    ==> #[trigger] self.headers@[j].height <= self.headers@[best as int].height,
                self.headers@[best as int].height >= self.headers@[start as int].height,
                self.headers@[best as int].height == self.headers@[start as int].height ==> best == start,
                self.headers@[best as int].height > self.headers@[start as int].height ==> forall|j: int|
                    0 <= j < i && !self.invalid@[j] && self.headers@[j].height
                        == self.headers@[best as int].height ==> best <= j,
                self.headers@[best as int].height > self.headers@[start as int].height ==> best < i,
            decreases n - i,
        {
            let best_header = self.headers[best];
            let header = self.headers[i];
            if !self.invalid[i] && fork_choice(&tip_exec(&best_header), true, &tip_exec(&header)) {
                best = i;
            }
            i += 1;
        }
        best
    }

    /// Marks `block_hash` and its descendants invalid. Where the block was in
    /// the height index, the head becomes the fork choice over the blocks
    /// that stay valid, starting from the challenged block's parent.
    pub fn mark_block_as_challenged(&mut self, block_hash: &CryptoHash, challenger_hash: &CryptoHash) -> (r: Result<(), ChainError>)
        requires
            old(self).wf(),
        ensures
            final(self).wf(),
            old(self).challenge_check(*block_hash, *challenger_hash) matches Some(k)
                ==> r == Err::<(), ChainError>(ChainError { kind: k }) && *final(self) == *old(self),
            old(self).challenge_check(*block_hash, *challenger_hash) is None ==> r == Ok::<(), ChainError>(())
                && challenge_applied(*old(self), *final(self), *block_hash),
            forall|h: CryptoHash| old(self).invalid_hash(h) ==> #[trigger] final(self).invalid_hash(h),
    {
        if *block_hash == *challenger_hash {
            return Err(ChainError::new(ErrorKind::Unfit(UnfitReason::SelfChallenge)));
        }
        let t = match self.find(*block_hash) {
            None => {
                return Err(ChainError::new(ErrorKind::NotFound));
            },
            Some(t) => t,
        };
        let ht = self.headers[t].height;
        if ht == 0 {
            return Err(ChainError::new(ErrorKind::Unfit(UnfitReason::GenesisChallenge)));
        }
        let ghost hs = self.headers@;
        let ghost ps = self.parents@;
        let ghost inv = self.invalid@;
        let ghost c0 = self.canonical@;
        let ghost head = c0[c0.len() - 1] as int;
        proof {
            assert(t > 0) by {
                lemma_anc(hs, ps, inv, t as int, 0);
            }
            if ht < c0.len() {
                lemma_anc(hs, ps, inv, head, ht as int);
                assert(self.canonical_at(ht as int) == Some(*block_hash) <==> c0[ht as int] == t);
            }
        }
        let on_index = ht < self.canonical.len() as u64 && self.canonical[ht as usize] == t;
        self.invalidate_from(t);
        if on_index {
            let parent = self.canonical[(ht - 1) as usize];
            proof {
                lemma_anc_trans(hs, ps, inv, head, ht as int, ht - 1);
                lemma_anc(hs, ps, inv, head, ht - 1);
                assert(anc(hs, ps, t as int, ht - 1) == anc(hs, ps, ps[t as int] as int, ht - 1));
                assert(parent == ps[t as int]);
                assert(!desc(hs, ps, parent as int, t as int));
            }
            let best = self.best_candidate(parent);
            self.set_head(best);
            proof {
                let c = self.canonical@;
                assert(c[c.len() - 1] == best);
                assert forall|i: int| 0 <= i < hs.len() && !self.invalid@[i] implies #[trigger] hs[i].height < c.len() by {}
            }
        } else {
            proof {
                if desc(hs, ps, head, t as int) {
                    lemma_anc(hs, ps, inv, head, ht as int);
                    assert(c0[ht as int] == t);
                }
            }
        }
        proof {
            assert(self.bodies_spec() =~= old(self).bodies_spec());
            assert forall|h: CryptoHash| old(self).invalid_hash(h) implies #[trigger] self.invalid_hash(h) by {
                let k = old(self).index_of(h);
                assert(self.headers_spec()[k].hash == h);
            }
        }
        Ok(())
    }

    /// The checks that a block or header passes before it is stored; on
    /// success, the index of its parent.
    fn check_block(&self, b: &BlockHeader) -> (r: Result<usize, ChainError>)
        requires
            self.wf(),
        ensures
            self.block_check(*b) matches Some(k) ==> r == Err::<usize, ChainError>(ChainError { kind: k }),
            self.block_check(*b) is None ==> (r matches Ok(p) && p == self.index_of(b.prev_hash)
                && p < self.headers_spec().len()),
    {
        let p = match self.find(b.prev_hash) {
            None => {
                return Err(ChainError::new(ErrorKind::Unfit(UnfitReason::UnknownParent)));
            },
            Some(p) => p,
        };
        if b.height == 0 || b.height - 1 != self.headers[p].height {
            return Err(ChainError::new(ErrorKind::Unfit(UnfitReason::WrongHeight)));
        }
        match self.find(b.hash) {
            Some(i) => {
                if self.headers[i] == *b {
                    return Err(ChainError::new(ErrorKind::Unfit(UnfitReason::AlreadyKnown)));
                } else {
                    return Err(ChainError::new(ErrorKind::StoreError));
                }
            },
            None => {},
        }
        if self.invalid[p] {
            return Err(ChainError::new(ErrorKind::ChallengedBlockOnChain));
        }
        Ok(p)
    }

    /// A valid stored header by the same producer at the same height as
    /// `header`, with another hash: the first such one in arrival order.
    pub fn find_equivocation(&self, header: &BlockHeader) -> (r: Option<ChallengeEvidence>)
        requires
            self.wf(),
        ensures
            r is None <==> !exists|i: int| #[trigger] self.equivocates(i, *header),
            r matches Some(e) ==> e.new_hash == header.hash && exists|i: int| #[trigger] self.equivocates(i, *header)
                && self.headers_spec()[i].hash == e.known_hash
                && forall|j: int| 0 <= j < i ==> !#[trigger] self.equivocates(j, *header),
    {
        let mut i: usize = 0;
        while i < self.headers.len()
            invariant
                self.wf(),
                i <= self.headers@.len(),
                forall|j: int| 0 <= j < i ==> !#[trigger] self.equivocates(j, *header),
            decreases self.headers@.len() - i,
        {
            let h = self.headers[i];
            if !self.invalid[i] && h.height == header.height && h.signer == header.signer && h.hash != header.hash {
                assert(self.equivocates(i as int, *header));
                return Some(ChallengeEvidence { known_hash: h.hash, new_hash: header.hash });
            }
            i += 1;
        }
        proof {
            assert forall|j: int| !#[trigger] self.equivocates(j, *header) by {
                if 0 <= j < self.headers@.len() {
                }
            }
        }
        None
    }

    /// Checks a header on its own, without storing anything. Where another
    /// valid header of the same producer stands at the same height,
    /// `on_challenge` receives the pair as evidence.
    pub fn process_block_header<F: FnOnce(ChallengeEvidence)>(&self, header: &BlockHeader, on_challenge: F) -> (r: Result<(), ChainError>)
        requires
            self.wf(),
            forall|e: ChallengeEvidence| on_challenge.requires((e,)),
        ensures
            self.block_check(*header) matches Some(k) ==> r == Err::<(), ChainError>(ChainError { kind: k }),
            self.block_check(*header) is None ==> r == Ok::<(), ChainError>(()),
    {
        match self.check_block(header) {
            Err(e) => Err(e),
            Ok(_) => {
                match self.find_equivocation(header) {
                    Some(e) => on_challenge(e),
                    None => {},
                }
                Ok(())
            },
        }
    }

    pub fn head(&self) -> (r: Tip)
        requires
            self.wf(),
        ensures
            r == self.head_spec(),
    {
        let head = self.canonical[self.canonical.len() - 1];
        tip_exec(&self.headers[head])
    }

    pub fn head_header(&self) -> (r: Option<BlockHeader>)
        requires
            self.wf(),
        ensures
            r == Some(self.headers_spec()[self.head_index()]),
            self.head_spec() == tip_of(self.headers_spec()[self.head_index()]),
    {
        let head = self.canonical[self.canonical.len() - 1];
        Some(self.headers[head])
    }

    pub fn get_header(&self, hash: &CryptoHash) -> (r: Option<BlockHeader>)
        requires
            self.wf(),
        ensures
            r is None <==> !self.known(*hash),
            r matches Some(h) ==> h == self.header_of(*hash),
    {
        match self.find(*hash) {
            Some(i) => Some(self.headers[i]),
            None => None,
        }
    }

    pub fn get_block(&self, hash: &CryptoHash) -> (r: Option<Block>)
        requires
            self.wf(),
        ensures
            r is None <==> !self.known(*hash),
            r matches Some(b) ==> b.header == self.header_of(*hash)
                && b.body@ == self.bodies_spec()[self.index_of(*hash)],
    {
        match self.find(*hash) {
            Some(i) => {
                let body = self.bodies[i].clone();
                assert(body@ =~= self.bodies@[i as int]@);
                Some(Block { header: self.headers[i], body })
            },
            None => None,
        }
    }

    /// The hash that the height index holds at `height`.
    pub fn get_canonical(&self, height: u64) -> (r: Option<CryptoHash>)
        requires
            self.wf(),
        ensures
            r == self.canonical_at(height as int),
    {
        if height < self.canonical.len() as u64 {
            proof {
                lemma_anc(self.headers@, self.parents@, self.invalid@, self.head_index(), height as int);
            }
            Some(self.headers[self.canonical[height as usize]].hash)
        } else {
            None
        }
    }

    /// The header that the height index holds at `height`.
    pub fn get_header_by_height(&self, height: u64) -> (r: Result<BlockHeader, ChainError>)
        requires
            self.wf(),
        ensures
            self.canonical_at(height as int) matches Some(h) ==> r == Ok::<BlockHeader, ChainError>(self.header_of(h)),
            self.canonical_at(height as int) is None ==> r == Err::<BlockHeader, ChainError>(ChainError { kind: ErrorKind::NotFound }),
    {
        if height < self.canonical.len() as u64 {
            let i = self.canonical[height as usize];
            proof {
                lemma_anc(self.headers@, self.parents@, self.invalid@, self.head_index(), height as int);
                let hash = self.headers@[i as int].hash;
                assert(self.headers_spec()[i as int].hash == hash);
                assert(self.index_of(hash) == i);
            }
            Ok(self.headers[i])
        } else {
            Err(ChainError::new(ErrorKind::NotFound))
        }
    }

    pub fn is_invalid(&self, hash: &CryptoHash) -> (r: bool)
        requires
            self.wf(),
        ensures
            r == self.invalid_hash(*hash),
    {
        match self.find(*hash) {
            Some(i) => self.invalid[i],
            None => false,
        }
    }

    /// Accepts a block whose parent is known and valid. The block is stored
    /// in every case; it becomes the head when it is higher than the head.
    pub fn process_block(&mut self, block: Block) -> (r: Result<Option<Tip>, ChainError>)
        requires
            old(self).wf(),
        ensures
            final(self).wf(),
            old(self).block_check(block.header) matches Some(k) ==> r == Err::<Option<Tip>, ChainError>(ChainError { kind: k })
                && *final(self) == *old(self),
            old(self).block_check(block.header) is None ==> {
                &&& final(self).headers_spec() == old(self).headers_spec().push(block.header)
                &&& final(self).bodies_spec() == old(self).bodies_spec().push(block.body@)
                &&& final(self).invalid_spec() == old(self).invalid_spec().push(false)
                &&& (block.header.height > old(self).head_spec().height ==> {
                    &&& r == Ok::<Option<Tip>, ChainError>(Some(tip_of(block.header)))
                    &&& final(self).head_spec() == tip_of(block.header)
                })
                &&& (block.header.height <= old(self).head_spec().height ==> {
                    &&& r == Ok::<Option<Tip>, ChainError>(None)
                    &&& forall|h: int| #[trigger] final(self).canonical_at(h) == old(self).canonical_at(h)
                })
            },
            forall|h: CryptoHash| old(self).invalid_hash(h) ==> #[trigger] final(self).invalid_hash(h),
    {
        let b = block.header;
        let p = match self.check_block(&b) {
            Err(e) => {
                return Err(e);
            },
            Ok(p) => p,
        };
        let ghost hs = self.headers@;
        let ghost ps = self.parents@;
        let ghost inv = self.invalid@;
        let ghost c0 = self.canonical@;
        let ghost bs = self.bodies_spec();
        let n = self.headers.len();
        let head = self.canonical[self.canonical.len() - 1];
        let head_tip = Tip {
            last_block_hash: self.headers[head].hash,
            height: self.headers[head].height,
            prev_block_hash: self.headers[head].prev_hash,
        };
        let new_tip = Tip { last_block_hash: b.hash, height: b.height, prev_block_hash: b.prev_hash };
        self.headers.push(b);
        self.bodies.push(block.body);
        self.parents.push(p);
        self.invalid.push(false);
        proof {
            let hs2 = self.headers@;
            let ps2 = self.parents@;
            assert(hs2.subrange(0, hs.len() as int) =~= hs);
            assert(ps2.subrange(0, ps.len() as int) =~= ps);
            assert(self.bodies_spec() =~= bs.push(block.body@));
            assert forall|i: int, j: int| 0 <= i < hs2.len() && 0 <= j < hs2.len() && i != j
                implies #[trigger] hs2[i].hash != #[trigger] hs2[j].hash by {
                if i == n as int {
                    assert(hs[j].hash != b.hash);
                } else if j == n as int {
                    assert(hs[i].hash != b.hash);
                }
            }
            assert(store_wf(hs2, ps2, self.invalid@));
            assert forall|h: int| 0 <= h < c0.len() implies #[trigger] c0[h] == anc(hs2, ps2, c0[c0.len() - 1] as int, h) by {
                lemma_anc_frame(hs, ps, hs2, ps2, c0[c0.len() - 1] as int, h);
            }
            assert(index_shape(hs2, ps2, c0));
            assert forall|h: CryptoHash| old(self).invalid_hash(h) implies #[trigger] self.invalid_hash(h) by {
                let k = old(self).index_of(h);
                assert(self.headers_spec()[k].hash == h);
                assert(self.index_of(h) == k);
            }
        }
        if fork_choice(&head_tip, true, &new_tip) {
            self.set_head(n);
            proof {
                let c = self.canonical@;
                assert(c[c.len() - 1] == n);
                assert(self.headers@[n as int] == b);
                assert forall|h: CryptoHash| old(self).invalid_hash(h) implies #[trigger] self.invalid_hash(h) by {
                    let k = old(self).index_of(h);
                    assert(self.headers_spec()[k].hash == h);
                    assert(self.index_of(h) == k);
                }
            }
            Ok(Some(new_tip))
        } else {
            proof {
                assert forall|h: int| #[trigger] self.canonical_at(h) == old(self).canonical_at(h) by {
                    if 0 <= h < c0.len() {
                        lemma_anc(hs, ps, inv, c0[c0.len() - 1] as int, h);
                        assert(self.headers@[c0[h] as int] == hs[c0[h] as int]);
                    }
                }
            }
            Ok(None)
        }
    }
}

proof fn lemma_index_of(chain: &Chain, i: int)
    requires
        chain.wf(),
        0 <= i < chain.headers_spec().len(),
    ensures
        chain.known(chain.headers_spec()[i].hash),
        chain.index_of(chain.headers_spec()[i].hash) == i,
{
    let hash = chain.headers_spec()[i].hash;
    assert(chain.headers_spec()[i].hash == hash);
}

/// Entry `k` of the height index is stored at height `k`, and for `k > 0`
/// its `prev_hash` is entry `k - 1`.
proof fn lemma_index_link(chain: &Chain, k: int)
    requires
        chain.wf(),
        0 <= k < chain.canonical_spec().len(),
    ensures
        chain.canonical_at(k) matches Some(hash) && chain.known(hash) && chain.header_of(hash).height == k
            && (k > 0 ==> chain.canonical_at(k - 1) == Some(chain.header_of(hash).prev_hash)),
{
    let hs = chain.headers@;
    let ps = chain.parents@;
    let inv = chain.invalid@;
    let head = chain.head_index();
    lemma_anc(hs, ps, inv, head, k);
    lemma_index_of(chain, chain.canonical@[k] as int);
    if k > 0 {
        let ck = chain.canonical@[k] as int;
        lemma_anc_trans(hs, ps, inv, head, k, k - 1);
        lemma_anc(hs, ps, inv, head, k - 1);
        assert(ps[ck] < ck);
        assert(anc(hs, ps, ck, k - 1) == anc(hs, ps, ps[ck] as int, k - 1));
    }
}

/// Height-index soundness: the entry at height `h` names a stored header of
/// height `h`, reached from the head by following `prev_hash` once per
/// height between them.
pub proof fn lemma_height_index_sound(chain: &Chain, h: int)
    requires
        chain.wf(),
        chain.canonical_at(h) is Some,
    ensures
        chain.canonical_at(h) matches Some(hash) && chain.known(hash) && chain.header_of(hash).height == h
            && h <= chain.head_spec().height
            && chain.walk_back(chain.head_spec().last_block_hash, (chain.head_spec().height - h) as nat) == hash,
        chain.canonical_at(chain.head_spec().height as int) == Some(chain.head_spec().last_block_hash),
{
    let top = chain.canonical@.len() - 1;
    lemma_index_link(chain, top);
    lemma_index_link(chain, h);
    lemma_walk_index(chain, top, h);
}

proof fn lemma_walk_index(chain: &Chain, k: int, h: int)
    requires
        chain.wf(),
        0 <= h <= k < chain.canonical_spec().len(),
    ensures
        chain.walk_back(chain.canonical_at(k)->0, (k - h) as nat) == chain.canonical_at(h)->0,
    decreases k - h,
{
    lemma_index_link(chain, k);
    if k > h {
        lemma_walk_index(chain, k - 1, h);
        assert((k - h - 1) as nat == ((k - h) as nat - 1) as nat);
    }
}

/// Resubmission is rejected: once a block has been accepted, the same
/// header meets `Unfit` when it is submitted again.
pub proof fn lemma_resubmission_unfit(pre: &Chain, post: &Chain, b: BlockHeader)
    requires
        pre.wf(),
        post.wf(),
        pre.block_check(b) is None,
        post.headers_spec() == pre.headers_spec().push(b),
    ensures
        post.block_check(b) == Some(ErrorKind::Unfit(UnfitReason::AlreadyKnown)),
{
    let n = pre.headers_spec().len() as int;
    let p = pre.index_of(b.prev_hash);
    lemma_index_of(post, n);
    lemma_index_of(post, p);
}

/// Challenging the head, where one other valid block stands at the head's
/// height, makes that block the head.
pub proof fn lemma_challenge_of_head(pre: Chain, post: Chain, competitor: CryptoHash)
    requires
        pre.wf(),
        post.wf(),
        challenge_applied(pre, post, pre.head_spec().last_block_hash),
        pre.known(competitor),
        !pre.invalid_hash(competitor),
        competitor != pre.head_spec().last_block_hash,
        pre.header_of(competitor).height == pre.head_spec().height,
        forall|i: int| #[trigger] pre.valid_at(i) && pre.headers_spec()[i].height == pre.head_spec().height
            ==> i == pre.head_index() || i == pre.index_of(competitor),
    ensures
        post.head_spec().last_block_hash == competitor,
{
    let head = pre.head_index();
    let hh = pre.head_spec().height as int;
    let c = pre.index_of(competitor);
    lemma_index_of(&pre, head);
    lemma_index_link(&pre, hh);
    let hs = pre.headers@;
    let ps = pre.parents@;
    assert(anc(hs, ps, c, hh) == c);
    assert(post.valid_at(c));
    let ph = post.head_index();
    assert(post.valid_at(ph));
    assert(pre.valid_at(ph));
}

fn tip_exec(h: &BlockHeader) -> (r: Tip)
    ensures
        r == tip_of(*h),
{
    Tip { last_block_hash: h.hash, height: h.height, prev_block_hash: h.prev_hash }
}

} // verus!
