//! A named backend group: its peer set, per-peer health, and peer
//! selection under a round-robin or consistent-hash strategy. Selection
//! is a pure in-memory computation; health is written only by the owner's
//! background task through `set_healthy`.

use vstd::prelude::*;
use crate::errors::u64_to_dec;
use crate::errors::spec_dec_str;
use crate::util::concat_str;

verus! {

/// The load-balancing strategy of one upstream.
#[derive(Clone, Copy, PartialEq, Eq, Structural, Debug)]
pub enum Strategy {
    RoundRobin,
    ConsistentHash,
}

/// The configured form of one upstream: its peer addresses and strategy.
pub struct UpstreamConf {
    pub addrs: Vec<String>,
    pub strategy: Strategy,
}

/// FNV-1a offset basis.
pub const FNV_OFFSET: u64 = 0xcbf2_9ce4_8422_2325;

/// FNV-1a prime.
pub const FNV_PRIME: u64 = 0x0000_0100_0000_01b3;

/// Ring points placed for each peer.
pub const RING_POINTS: usize = 4;

/// The FNV-1a hash of a character sequence.
pub open spec fn spec_fnv1a(s: Seq<char>) -> u64
    decreases s.len(),
{
    if s.len() == 0 {
        FNV_OFFSET as u64
    } else {
        vstd::wrapping::u64_specs::wrapping_mul(
            spec_fnv1a(s.drop_last()) ^ (s.last() as u64),
            FNV_PRIME as u64,
        )
    }
}

/// Hashes a request key.
pub fn fnv1a(s: &str) -> (r: u64)
    ensures
        r == spec_fnv1a(s@),
{
    let len = s.unicode_len();
    let mut h: u64 = FNV_OFFSET;
    let mut i: usize = 0;
    proof {
        assert(s@.take(0) =~= Seq::<char>::empty());
    }
    while i < len
        invariant
            i <= len == s@.len(),
            h == spec_fnv1a(s@.take(i as int)),
        decreases len - i,
    {
        let c = s.get_char(i);
        h = (h ^ (c as u64)).wrapping_mul(FNV_PRIME);
        i += 1;
        proof {
            assert(s@.take(i as int).drop_last() =~= s@.take(i - 1));
            assert(s@.take(i as int).last() == s@[i - 1]);
        }
    }
    proof {
        assert(s@.take(len as int) =~= s@);
    }
    h
}

/// The ring point at index `i`: peer `i / RING_POINTS` hashed together
/// with the point number.
pub open spec fn spec_ring_point(peers: Seq<String>, i: int) -> (u64, usize) {
    (
        spec_fnv1a(peers[i / (RING_POINTS as int)]@ + "#"@ + spec_dec_str((i % (RING_POINTS as int)) as nat)),
        (i / (RING_POINTS as int)) as usize,
    )
}

/// The hash ring of a peer set: `RING_POINTS` points per peer.
pub open spec fn spec_build_ring(peers: Seq<String>) -> Seq<(u64, usize)> {
    Seq::new(peers.len() * RING_POINTS as nat, |i: int| spec_ring_point(peers, i))
}

/// The clockwise distance from `h` to `x` on the ring.
pub open spec fn spec_dist(x: u64, h: u64) -> int {
    if x - h < 0 {
        x - h + 0x1_0000_0000_0000_0000
    } else {
        x - h
    }
}

/// The ring point serving hash `h`: among points with a healthy owner,
/// the one at the smallest clockwise distance from `h`, the earliest on
/// the ring when tied; `None` when no owner is healthy.
pub open spec fn spec_ring_select(
    ring: Seq<(u64, usize)>,
    healthy: Seq<bool>,
    h: u64,
) -> Option<(u64, usize)>
    decreases ring.len(),
{
    if ring.len() == 0 {
        None
    } else {
        let last = ring.last();
        let rest = spec_ring_select(ring.drop_last(), healthy, h);
        if 0 <= last.1 < healthy.len() && healthy[last.1 as int] {
            match rest {
                None => Some(last),
                Some(b) => if spec_dist(last.0, h) < spec_dist(b.0, h) {
                    Some(last)
                } else {
                    Some(b)
                },
            }
        } else {
            rest
        }
    }
}

/// The first healthy peer at or after `start`, scanning the peer indices
/// cyclically from offset `k`; `None` when no peer is healthy.
pub open spec fn spec_rr_first(healthy: Seq<bool>, start: int, k: int) -> Option<int>
    decreases healthy.len() - k,
    when 0 <= k <= healthy.len()
{
    if k >= healthy.len() {
        None
    } else {
        let idx = (start + k) % (healthy.len() as int);
        if healthy[idx] {
            Some(idx)
        } else {
            spec_rr_first(healthy, start, k + 1)
        }
    }
}

/// One backend group. Shared by every routing rule that references it;
/// request handling reads it, only its own background task writes health.
pub struct Upstream {
    pub name: String,
    pub peers: Vec<String>,
    pub healthy: Vec<bool>,
    pub strategy: Strategy,
    pub cursor: usize,
    pub ring: Vec<(u64, usize)>,
}

impl Upstream {
    /// Structural soundness: at least one peer, one health flag per peer,
    /// the round-robin cursor in range, the ring as built, and a peer
    /// count small enough for index arithmetic.
    pub open spec fn well_formed(self) -> bool {
        &&& self.peers@.len() > 0
        &&& self.peers@.len() <= usize::MAX / 8
        &&& self.healthy@.len() == self.peers@.len()
        &&& self.cursor < self.peers@.len()
        &&& self.ring@ == spec_build_ring(self.peers@)
    }

    /// Builds an upstream from its configuration. A group without peers
    /// is a construction error.
    pub fn new(name: &str, conf: UpstreamConf) -> (r: Result<Upstream, String>)
        requires
            conf.addrs@.len() <= usize::MAX / 8,
        ensures
            match r {
                Ok(u) => conf.addrs@.len() > 0 && u.well_formed() && u.name@ == name@ && u.peers
                    == conf.addrs && u.strategy == conf.strategy && u.cursor == 0 && forall|i: int|
                    0 <= i < u.healthy@.len() ==> u.healthy@[i],
                Err(_) => conf.addrs@.len() == 0,
            },
    {
        let UpstreamConf { addrs, strategy } = conf;
        if addrs.len() == 0 {
            return Err(String::from_str("upstream has no peer address"));
        }
        let n = addrs.len();
        let mut healthy: Vec<bool> = Vec::new();
        let mut i: usize = 0;
        while i < n
            invariant
                i <= n,
                healthy@.len() == i,
                forall|j: int| 0 <= j < i ==> healthy@[j],
            decreases n - i,
        {
            healthy.push(true);
            i += 1;
        }
        let mut ring: Vec<(u64, usize)> = Vec::new();
        let mut p: usize = 0;
        while p < n
            invariant
                p <= n == addrs@.len(),
                n <= usize::MAX / 8,
                ring@.len() == p * RING_POINTS,
                forall|k: int| 0 <= k < ring@.len() ==> ring@[k] == spec_ring_point(addrs@, k),
            decreases n - p,
        {
            let base = concat_str(addrs[p].as_str(), "#");
            let mut v: usize = 0;
            while v < RING_POINTS
                invariant
                    v <= RING_POINTS,
                    p < n == addrs@.len(),
                    n <= usize::MAX / 8,
                    base@ == addrs@[p as int]@ + "#"@,
                    ring@.len() == p * RING_POINTS + v,
                    forall|k: int| 0 <= k < ring@.len() ==> ring@[k] == spec_ring_point(addrs@, k),
                decreases RING_POINTS - v,
            {
                let mut key = String::from_str(base.as_str());
                let num = u64_to_dec(v as u64);
                key.append(num.as_str());
                let h = fnv1a(key.as_str());
                let ghost k = ring@.len() as int;
                ring.push((h, p));
                v += 1;
                proof {
                    assert(k == p * (RING_POINTS as int) + (v - 1)) by (nonlinear_arith)
                        requires
                            k == p * RING_POINTS + v - 1,
                    ;
                    assert(k / (RING_POINTS as int) == p as int && k % (RING_POINTS as int) == v
                        - 1) by (nonlinear_arith)
                        requires
                            k == p * (RING_POINTS as int) + (v - 1),
                            0 <= v - 1 < (RING_POINTS as int),
                            p >= 0,
                    ;
                    assert(ring@[k] == spec_ring_point(addrs@, k));
                }
            }
            p += 1;
        }
        proof {
            assert(ring@ =~= spec_build_ring(addrs@));
        }
        Ok(
            Upstream {
                name: String::from_str(name),
                peers: addrs,
                healthy,
                strategy,
                cursor: 0,
                ring,
            },
        )
    }

    /// Marks one peer healthy or unhealthy. Only the group's background
    /// health task calls this.
    pub fn set_healthy(&mut self, i: usize, ok: bool)
        requires
            i < old(self).healthy@.len(),
        ensures
            final(self).healthy@ == old(self).healthy@.update(i as int, ok),
            final(self).peers == old(self).peers,
            final(self).name == old(self).name,
            final(self).strategy == old(self).strategy,
            final(self).cursor == old(self).cursor,
            final(self).ring == old(self).ring,
    {
        self.healthy.set(i, ok);
    }

    /// Selects the next healthy peer in cyclic order, advancing the
    /// shared cursor past it; `None` when no peer is healthy, leaving the
    /// cursor alone.
    pub fn select_round_robin(&mut self) -> (r: Option<usize>)
        requires
            old(self).well_formed(),
        ensures
            final(self).well_formed(),
            final(self).peers == old(self).peers,
            final(self).healthy == old(self).healthy,
            final(self).name == old(self).name,
            final(self).strategy == old(self).strategy,
            final(self).ring == old(self).ring,
            match spec_rr_first(old(self).healthy@, old(self).cursor as int, 0) {
                Some(idx) => r == Some(idx as usize) && final(self).cursor == (idx + 1) % (
                old(self).peers@.len() as int),
                None => r is None && final(self).cursor == old(self).cursor,
            },
    {
        let n = self.peers.len();
        let c = self.cursor;
        let mut k: usize = 0;
        while k < n
            invariant
                *self == *old(self),
                old(self).well_formed(),
                n == self.peers@.len(),
                n == self.healthy@.len(),
                n > 0,
                n <= usize::MAX / 8,
                c == self.cursor < n,
                k <= n,
                spec_rr_first(self.healthy@, c as int, 0) == spec_rr_first(
                    self.healthy@,
                    c as int,
                    k as int,
                ),
            decreases n - k,
        {
            let mut idx = c + k;
            if idx >= n {
                idx = idx - n;
            }
            proof {
                assert((c + k) % (n as int) == idx) by (nonlinear_arith)
                    requires
                        0 <= c < n,
                        0 <= k < n,
                        idx == if c + k >= n {
                            c + k - n
                        } else {
                            c + k
                        },
                ;
            }
            if self.healthy[idx] {
                let mut next = idx + 1;
                if next == n {
                    next = 0;
                }
                proof {
                    assert((idx + 1) % (n as int) == next) by (nonlinear_arith)
                        requires
                            0 <= idx < n,
                            next == if idx + 1 == n {
                                0
                            } else {
                                idx + 1
                            },
                    ;
                }
                self.cursor = next;
                proof {
                    assert(spec_rr_first(old(self).healthy@, c as int, k as int) == Some(
                        idx as int,
                    ));
                }
                return Some(idx);
            }
            k += 1;
        }
        None
    }

    /// Selects the ring point owner closest clockwise from the key's
    /// hash, skipping unhealthy owners; `None` when no peer is healthy.
    pub fn select_consistent(&self, key: &str) -> (r: Option<usize>)
        requires
            self.well_formed(),
        ensures
            match spec_ring_select(self.ring@, self.healthy@, spec_fnv1a(key@)) {
                Some(pt) => r == Some(pt.1),
                None => r is None,
            },
    {
        let h = fnv1a(key);
        let mut best: Option<(u64, usize)> = None;
        let len = self.ring.len();
        let mut i: usize = 0;
        proof {
            assert(self.ring@.take(0) =~= Seq::<(u64, usize)>::empty());
        }
        while i < len
            invariant
                i <= len == self.ring@.len(),
                self.well_formed(),
                h == spec_fnv1a(key@),
                best == spec_ring_select(self.ring@.take(i as int), self.healthy@, h),
            decreases len - i,
        {
            let pt = self.ring[i];
            proof {
                assert(self.ring@.take(i + 1).drop_last() =~= self.ring@.take(i as int));
                assert(self.ring@.take(i + 1).last() == pt);
            }
            let owner_ok = pt.1 < self.healthy.len() && self.healthy[pt.1];
            if owner_ok {
                let take = match best {
                    None => true,
                    Some(b) => pt.0.wrapping_sub(h) < b.0.wrapping_sub(h),
                };
                proof {
                    if let Some(b) = best {
                        assert(pt.0.wrapping_sub(h) == spec_dist(pt.0, h));
                        assert(b.0.wrapping_sub(h) == spec_dist(b.0, h));
                    }
                }
                if take {
                    best = Some(pt);
                }
            }
            i += 1;
        }
        proof {
            assert(self.ring@.take(len as int) =~= self.ring@);
        }
        match best {
            Some(pt) => Some(pt.1),
            None => None,
        }
    }

    /// The address selection returns for this key, if any: the peer at
    /// the cursor's next healthy position under round robin, the ring
    /// owner of the key's hash under consistent hashing.
    pub open spec fn spec_selected_peer(self, key: Seq<char>) -> Option<String> {
        match self.strategy {
            Strategy::RoundRobin => match spec_rr_first(self.healthy@, self.cursor as int, 0) {
                Some(idx) => Some(self.peers@[idx]),
                None => None,
            },
            Strategy::ConsistentHash => match spec_ring_select(
                self.ring@,
                self.healthy@,
                spec_fnv1a(key),
            ) {
                Some(pt) => Some(self.peers@[pt.1 as int]),
                None => None,
            },
        }
    }

    /// The group after one selection: only a successful round-robin
    /// selection moves the cursor, past the peer it chose.
    pub open spec fn spec_after_select(self, key: Seq<char>) -> Upstream {
        match self.strategy {
            Strategy::RoundRobin => match spec_rr_first(self.healthy@, self.cursor as int, 0) {
                Some(idx) => Upstream {
                    cursor: ((idx + 1) % (self.peers@.len() as int)) as usize,
                    ..self
                },
                None => self,
            },
            Strategy::ConsistentHash => self,
        }
    }

    /// Selects a peer for the request and returns its address: the next
    /// one in cyclic order under round robin, the ring owner of the
    /// request key under consistent hashing. `None` when no peer is
    /// healthy; only round robin moves the cursor.
    #[verifier::rlimit(50)]
    pub fn new_http_peer(&mut self, key: &str) -> (r: Option<String>)
        requires
            old(self).well_formed(),
        ensures
            final(self).well_formed(),
            *final(self) == old(self).spec_after_select(key@),
            r == old(self).spec_selected_peer(key@),
    {
        match self.strategy {
            Strategy::RoundRobin => {
                proof {
                    lemma_rr_first_in_range(self.healthy@, self.cursor as int, 0);
                }
                match self.select_round_robin() {
                    Some(idx) => Some(self.peers[idx].clone()),
                    None => None,
                }
            },
            Strategy::ConsistentHash => {
                proof {
                    lemma_ring_select_in_range(self.ring@, self.healthy@, spec_fnv1a(key@));
                }
                match self.select_consistent(key) {
                    Some(idx) => Some(self.peers[idx].clone()),
                    None => None,
                }
            },
        }
    }
}

/// A round-robin selection is a peer index in range.
proof fn lemma_rr_first_in_range(healthy: Seq<bool>, start: int, k: int)
    requires
        0 <= k <= healthy.len(),
    ensures
        match spec_rr_first(healthy, start, k) {
            Some(idx) => 0 <= idx < healthy.len() && healthy[idx],
            None => true,
        },
    decreases healthy.len() - k,
{
    if k < healthy.len() {
        let idx = (start + k) % (healthy.len() as int);
        if !healthy[idx] {
            lemma_rr_first_in_range(healthy, start, k + 1);
        }
    }
}

/// Shrinking the healthy set never shortens the winning distance: a
/// selection under fewer healthy peers was available before, at no
/// smaller distance than the earlier winner's.
proof fn lemma_ring_select_monotone(
    ring: Seq<(u64, usize)>,
    h1: Seq<bool>,
    h2: Seq<bool>,
    h: u64,
)
    requires
        h1.len() == h2.len(),
        forall|i: int| 0 <= i < h2.len() ==> (h2[i] ==> h1[i]),
    ensures
        match spec_ring_select(ring, h2, h) {
            Some(b2) => spec_ring_select(ring, h1, h) matches Some(b1) && spec_dist(b1.0, h)
                <= spec_dist(b2.0, h),
            None => true,
        },
    decreases ring.len(),
{
    if ring.len() > 0 {
        lemma_ring_select_monotone(ring.drop_last(), h1, h2, h);
    }
}

/// The winner survives a health change that keeps its own peer: a key
/// served by a still-healthy peer is served by the same peer after any
/// other peers are lost.
proof fn lemma_ring_select_stable(
    ring: Seq<(u64, usize)>,
    h1: Seq<bool>,
    h2: Seq<bool>,
    h: u64,
    pt: (u64, usize),
)
    requires
        h1.len() == h2.len(),
        forall|i: int| 0 <= i < h2.len() ==> (h2[i] ==> h1[i]),
        spec_ring_select(ring, h1, h) == Some(pt),
        0 <= pt.1 < h2.len(),
        h2[pt.1 as int],
    ensures
        spec_ring_select(ring, h2, h) == Some(pt),
    decreases ring.len(),
{
    let last = ring.last();
    let rest = ring.drop_last();
    lemma_ring_select_monotone(rest, h1, h2, h);
    if 0 <= last.1 < h1.len() && h1[last.1 as int] {
        match spec_ring_select(rest, h1, h) {
            None => {
                // the last point won by default; under h2 the rest is
                // still empty of candidates
                lemma_ring_select_monotone(rest, h1, h2, h);
                assert(spec_ring_select(rest, h2, h) is None) by {
                    if let Some(b2) = spec_ring_select(rest, h2, h) {
                        assert(spec_ring_select(rest, h1, h) is Some);
                    }
                }
            },
            Some(b1) => {
                if spec_dist(last.0, h) < spec_dist(b1.0, h) {
                    // the last point won; any rest winner under h2 is at
                    // least as far as b1
                } else {
                    // the rest's winner won and is pt
                    lemma_ring_select_stable(rest, h1, h2, h, pt);
                }
            },
        }
    } else {
        lemma_ring_select_stable(rest, h1, h2, h, pt);
    }
}

/// Bounded remapping: when one peer is lost, only the keys that peer was
/// serving move; every key served by another peer keeps its peer.
pub proof fn lemma_consistent_remap_bounded(u: Upstream, p: int, key: Seq<char>)
    requires
        0 <= p < u.healthy@.len(),
    ensures
        ({
            let before = spec_ring_select(u.ring@, u.healthy@, spec_fnv1a(key));
            let after = spec_ring_select(
                u.ring@,
                u.healthy@.update(p, false),
                spec_fnv1a(key),
            );
            before matches Some(pt) && pt.1 != p ==> after == before
        }),
{
    let h = spec_fnv1a(key);
    if let Some(pt) = spec_ring_select(u.ring@, u.healthy@, h) {
        if pt.1 != p {
            lemma_ring_select_in_range(u.ring@, u.healthy@, h);
            lemma_ring_select_stable(u.ring@, u.healthy@, u.healthy@.update(p, false), h, pt);
        }
    }
}

/// Consistent-hash stability: while the ring and the health of its
/// owners stand unchanged, the same request key selects the same peer on
/// every call, and a selection never disturbs the group.
pub proof fn lemma_consistent_stable(u: Upstream, v: Upstream, key: Seq<char>)
    requires
        u.strategy == Strategy::ConsistentHash,
        v.strategy == Strategy::ConsistentHash,
        u.ring == v.ring,
        u.healthy == v.healthy,
        u.peers == v.peers,
    ensures
        u.spec_selected_peer(key) == v.spec_selected_peer(key),
        u.spec_after_select(key) == u,
{
}

/// The cursor after one uncontended selection among `m` healthy peers.
pub open spec fn spec_next_cursor(c: int, m: int) -> int {
    if c + 1 >= m {
        0
    } else {
        c + 1
    }
}

/// With every peer healthy, a selection returns the cursor itself and
/// advances it by one, cyclically.
pub proof fn lemma_rr_all_healthy(healthy: Seq<bool>, c: int)
    requires
        healthy.len() > 0,
        0 <= c < healthy.len(),
        forall|i: int| 0 <= i < healthy.len() ==> healthy[i],
    ensures
        spec_rr_first(healthy, c, 0) == Some(c),
        (c + 1) % (healthy.len() as int) == spec_next_cursor(c, healthy.len() as int),
{
    let m = healthy.len() as int;
    vstd::arithmetic::div_mod::lemma_small_mod(c as nat, m as nat);
    if c + 1 < m {
        vstd::arithmetic::div_mod::lemma_small_mod((c + 1) as nat, m as nat);
    } else {
        vstd::arithmetic::div_mod::lemma_mod_self_0(m);
    }
}

/// How many of `n` consecutive uncontended selections among `m` healthy
/// peers, starting at cursor `c`, fall on peer `j`.
pub open spec fn spec_hits(c: int, m: int, n: nat, j: int) -> nat
    decreases n,
{
    if n == 0 {
        0nat
    } else {
        (if c == j {
            1nat
        } else {
            0nat
        }) + spec_hits(spec_next_cursor(c, m), m, (n - 1) as nat, j)
    }
}

/// The cursor after `n` uncontended selections.
pub open spec fn spec_cursor_after(c: int, m: int, n: nat) -> int
    decreases n,
{
    if n == 0 {
        c
    } else {
        spec_cursor_after(spec_next_cursor(c, m), m, (n - 1) as nat)
    }
}

/// The cursor stays in range.
proof fn lemma_cursor_after_range(c: int, m: int, n: nat)
    requires
        0 <= c < m,
    ensures
        0 <= spec_cursor_after(c, m, n) < m,
    decreases n,
{
    if n > 0 {
        lemma_cursor_after_range(spec_next_cursor(c, m), m, (n - 1) as nat);
    }
}

/// The cyclic distance from cursor `c` to peer `j`.
spec fn spec_cyc_dist(c: int, j: int, m: int) -> int {
    if j >= c {
        j - c
    } else {
        j - c + m
    }
}

/// In a window of at most `m` selections, peer `j` is hit exactly once
/// when its cyclic distance falls inside the window, else not at all.
proof fn lemma_hits_window(c: int, m: int, k: nat, j: int)
    requires
        0 <= c < m,
        0 <= j < m,
        k <= m,
    ensures
        spec_hits(c, m, k, j) == if spec_cyc_dist(c, j, m) < k {
            1nat
        } else {
            0nat
        },
    decreases k,
{
    if k > 0 {
        let c1 = spec_next_cursor(c, m);
        lemma_hits_window(c1, m, (k - 1) as nat, j);
        if c == j {
            assert(spec_cyc_dist(c1, j, m) >= k - 1);
        }
    }
}

/// Hits over a split run: the first part from `c`, the rest from where
/// the cursor then stands.
proof fn lemma_hits_split(c: int, m: int, n1: nat, n2: nat, j: int)
    ensures
        spec_hits(c, m, n1 + n2, j) == spec_hits(c, m, n1, j) + spec_hits(
            spec_cursor_after(c, m, n1),
            m,
            n2,
            j,
        ),
    decreases n1,
{
    if n1 > 0 {
        lemma_hits_split(spec_next_cursor(c, m), m, (n1 - 1) as nat, n2, j);
        assert(n1 + n2 > 0);
        assert((n1 + n2 - 1) as nat == ((n1 - 1) as nat) + n2);
    }
}

/// Round-robin fairness: over any multiple of `m` consecutive
/// uncontended selections with every peer healthy, each peer is selected
/// exactly the same number of times.
pub proof fn lemma_round_robin_fair(c: int, m: int, q: nat, j: int)
    requires
        0 <= c < m,
        0 <= j < m,
    ensures
        spec_hits(c, m, q * (m as nat), j) == q,
    decreases q,
{
    if q == 0 {
        assert(q * (m as nat) == 0) by (nonlinear_arith)
            requires
                q == 0,
        ;
    } else {
        let n: nat = q * (m as nat);
        assert(n == (m as nat) + (q - 1) * (m as nat)) by (nonlinear_arith)
            requires
                n == q * (m as nat),
                q >= 1,
        ;
        lemma_hits_split(c, m, m as nat, ((q - 1) * (m as nat)) as nat, j);
        lemma_hits_window(c, m, m as nat, j);
        assert(spec_cyc_dist(c, j, m) < m);
        lemma_cursor_after_range(c, m, m as nat);
        lemma_round_robin_fair(spec_cursor_after(c, m, m as nat), m, (q - 1) as nat, j);
    }
}

/// A selected ring point owns a healthy peer index in range.
proof fn lemma_ring_select_in_range(ring: Seq<(u64, usize)>, healthy: Seq<bool>, h: u64)
    ensures
        match spec_ring_select(ring, healthy, h) {
            Some(pt) => pt.1 < healthy.len() && healthy[pt.1 as int],
            None => true,
        },
    decreases ring.len(),
{
    if ring.len() > 0 {
        lemma_ring_select_in_range(ring.drop_last(), healthy, h);
    }
}

} // verus!
