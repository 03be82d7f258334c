//! Greedy longest-match search over a sliding window, fed by a hash-keyed
//! index of positions whose three-byte prefixes landed in the same bucket.
//!
//! The index is a heuristic only: every candidate it hands out is re-checked
//! byte by byte, so a bucket collision can never produce a wrong match, only
//! an extra candidate.  The searcher guarantees that any match it reports
//! really occurs in the input, lies inside the window, and is long enough
//! to encode; that nothing is reported only when no candidate qualifies;
//! and that, unless the sixteen-byte early exit cut the scan short, the
//! reported length is the longest any candidate offers.

use vstd::prelude::*;

verus! {

/// Number of hash buckets in a prefix index.
pub const PREFIX_BUCKETS: usize = 65536;

/// The bucket a three-byte prefix falls into.
pub open spec fn bucket_of(b0: u8, b1: u8, b2: u8) -> int {
    ((b0 as int) * 251 + (b1 as int) * 127 + (b2 as int) * 31) % 65536
}

/// Positions of earlier input, grouped by a hash of the three bytes that
/// start there.  Owned by one compression pass and discarded with it.
pub struct PrefixIndex {
    buckets: Vec<Vec<usize>>,
}

impl PrefixIndex {
    /// The index has its full complement of buckets.
    pub closed spec fn sized(&self) -> bool {
        self.buckets@.len() == 65536
    }

    /// What one bucket currently holds.
    pub closed spec fn bucket(&self, b0: u8, b1: u8, b2: u8) -> Seq<usize> {
        self.buckets@[bucket_of(b0, b1, b2)]@
    }

    /// Every recorded position lies below `bound`.
    pub closed spec fn wf(&self, bound: nat) -> bool {
        &&& self.sized()
        &&& forall|b: int, i: int|
            0 <= b < self.buckets@.len() && 0 <= i < self.buckets@[b]@.len()
                ==> #[trigger] self.buckets@[b]@[i] < bound
    }

    /// A bounded index has its full complement of buckets.
    pub proof fn lemma_wf_sized(&self, bound: nat)
        requires
            self.wf(bound),
        ensures
            self.sized(),
    {
    }

    /// Positions lie below any bound at or above one they satisfy.
    pub proof fn lemma_wf_widen(&self, b1: nat, b2: nat)
        requires
            self.wf(b1),
            b1 <= b2,
        ensures
            self.wf(b2),
    {
    }

    pub fn new() -> (r: Self)
        ensures
            r.wf(0),
    {
        let mut buckets: Vec<Vec<usize>> = Vec::new();
        while buckets.len() < PREFIX_BUCKETS
            invariant
                buckets@.len() <= 65536,
                forall|b: int|
                    0 <= b < buckets@.len() ==> #[trigger] buckets@[b]@.len() == 0,
            decreases PREFIX_BUCKETS - buckets.len(),
        {
            buckets.push(Vec::new());
        }
        PrefixIndex { buckets }
    }

    /// Record that the three bytes starting at `pos` hash to their bucket.
    pub fn insert(&mut self, b0: u8, b1: u8, b2: u8, pos: usize)
        requires
            old(self).wf(pos as nat),
        ensures
            final(self).wf(pos as nat + 1),
    {
        let h = ((b0 as usize) * 251 + (b1 as usize) * 127 + (b2 as usize) * 31) % 65536;
        let bucket = &mut self.buckets[h];
        bucket.push(pos);
    }

    /// The candidate positions recorded for this prefix's bucket, oldest
    /// first.
    pub fn lookup(&self, b0: u8, b1: u8, b2: u8) -> (r: &Vec<usize>)
        requires
            self.sized(),
        ensures
            r@ == self.bucket(b0, b1, b2),
    {
        let h = ((b0 as usize) * 251 + (b1 as usize) * 127 + (b2 as usize) * 31) % 65536;
        &self.buckets[h]
    }

    /// Everything a bucket hands out obeys the index's bound.
    pub proof fn lemma_lookup_bounded(&self, b0: u8, b1: u8, b2: u8, bound: nat)
        requires
            self.wf(bound),
        ensures
            forall|i: int|
                0 <= i < self.bucket(b0, b1, b2).len() ==> #[trigger] self.bucket(
                    b0,
                    b1,
                    b2,
                )[i] < bound,
    {
    }
}

/// How far the text at `prev` and the text at `pos` agree, byte for byte,
/// up to `cap` bytes.
pub open spec fn match_extent(input: Seq<u8>, prev: int, pos: int, cap: nat) -> nat
    recommends
        0 <= prev,
        pos + cap <= input.len(),
    decreases cap,
{
    if cap == 0 {
        0
    } else if input[prev] == input[pos] {
        1 + match_extent(input, prev + 1, pos + 1, (cap - 1) as nat)
    } else {
        0
    }
}

/// A run of `l` equal bytes that either hits the cap or ends at a
/// mismatch is exactly the match extent.
proof fn lemma_match_extent_exact(input: Seq<u8>, prev: int, pos: int, cap: nat, l: nat)
    requires
        l <= cap,
        forall|k: int| 0 <= k < l ==> input[prev + k] == #[trigger] input[pos + k],
        l < cap ==> input[prev + l] != input[pos + l],
    ensures
        match_extent(input, prev, pos, cap) == l,
    decreases l, cap,
{
    if l == 0 {
        if cap > 0 {
            assert(input[prev + 0] != input[pos + 0]);
        }
    } else {
        assert(input[prev + 0] == input[pos + 0]);
        assert forall|k: int| 0 <= k < l - 1 implies input[prev + 1 + k] == #[trigger] input[pos
            + 1 + k] by {
            assert(input[prev + (1 + k)] == input[pos + (1 + k)]);
        }
        lemma_match_extent_exact(input, prev + 1, pos + 1, (cap - 1) as nat, (l - 1) as nat);
    }
}

/// A mismatch at offset `k` caps the match extent at `k`.
proof fn lemma_match_extent_bounded(input: Seq<u8>, prev: int, pos: int, cap: nat, k: nat)
    requires
        k < cap,
        input[prev + k] != input[pos + k],
    ensures
        match_extent(input, prev, pos, cap) <= k,
    decreases k,
{
    if k == 0 {
        assert(input[prev + 0] != input[pos + 0]);
    } else if input[prev] == input[pos] {
        assert(input[prev + 1 + (k - 1)] != input[pos + 1 + (k - 1)]);
        lemma_match_extent_bounded(input, prev + 1, pos + 1, (cap - 1) as nat, (k - 1) as nat);
    }
}

/// The length below which a candidate is not worth a match token: the
/// minimum match length, or the three bytes a token costs.
pub open spec fn match_threshold(min_match: nat) -> nat {
    if min_match >= 3 {
        min_match
    } else {
        3
    }
}

/// Scan the candidate positions, most recent first, for the longest run of
/// bytes at `pos` that repeats an earlier run inside the window, giving up
/// early once a match of sixteen bytes is found.  A candidate whose first
/// three bytes do not repeat the key is a hash collision and is skipped, so
/// every reported match covers at least its own three encoded bytes.
/// Returns `(distance, length)`, with length zero only when no in-window
/// candidate reaches the match threshold; when the early exit did not fire
/// (a result below sixteen), the reported length is the longest extent any
/// in-window candidate offers.
pub fn find_best_match(
    input: &Vec<u8>,
    pos: usize,
    window_begin: usize,
    max_look_ahead: usize,
    min_match: usize,
    candidates: &Vec<usize>,
) -> (r: (usize, usize))
    requires
        input@.len() <= usize::MAX,
        window_begin <= pos < input@.len(),
        pos + max_look_ahead <= input@.len(),
        min_match >= 1,
        max_look_ahead >= 3,
        forall|i: int| 0 <= i < candidates@.len() ==> #[trigger] candidates@[i] < pos,
    ensures
        r.1 != 0 ==> {
            &&& min_match <= r.1 <= max_look_ahead
            &&& r.1 >= 3
            &&& 1 <= r.0 <= pos - window_begin
            &&& forall|k: int|
                0 <= k < r.1 ==> input@[pos - r.0 + k] == #[trigger] input@[pos + k]
        },
        r.1 == 0 ==> forall|i: int|
            0 <= i < candidates@.len() ==> (#[trigger] candidates@[i]) < window_begin
                || match_extent(input@, candidates@[i] as int, pos as int, max_look_ahead as nat)
                < match_threshold(min_match as nat),
        r.1 != 0 && r.1 < 16 ==> forall|i: int|
            0 <= i < candidates@.len() ==> (#[trigger] candidates@[i]) < window_begin
                || match_extent(input@, candidates@[i] as int, pos as int, max_look_ahead as nat)
                <= r.1,
{
    let mut best_len: usize = 0;
    let mut best_dist: usize = 0;
    let mut ci: usize = candidates.len();
    while ci > 0
        invariant
            ci <= candidates@.len(),
            input@.len() <= usize::MAX,
            window_begin <= pos < input@.len(),
            pos + max_look_ahead <= input@.len(),
            min_match >= 1,
            max_look_ahead >= 3,
            forall|i: int| 0 <= i < candidates@.len() ==> #[trigger] candidates@[i] < pos,
            best_len != 0 ==> {
                &&& min_match <= best_len <= max_look_ahead
                &&& best_len >= 3
                &&& 1 <= best_dist <= pos - window_begin
                &&& forall|k: int|
                    0 <= k < best_len ==> input@[pos - best_dist + k] == #[trigger] input@[pos + k]
            },
            forall|i: int|
                ci <= i < candidates@.len() ==> (#[trigger] candidates@[i]) < window_begin
                    || match_extent(
                    input@,
                    candidates@[i] as int,
                    pos as int,
                    max_look_ahead as nat,
                ) < min_match || match_extent(
                    input@,
                    candidates@[i] as int,
                    pos as int,
                    max_look_ahead as nat,
                ) < 3 || match_extent(
                    input@,
                    candidates@[i] as int,
                    pos as int,
                    max_look_ahead as nat,
                ) <= best_len,
        ensures
            best_len != 0 ==> {
                &&& min_match <= best_len <= max_look_ahead
                &&& best_len >= 3
                &&& 1 <= best_dist <= pos - window_begin
                &&& forall|k: int|
                    0 <= k < best_len ==> input@[pos - best_dist + k] == #[trigger] input@[pos + k]
            },
            best_len >= 16 || ci == 0,
            forall|i: int|
                ci <= i < candidates@.len() ==> (#[trigger] candidates@[i]) < window_begin
                    || match_extent(
                    input@,
                    candidates@[i] as int,
                    pos as int,
                    max_look_ahead as nat,
                ) < min_match || match_extent(
                    input@,
                    candidates@[i] as int,
                    pos as int,
                    max_look_ahead as nat,
                ) < 3 || match_extent(
                    input@,
                    candidates@[i] as int,
                    pos as int,
                    max_look_ahead as nat,
                ) <= best_len,
        decreases ci,
    {
        ci = ci - 1;
        let prev = candidates[ci];
        if prev >= window_begin {
            if input[prev] == input[pos] && input[prev + 1] == input[pos + 1] && input[prev + 2]
                == input[pos + 2] {
                let mut match_len: usize = 0;
                while match_len < max_look_ahead && input[prev + match_len] == input[pos
                    + match_len]
                    invariant
                        match_len <= max_look_ahead,
                        prev < pos,
                        input@.len() <= usize::MAX,
                        pos + max_look_ahead <= input@.len(),
                        forall|k: int|
                            0 <= k < match_len ==> input@[prev + k] == #[trigger] input@[pos + k],
                    decreases max_look_ahead - match_len,
                {
                    match_len = match_len + 1;
                }
                proof {
                    lemma_match_extent_exact(
                        input@,
                        prev as int,
                        pos as int,
                        max_look_ahead as nat,
                        match_len as nat,
                    );
                    assert(match_len >= 3) by {
                        if match_len < 3 {
                            assert(input@[prev + match_len] == input@[pos + match_len]);
                        }
                    }
                }
                if match_len >= min_match && match_len > best_len {
                    best_len = match_len;
                    best_dist = pos - prev;
                    if match_len >= 16 {
                        break;
                    }
                } else {
                    proof {
                        // not taken: the extent is below the minimum match
                        // length or no better than what is already held
                        assert(match_extent(input@, prev as int, pos as int, max_look_ahead as nat)
                            < min_match || match_extent(
                            input@,
                            prev as int,
                            pos as int,
                            max_look_ahead as nat,
                        ) <= best_len);
                    }
                }
            } else {
                proof {
                    // hash collision: the three-byte key does not repeat here
                    if input@[prev as int] != input@[pos as int] {
                        lemma_match_extent_bounded(
                            input@,
                            prev as int,
                            pos as int,
                            max_look_ahead as nat,
                            0,
                        );
                    } else if input@[prev + 1] != input@[pos + 1] {
                        lemma_match_extent_bounded(
                            input@,
                            prev as int,
                            pos as int,
                            max_look_ahead as nat,
                            1,
                        );
                    } else {
                        lemma_match_extent_bounded(
                            input@,
                            prev as int,
                            pos as int,
                            max_look_ahead as nat,
                            2,
                        );
                    }
                }
            }
        }
    }
    (best_dist, best_len)
}

} // verus!
