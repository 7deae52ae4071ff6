//! Curation decisions. A curation of search results keeps the items a
//! provider named, in the provider's order, and fails open. A curation by
//! hint reuses what the cache already decided under the same hint, sends
//! the rest to the provider in chunks (each chunk's verdict is written to
//! the cache as soon as it comes), and orders everything kept by score,
//! highest first, the items that a failed chunk left unscored last. The
//! provider calls and the cache are the caller's; here is what is decided
//! between them.
use vstd::prelude::*;
use crate::ai::{ScoredCandidate, views};
use crate::iptv::opt_view;

verus! {

// ----------------------------------------------------------------------
// Curation of search results

/// The positions a curation keeps, in the order the provider gave them:
/// each index that is below `n` and not kept already.
pub open spec fn kept_positions(n: nat, indices: Seq<usize>) -> Seq<usize>
    decreases indices.len(),
{
    if indices.len() == 0 {
        seq![]
    } else {
        let prev = kept_positions(n, indices.drop_last());
        let i = indices.last();
        if i < n && !prev.contains(i) {
            prev.push(i)
        } else {
            prev
        }
    }
}

/// Positions that are distinct and below `n`.
pub open spec fn distinct_below(p: Seq<usize>, n: nat) -> bool {
    &&& forall|k: int| 0 <= k < p.len() ==> #[trigger] p[k] < n
    &&& forall|j: int, k: int| 0 <= j < k < p.len() ==> p[j] != p[k]
}

/// A curation never keeps an item twice nor invents one: the positions it
/// keeps are distinct and in range, and each was named by the provider.
pub proof fn kept_positions_are_distinct(n: nat, indices: Seq<usize>)
    ensures
        distinct_below(kept_positions(n, indices), n),
        forall|k: int| 0 <= k < kept_positions(n, indices).len() ==> indices.contains(#[trigger] kept_positions(n, indices)[k]),
    decreases indices.len(),
{
    if indices.len() > 0 {
        let init = indices.drop_last();
        kept_positions_are_distinct(n, init);
        let prev = kept_positions(n, init);
        assert forall|k: int| 0 <= k < prev.len() implies indices.contains(#[trigger] prev[k]) by {
            let j = choose|j: int| 0 <= j < init.len() && init[j] == prev[k];
            assert(indices[j] == prev[k]);
        }
        assert(indices[indices.len() - 1] == indices.last());
        let i = indices.last();
        if i < n && !prev.contains(i) {
            assert forall|j: int, k: int| 0 <= j < k < prev.push(i).len() implies prev.push(i)[j] != prev.push(i)[k] by {
                if k == prev.len() {
                    assert(prev[j] == prev.push(i)[j]);
                }
            }
        }
    }
}

fn contains_position(v: &Vec<usize>, x: usize) -> (r: bool)
    ensures
        r == v@.contains(x),
{
    let mut i: usize = 0;
    while i < v.len()
        invariant
            i <= v@.len(),
            forall|j: int| 0 <= j < i ==> v@[j] != x,
        decreases v@.len() - i,
    {
        if v[i] == x {
            assert(v@[i as int] == x);
            return true;
        }
        i += 1;
    }
    false
}

/// The positions among `n` items that a curation returning `indices`
/// keeps.
pub fn select_positions(n: usize, indices: &Vec<usize>) -> (r: Vec<usize>)
    ensures
        r@ == kept_positions(n as nat, indices@),
{
    let mut out: Vec<usize> = Vec::new();
    let mut i: usize = 0;
    while i < indices.len()
        invariant
            i <= indices@.len(),
            out@ == kept_positions(n as nat, indices@.take(i as int)),
        decreases indices@.len() - i,
    {
        proof {
            assert(indices@.take(i + 1).drop_last() =~= indices@.take(i as int));
            assert(indices@.take(i + 1).last() == indices@[i as int]);
        }
        let x = indices[i];
        if x < n && !contains_position(&out, x) {
            out.push(x);
        }
        i += 1;
    }
    assert(indices@.take(i as int) =~= indices@);
    out
}

/// The items at `positions`, in that order, moved out of `items`.
pub fn pick<T>(items: Vec<T>, positions: &Vec<usize>) -> (r: Vec<T>)
    requires
        distinct_below(positions@, items@.len() as nat),
    ensures
        r@.len() == positions@.len(),
        forall|k: int| 0 <= k < r@.len() ==> #[trigger] r@[k] == items@[positions@[k] as int],
{
    let ghost orig = items@;
    let n = items.len();
    let mut items = items;
    let mut rev: Vec<Option<T>> = Vec::new();
    while items.len() > 0
        invariant
            rev@.len() + items@.len() == n == orig.len(),
            items@ == orig.take(items@.len() as int),
            forall|k: int| 0 <= k < rev@.len() ==> #[trigger] rev@[k] == Some(orig[n - 1 - k]),
        decreases items@.len(),
    {
        let x = items.pop().unwrap();
        rev.push(Some(x));
        assert(items@ =~= orig.take(items@.len() as int));
    }
    let mut out: Vec<T> = Vec::new();
    let mut i: usize = 0;
    while i < positions.len()
        invariant
            i <= positions@.len(),
            rev@.len() == n == orig.len(),
            distinct_below(positions@, n as nat),
            out@.len() == i,
            forall|k: int| 0 <= k < i ==> #[trigger] out@[k] == orig[positions@[k] as int],
            forall|k: int|
                0 <= k < n ==> #[trigger] rev@[k] == (if positions@.take(i as int).contains((n - 1 - k) as usize) {
                    None
                } else {
                    Some(orig[n - 1 - k])
                }),
        decreases positions@.len() - i,
    {
        let p = positions[i];
        let j = n - 1 - p;
        proof {
            if positions@.take(i as int).contains(p) {
                let k = choose|k: int| 0 <= k < i && positions@.take(i as int)[k] == p;
                assert(positions@[k] == positions@[i as int]);
            }
            assert(rev@[j as int] == Some(orig[p as int]));
        }
        let ghost old_rev = rev@;
        let slot = rev.remove(j);
        rev.insert(j, None);
        assert(rev@ =~= old_rev.update(j as int, None));
        let x = slot.unwrap();
        out.push(x);
        proof {
            assert forall|k: int| 0 <= k < n implies #[trigger] rev@[k] == (if positions@.take(i + 1).contains(
                (n - 1 - k) as usize,
            ) {
                None
            } else {
                Some(orig[n - 1 - k])
            }) by {
                let x = (n - 1 - k) as usize;
                assert(positions@.take(i + 1) =~= positions@.take(i as int).push(p));
                if positions@.take(i as int).contains(x) {
                    let w = choose|w: int| 0 <= w < i && #[trigger] positions@.take(i as int)[w] == x;
                    assert(positions@.take(i + 1)[w] == x);
                }
                if positions@.take(i + 1).contains(x) && x != p {
                    let w = choose|w: int| 0 <= w < i + 1 && #[trigger] positions@.take(i + 1)[w] == x;
                    assert(w < i);
                    assert(positions@.take(i as int)[w] == x);
                }
                if k == j {
                    assert(positions@.take(i + 1)[i as int] == p);
                } else {
                    assert(x != p);
                }
            }
        }
        i += 1;
    }
    out
}

/// What a curation of search results returns: on the provider's answer,
/// the items it named (see `kept_positions`), in its order; when the
/// provider failed, the items untouched.
pub fn curate_outcome<T>(items: Vec<T>, answer: Result<Vec<usize>, String>) -> (r: Vec<T>)
    ensures
        match answer {
            Ok(indices) => r@ == kept_positions(items@.len() as nat, indices@).map_values(|p: usize| items@[p as int]),
            Err(_) => r@ == items@,
        },
{
    match answer {
        Ok(indices) => {
            let ghost orig = items@;
            let positions = select_positions(items.len(), &indices);
            proof {
                kept_positions_are_distinct(items@.len() as nat, indices@);
            }
            let r = pick(items, &positions);
            assert(r@ =~= kept_positions(orig.len() as nat, indices@).map_values(|p: usize| orig[p as int]));
            r
        },
        Err(_) => items,
    }
}

// ----------------------------------------------------------------------
// Curation by hint

/// What the cache holds for an item of a source.
pub struct CachedEntry {
    pub included: bool,
    pub score: Option<i32>,
    pub hint_used: Option<String>,
}

/// What the cache decides for an item: kept with the cached score,
/// excluded, or to be curated again (not cached, or cached under another
/// hint).
pub enum CacheVerdict {
    Kept(Option<i32>),
    Excluded,
    Stale,
}

pub open spec fn verdict(entry: Option<CachedEntry>, hint: Option<Seq<char>>) -> CacheVerdict {
    match entry {
        Some(e) => if opt_view(e.hint_used) == hint {
            if e.included {
                CacheVerdict::Kept(e.score)
            } else {
                CacheVerdict::Excluded
            }
        } else {
            CacheVerdict::Stale
        },
        None => CacheVerdict::Stale,
    }
}

/// The cache's verdict on an item whose cache row is `entry`, for a
/// curation under `hint`.
pub fn cache_verdict(entry: Option<&CachedEntry>, hint: Option<&str>) -> (r: CacheVerdict)
    ensures
        r == verdict(
            match entry {
                Some(e) => Some(*e),
                None => None,
            },
            match hint {
                Some(h) => Some(h@),
                None => None,
            },
        ),
{
    match entry {
        None => CacheVerdict::Stale,
        Some(e) => {
            let same = match (&e.hint_used, hint) {
                (Some(a), Some(b)) => *a == b.to_owned(),
                (None, None) => true,
                _ => false,
            };
            if same {
                if e.included {
                    CacheVerdict::Kept(e.score)
                } else {
                    CacheVerdict::Excluded
                }
            } else {
                CacheVerdict::Stale
            }
        },
    }
}

/// An item kept for the final order: its position and its score (`None`
/// when its chunk's curation failed).
pub type Scored = (usize, Option<i32>);

/// The items the cache keeps, in item order, with their cached scores.
pub open spec fn cached_pool(v: Seq<CacheVerdict>) -> Seq<Scored>
    decreases v.len(),
{
    if v.len() == 0 {
        seq![]
    } else {
        let prev = cached_pool(v.drop_last());
        match v.last() {
            CacheVerdict::Kept(s) => prev.push(((v.len() - 1) as usize, s)),
            _ => prev,
        }
    }
}

/// The items to curate again, in item order.
pub open spec fn stale_items(v: Seq<CacheVerdict>) -> Seq<usize>
    decreases v.len(),
{
    if v.len() == 0 {
        seq![]
    } else {
        let prev = stale_items(v.drop_last());
        match v.last() {
            CacheVerdict::Stale => prev.push((v.len() - 1) as usize),
            _ => prev,
        }
    }
}

/// Items sent to the provider per call.
pub const CURATION_CHUNK_SIZE: usize = 20;

/// Where the chunk that starts at `done` of `len` stale items ends.
pub open spec fn chunk_end(done: nat, len: nat) -> nat {
    if done + 20 <= len {
        done + 20
    } else {
        len
    }
}

/// The chunk positions a provider's scores keep, with their scores, in
/// the provider's order: each index below `n` not kept already.
pub open spec fn kept_scored(n: nat, scored: Seq<ScoredCandidate>) -> Seq<(usize, i32)>
    decreases scored.len(),
{
    if scored.len() == 0 {
        seq![]
    } else {
        let prev = kept_scored(n, scored.drop_last());
        let c = scored.last();
        if c.index < n && !prev.map_values(|e: (usize, i32)| e.0).contains(c.index) {
            prev.push((c.index, c.score))
        } else {
            prev
        }
    }
}

/// A curation by hint under way: the items kept so far with their
/// scores, the items that need the provider, and how many of those have
/// been sent.
pub struct HintCuration {
    pub pool: Vec<Scored>,
    pub delta: Vec<usize>,
    pub done: usize,
}

/// A curation by hint sends every stale item once, in order, at most
/// `CURATION_CHUNK_SIZE` at a time: while items remain, the next chunk is
/// not empty, holds at most that many, and starts where the sent ones end.
pub proof fn chunks_cover_the_stale_items_once(c: HintCuration)
    requires
        c.wf(),
        c.done < c.delta@.len(),
    ensures
        0 < c.chunk().len() <= CURATION_CHUNK_SIZE,
        c.delta@.subrange(0, c.done as int) + c.chunk() == c.delta@.subrange(
            0,
            c.done + c.chunk().len(),
        ),
{
    assert(c.delta@.subrange(0, c.done as int) + c.chunk() =~= c.delta@.subrange(0, c.done + c.chunk().len()));
}

/// What the cache must record after a chunk was curated: the items kept,
/// with their scores, and the items excluded.
pub struct ChunkVerdict {
    pub included: Vec<(usize, i32)>,
    pub excluded: Vec<usize>,
}

impl HintCuration {
    pub open spec fn wf(&self) -> bool {
        self.done <= self.delta@.len()
    }

    /// The items of the next chunk.
    pub open spec fn chunk(&self) -> Seq<usize> {
        self.delta@.subrange(self.done as int, chunk_end(self.done as nat, self.delta@.len()) as int)
    }

    /// Starts a curation of items on which the cache gave `verdicts`: the
    /// cached inclusions go straight to the pool, the excluded items are
    /// dropped, the stale ones wait for the provider.
    pub fn start(verdicts: &Vec<CacheVerdict>) -> (r: HintCuration)
        ensures
            r.wf(),
            r.done == 0,
            r.pool@ == cached_pool(verdicts@),
            r.delta@ == stale_items(verdicts@),
    {
        let mut pool: Vec<Scored> = Vec::new();
        let mut delta: Vec<usize> = Vec::new();
        let mut i: usize = 0;
        while i < verdicts.len()
            invariant
                i <= verdicts@.len(),
                pool@ == cached_pool(verdicts@.take(i as int)),
                delta@ == stale_items(verdicts@.take(i as int)),
            decreases verdicts@.len() - i,
        {
            proof {
                assert(verdicts@.take(i + 1).drop_last() =~= verdicts@.take(i as int));
                assert(verdicts@.take(i + 1).last() == verdicts@[i as int]);
            }
            match &verdicts[i] {
                CacheVerdict::Kept(s) => {
                    pool.push((i, *s));
                },
                CacheVerdict::Stale => {
                    delta.push(i);
                },
                CacheVerdict::Excluded => {},
            }
            i += 1;
        }
        assert(verdicts@.take(i as int) =~= verdicts@);
        HintCuration { pool, delta, done: 0 }
    }

    /// Whether every stale item has been sent.
    pub fn finished(&self) -> (r: bool)
        requires
            self.wf(),
        ensures
            r == (self.done == self.delta@.len()),
    {
        self.done == self.delta.len()
    }

    /// The items to send in the next call: the next (at most
    /// `CURATION_CHUNK_SIZE`) stale items.
    pub fn next_chunk(&self) -> (r: Vec<usize>)
        requires
            self.wf(),
        ensures
            r@ == self.chunk(),
    {
        let end = if self.delta.len() - self.done >= CURATION_CHUNK_SIZE {
            self.done + CURATION_CHUNK_SIZE
        } else {
            self.delta.len()
        };
        let mut out: Vec<usize> = Vec::new();
        let mut i = self.done;
        while i < end
            invariant
                self.done <= i <= end <= self.delta@.len(),
                end == chunk_end(self.done as nat, self.delta@.len()),
                out@ == self.delta@.subrange(self.done as int, i as int),
            decreases end - i,
        {
            out.push(self.delta[i]);
            i += 1;
            assert(out@ =~= self.delta@.subrange(self.done as int, i as int));
        }
        out
    }

    /// Records the provider's answer on the next chunk: with scores, the
    /// items it kept join the pool with their scores (in its order) and the
    /// verdict to cache is returned; when the call failed, the chunk joins
    /// the pool unscored and nothing is cached.
    pub fn record(&mut self, answer: Option<Vec<ScoredCandidate>>) -> (r: Option<ChunkVerdict>)
        requires
            old(self).wf(),
            old(self).done < old(self).delta@.len(),
        ensures
            final(self).wf(),
            final(self).delta@ == old(self).delta@,
            final(self).done == chunk_end(old(self).done as nat, old(self).delta@.len()),
            match answer {
                None => r is None && final(self).pool@ == old(self).pool@ + old(self).chunk().map_values(
                    |x: usize| (x, None::<i32>),
                ),
                Some(scored) => {
                    let kept = kept_scored(old(self).chunk().len(), scored@);
                    let chunk = old(self).chunk();
                    &&& r is Some
                    &&& r->0.included@ == kept.map_values(|e: (usize, i32)| (chunk[e.0 as int], e.1))
                    &&& final(self).pool@ == old(self).pool@ + kept.map_values(
                        |e: (usize, i32)| (chunk[e.0 as int], Some(e.1)),
                    )
                    &&& r->0.excluded@ == excluded_items(chunk, kept)
                },
            },
    {
        let chunk = self.next_chunk();
        let ghost old_pool = self.pool@;
        assert(chunk@.len() + self.done == chunk_end(self.done as nat, self.delta@.len()));
        assert(self.done + chunk.len() <= self.delta.len());
        let end = self.done + chunk.len();
        match answer {
            None => {
                let mut i: usize = 0;
                while i < chunk.len()
                    invariant
                        i <= chunk@.len(),
                        self.delta@ == old(self).delta@,
                        self.done == old(self).done,
                        self.pool@ == old_pool + chunk@.take(i as int).map_values(|x: usize| (x, None::<i32>)),
                    decreases chunk@.len() - i,
                {
                    self.pool.push((chunk[i], None));
                    i += 1;
                    assert(self.pool@ =~= old_pool + chunk@.take(i as int).map_values(|x: usize| (x, None::<i32>)));
                }
                assert(chunk@.take(i as int) =~= chunk@);
                self.done = end;
                None
            },
            Some(scored) => {
                let n = chunk.len();
                let mut kept: Vec<(usize, i32)> = Vec::new();
                let mut taken: Vec<usize> = Vec::new();
                let mut i: usize = 0;
                while i < scored.len()
                    invariant
                        i <= scored@.len(),
                        self.delta@ == old(self).delta@,
                        self.done == old(self).done,
                        self.pool@ == old_pool,
                        n == chunk@.len(),
                        kept@ == kept_scored(n as nat, scored@.take(i as int)),
                        taken@ == kept@.map_values(|e: (usize, i32)| e.0),
                    decreases scored@.len() - i,
                {
                    proof {
                        assert(scored@.take(i + 1).drop_last() =~= scored@.take(i as int));
                        assert(scored@.take(i + 1).last() == scored@[i as int]);
                    }
                    let c = &scored[i];
                    if c.index < n && !contains_position(&taken, c.index) {
                        kept.push((c.index, c.score));
                        taken.push(c.index);
                        assert(taken@ =~= kept@.map_values(|e: (usize, i32)| e.0));
                    }
                    i += 1;
                }
                assert(scored@.take(i as int) =~= scored@);
                proof {
                    lemma_kept_scored_in_range(n as nat, scored@);
                }
                let mut included: Vec<(usize, i32)> = Vec::new();
                let mut k: usize = 0;
                while k < kept.len()
                    invariant
                        k <= kept@.len(),
                        self.delta@ == old(self).delta@,
                        self.done == old(self).done,
                        n == chunk@.len(),
                        forall|j: int| 0 <= j < kept@.len() ==> #[trigger] kept@[j].0 < n,
                        included@ == kept@.take(k as int).map_values(|e: (usize, i32)| (chunk@[e.0 as int], e.1)),
                        self.pool@ == old_pool + kept@.take(k as int).map_values(
                            |e: (usize, i32)| (chunk@[e.0 as int], Some(e.1)),
                        ),
                    decreases kept@.len() - k,
                {
                    let (p, s) = kept[k];
                    included.push((chunk[p], s));
                    self.pool.push((chunk[p], Some(s)));
                    k += 1;
                    assert(included@ =~= kept@.take(k as int).map_values(|e: (usize, i32)| (chunk@[e.0 as int], e.1)));
                    assert(self.pool@ =~= old_pool + kept@.take(k as int).map_values(
                        |e: (usize, i32)| (chunk@[e.0 as int], Some(e.1)),
                    ));
                }
                assert(kept@.take(k as int) =~= kept@);
                let mut excluded: Vec<usize> = Vec::new();
                let mut j: usize = 0;
                while j < n
                    invariant
                        j <= n == chunk@.len(),
                        self.delta@ == old(self).delta@,
                        self.done == old(self).done,
                        taken@ == kept@.map_values(|e: (usize, i32)| e.0),
                        excluded@ == excluded_from(chunk@, kept@, j as int),
                    decreases n - j,
                {
                    if !contains_position(&taken, j) {
                        excluded.push(chunk[j]);
                    }
                    j += 1;
                }
                self.done = end;
                Some(ChunkVerdict { included, excluded })
            },
        }
    }

    /// The final order of the kept items: by score, highest first, stable
    /// among equal scores, unscored items last.
    pub fn finish(&self) -> (r: Vec<usize>)
        ensures
            r@ == sort_by_score(self.pool@).map_values(|e: Scored| e.0),
    {
        let sorted = sort_pool(&self.pool);
        let mut out: Vec<usize> = Vec::new();
        let mut i: usize = 0;
        while i < sorted.len()
            invariant
                i <= sorted@.len(),
                out@ == sorted@.take(i as int).map_values(|e: Scored| e.0),
            decreases sorted@.len() - i,
        {
            out.push(sorted[i].0);
            i += 1;
            assert(out@ =~= sorted@.take(i as int).map_values(|e: Scored| e.0));
        }
        assert(sorted@.take(i as int) =~= sorted@);
        out
    }
}

/// The items of `chunk` among its first `j` whose position the provider
/// did not keep, in chunk order.
pub open spec fn excluded_from(chunk: Seq<usize>, kept: Seq<(usize, i32)>, j: int) -> Seq<usize>
    decreases j,
{
    if j <= 0 {
        seq![]
    } else {
        let prev = excluded_from(chunk, kept, j - 1);
        if kept.map_values(|e: (usize, i32)| e.0).contains((j - 1) as usize) {
            prev
        } else {
            prev.push(chunk[j - 1])
        }
    }
}

/// The items of a chunk that the provider left out, in chunk order.
pub open spec fn excluded_items(chunk: Seq<usize>, kept: Seq<(usize, i32)>) -> Seq<usize> {
    excluded_from(chunk, kept, chunk.len() as int)
}

pub proof fn lemma_kept_scored_in_range(n: nat, scored: Seq<ScoredCandidate>)
    ensures
        forall|j: int| 0 <= j < kept_scored(n, scored).len() ==> #[trigger] kept_scored(n, scored)[j].0 < n,
    decreases scored.len(),
{
    if scored.len() > 0 {
        lemma_kept_scored_in_range(n, scored.drop_last());
        let prev = kept_scored(n, scored.drop_last());
        let c = scored.last();
        if c.index < n && !prev.map_values(|e: (usize, i32)| e.0).contains(c.index) {
            assert(kept_scored(n, scored) == prev.push((c.index, c.score)));
            assert forall|j: int| 0 <= j < prev.len() + 1 implies #[trigger] prev.push((c.index, c.score))[j].0 < n by {
                if j < prev.len() {
                    assert(prev.push((c.index, c.score))[j] == prev[j]);
                }
            }
        } else {
            assert(kept_scored(n, scored) == prev);
        }
    }
}

// ----------------------------------------------------------------------
// Ordering by score

/// `a` ranks at least as high as `b`: any score ranks above none, higher
/// scores above lower ones.
pub open spec fn score_ge(a: Option<i32>, b: Option<i32>) -> bool {
    match (a, b) {
        (_, None) => true,
        (None, Some(_)) => false,
        (Some(x), Some(y)) => x >= y,
    }
}

/// `e` inserted into `s` after every leading element that ranks at least
/// as high as it.
pub open spec fn insert_scored(s: Seq<Scored>, e: Scored) -> Seq<Scored>
    decreases s.len(),
{
    if s.len() == 0 {
        seq![e]
    } else if score_ge(s[0].1, e.1) {
        seq![s[0]] + insert_scored(s.drop_first(), e)
    } else {
        seq![e] + s
    }
}

/// The stable sort of `p` by score, highest first (insertion sort).
pub open spec fn sort_by_score(p: Seq<Scored>) -> Seq<Scored>
    decreases p.len(),
{
    if p.len() == 0 {
        seq![]
    } else {
        insert_scored(sort_by_score(p.drop_last()), p.last())
    }
}

/// The first position of `s` whose element ranks below `e`, or its length.
pub open spec fn insert_point(s: Seq<Scored>, e: Scored) -> int
    decreases s.len(),
{
    if s.len() == 0 {
        0
    } else if score_ge(s[0].1, e.1) {
        1 + insert_point(s.drop_first(), e)
    } else {
        0
    }
}

pub proof fn lemma_insert_point(s: Seq<Scored>, e: Scored)
    ensures
        0 <= insert_point(s, e) <= s.len(),
        insert_scored(s, e) == s.take(insert_point(s, e)) + seq![e] + s.skip(insert_point(s, e)),
        forall|k: int| 0 <= k < insert_point(s, e) ==> score_ge(#[trigger] s[k].1, e.1),
        insert_point(s, e) < s.len() ==> !score_ge(s[insert_point(s, e)].1, e.1),
    decreases s.len(),
{
    if s.len() > 0 && score_ge(s[0].1, e.1) {
        let t = s.drop_first();
        lemma_insert_point(t, e);
        let j = insert_point(t, e);
        assert(s.take(j + 1) =~= seq![s[0]] + t.take(j));
        assert(s.skip(j + 1) =~= t.skip(j));
        assert forall|k: int| 0 <= k < j + 1 implies score_ge(#[trigger] s[k].1, e.1) by {
            if k > 0 {
                assert(s[k] == t[k - 1]);
            }
        }
        assert(insert_scored(s, e) =~= s.take(j + 1) + seq![e] + s.skip(j + 1));
    } else if s.len() > 0 {
        assert(s.take(0) =~= Seq::<Scored>::empty());
        assert(s.skip(0) =~= s);
        assert(insert_scored(s, e) =~= s.take(0) + seq![e] + s.skip(0));
    } else {
        assert(insert_scored(s, e) =~= s.take(0) + seq![e] + s.skip(0));
    }
}

fn score_ge_exec(a: Option<i32>, b: Option<i32>) -> (r: bool)
    ensures
        r == score_ge(a, b),
{
    match (a, b) {
        (_, None) => true,
        (None, Some(_)) => false,
        (Some(x), Some(y)) => x >= y,
    }
}

fn insert_by_score(s: &mut Vec<Scored>, e: Scored)
    ensures
        final(s)@ == insert_scored(old(s)@, e),
{
    proof {
        lemma_insert_point(s@, e);
    }
    let mut j: usize = 0;
    while j < s.len() && score_ge_exec(s[j].1, e.1)
        invariant
            j <= s@.len(),
            s@ == old(s)@,
            j <= insert_point(s@, e) <= s@.len(),
            forall|k: int| 0 <= k < insert_point(s@, e) ==> score_ge(#[trigger] s@[k].1, e.1),
            insert_point(s@, e) < s@.len() ==> !score_ge(s@[insert_point(s@, e)].1, e.1),
        decreases s@.len() - j,
    {
        j += 1;
    }
    assert(j == insert_point(s@, e));
    s.insert(j, e);
    assert(s@ =~= old(s)@.take(j as int) + seq![e] + old(s)@.skip(j as int));
}

/// The pool sorted by score, highest first, stable.
pub fn sort_pool(pool: &Vec<Scored>) -> (r: Vec<Scored>)
    ensures
        r@ == sort_by_score(pool@),
{
    let mut out: Vec<Scored> = Vec::new();
    let mut i: usize = 0;
    while i < pool.len()
        invariant
            i <= pool@.len(),
            out@ == sort_by_score(pool@.take(i as int)),
        decreases pool@.len() - i,
    {
        proof {
            assert(pool@.take(i + 1).drop_last() =~= pool@.take(i as int));
            assert(pool@.take(i + 1).last() == pool@[i as int]);
        }
        insert_by_score(&mut out, pool[i]);
        i += 1;
    }
    assert(pool@.take(i as int) =~= pool@);
    out
}

pub proof fn lemma_score_ge_total(a: Option<i32>, b: Option<i32>)
    ensures
        score_ge(a, b) || score_ge(b, a),
{
}

pub proof fn lemma_score_ge_trans(a: Option<i32>, b: Option<i32>, c: Option<i32>)
    requires
        score_ge(a, b),
        score_ge(b, c),
    ensures
        score_ge(a, c),
{
}

/// Whether `s` is ordered by score, highest first.
pub open spec fn sorted_by_score(s: Seq<Scored>) -> bool {
    forall|i: int, j: int| 0 <= i < j < s.len() ==> score_ge(#[trigger] s[i].1, #[trigger] s[j].1)
}

pub proof fn lemma_insert_sorted(s: Seq<Scored>, e: Scored)
    requires
        sorted_by_score(s),
    ensures
        sorted_by_score(insert_scored(s, e)),
        insert_scored(s, e).to_multiset() == s.to_multiset().insert(e),
{
    lemma_insert_point(s, e);
    let j = insert_point(s, e);
    let r = insert_scored(s, e);
    assert forall|a: int, b: int| 0 <= a < b < r.len() implies score_ge(#[trigger] r[a].1, #[trigger] r[b].1) by {
        if a < j && b < j {
            assert(r[a] == s[a] && r[b] == s[b]);
        } else if a < j && b == j {
            assert(r[a] == s[a]);
        } else if a < j && b > j {
            assert(r[a] == s[a] && r[b] == s[b - 1]);
        } else if a == j {
            assert(r[b] == s[b - 1]);
            assert(!score_ge(s[j].1, e.1));
            lemma_score_ge_total(s[j].1, e.1);
            if b - 1 > j {
                lemma_score_ge_trans(e.1, s[j].1, s[b - 1].1);
            }
        } else {
            assert(r[a] == s[a - 1] && r[b] == s[b - 1]);
        }
    }
    assert(r =~= s.insert(j, e));
    vstd::seq_lib::to_multiset_insert(s, j, e);
}

/// The final order of a curation by hint is ordered by score, highest
/// first, and holds exactly the items of the pool.
pub proof fn sort_by_score_sorts(p: Seq<Scored>)
    ensures
        sorted_by_score(sort_by_score(p)),
        sort_by_score(p).to_multiset() == p.to_multiset(),
    decreases p.len(),
{
    if p.len() == 0 {
        assert(sort_by_score(p) =~= p);
    } else {
        sort_by_score_sorts(p.drop_last());
        lemma_insert_sorted(sort_by_score(p.drop_last()), p.last());
        assert(p.drop_last().push(p.last()) =~= p);
        vstd::seq_lib::to_multiset_build(p.drop_last(), p.last());
    }
}

// ----------------------------------------------------------------------
// A whole curation by hint

/// No two entries of a pool hold the same item.
pub open spec fn distinct_items(pool: Seq<Scored>) -> bool {
    forall|i: int, j: int| 0 <= i < j < pool.len() ==> #[trigger] pool[i].0 != #[trigger] pool[j].0
}

/// Whether item `p` is in a pool.
pub open spec fn in_pool(pool: Seq<Scored>, p: usize) -> bool {
    exists|k: int| 0 <= k < pool.len() && #[trigger] pool[k].0 == p
}

/// The pool after the provider's answer on the chunk of stale items that
/// starts at `done`: the whole chunk unscored when the call failed, else
/// the items it kept with their scores (see `HintCuration::record`).
pub open spec fn recorded_pool(
    pool: Seq<Scored>,
    delta: Seq<usize>,
    done: nat,
    answer: Option<Seq<ScoredCandidate>>,
) -> Seq<Scored> {
    let chunk = delta.subrange(done as int, chunk_end(done, delta.len()) as int);
    match answer {
        None => pool + chunk.map_values(|x: usize| (x, None::<i32>)),
        Some(scored) => pool + kept_scored(chunk.len(), scored).map_values(
            |e: (usize, i32)| (chunk[e.0 as int], Some(e.1)),
        ),
    }
}

/// What holds of a curation by hint of items with cache verdicts `v`
/// after the first `done` stale items were sent: no item is in the pool
/// twice, every item of the pool was kept by the cache or already sent,
/// and every item the cache keeps is in the pool.
pub open spec fn run_state(pool: Seq<Scored>, done: nat, v: Seq<CacheVerdict>) -> bool {
    &&& done <= stale_items(v).len()
    &&& distinct_items(pool)
    &&& forall|k: int|
        0 <= k < pool.len() ==> ((#[trigger] pool[k]).0 < v.len() && v[pool[k].0 as int] is Kept)
            || stale_items(v).take(done as int).contains(pool[k].0)
    &&& forall|p: int| 0 <= p < v.len() && (#[trigger] v[p]) is Kept ==> in_pool(pool, p as usize)
}

proof fn lemma_stale_items(v: Seq<CacheVerdict>)
    requires
        v.len() <= usize::MAX,
    ensures
        forall|i: int|
            0 <= i < stale_items(v).len() ==> (#[trigger] stale_items(v)[i]) < v.len() && v[stale_items(
                v,
            )[i] as int] is Stale,
        forall|i: int, j: int|
            0 <= i < j < stale_items(v).len() ==> #[trigger] stale_items(v)[i] < #[trigger] stale_items(v)[j],
    decreases v.len(),
{
    if v.len() > 0 {
        let w = v.drop_last();
        lemma_stale_items(w);
        let prev = stale_items(w);
        assert forall|i: int| 0 <= i < prev.len() implies v[prev[i] as int] == w[prev[i] as int] by {}
        if v.last() is Stale {
            let s = prev.push((v.len() - 1) as usize);
            assert(stale_items(v) == s);
            assert forall|i: int| 0 <= i < s.len() implies (#[trigger] s[i]) < v.len() && v[s[i] as int] is Stale by {
                if i < prev.len() {
                    assert(s[i] == prev[i]);
                }
            }
            assert forall|i: int, j: int| 0 <= i < j < s.len() implies #[trigger] s[i] < #[trigger] s[j] by {
                assert(s[i] == prev[i]);
                if j < prev.len() {
                    assert(s[j] == prev[j]);
                }
            }
        } else {
            assert(stale_items(v) == prev);
        }
    }
}

proof fn lemma_cached_pool(v: Seq<CacheVerdict>)
    requires
        v.len() <= usize::MAX,
    ensures
        forall|k: int|
            0 <= k < cached_pool(v).len() ==> (#[trigger] cached_pool(v)[k]).0 < v.len() && v[cached_pool(
                v,
            )[k].0 as int] is Kept,
        forall|i: int, j: int|
            0 <= i < j < cached_pool(v).len() ==> (#[trigger] cached_pool(v)[i]).0 < (#[trigger] cached_pool(v)[j]).0,
        forall|p: int| 0 <= p < v.len() && (#[trigger] v[p]) is Kept ==> in_pool(cached_pool(v), p as usize),
    decreases v.len(),
{
    if v.len() > 0 {
        let w = v.drop_last();
        lemma_cached_pool(w);
        let prev = cached_pool(w);
        let s = cached_pool(v);
        assert forall|k: int| 0 <= k < prev.len() implies v[prev[k].0 as int] == w[prev[k].0 as int] by {}
        if let CacheVerdict::Kept(sc) = v.last() {
            assert(s == prev.push(((v.len() - 1) as usize, sc)));
            assert forall|k: int| 0 <= k < s.len() implies (#[trigger] s[k]).0 < v.len() && v[s[k].0 as int] is Kept by {
                if k < prev.len() {
                    assert(s[k] == prev[k]);
                }
            }
            assert forall|i: int, j: int| 0 <= i < j < s.len() implies (#[trigger] s[i]).0 < (#[trigger] s[j]).0 by {
                assert(s[i] == prev[i]);
                if j < prev.len() {
                    assert(s[j] == prev[j]);
                }
            }
            assert forall|p: int| 0 <= p < v.len() && (#[trigger] v[p]) is Kept implies in_pool(s, p as usize) by {
                if p < v.len() - 1 {
                    assert(w[p] == v[p]);
                    assert(in_pool(prev, p as usize));
                    let k = choose|k: int| 0 <= k < prev.len() && #[trigger] prev[k].0 == p as usize;
                    assert(s[k] == prev[k]);
                } else {
                    assert(s[prev.len() as int].0 == p as usize);
                }
            }
        } else {
            assert(s == prev);
            assert forall|p: int| 0 <= p < v.len() && (#[trigger] v[p]) is Kept implies in_pool(s, p as usize) by {
                assert(p < v.len() - 1);
                assert(w[p] == v[p]);
            }
        }
    }
}

proof fn lemma_kept_scored_distinct(n: nat, scored: Seq<ScoredCandidate>)
    ensures
        forall|i: int, j: int|
            0 <= i < j < kept_scored(n, scored).len() ==> (#[trigger] kept_scored(n, scored)[i]).0 != (
            #[trigger] kept_scored(n, scored)[j]).0,
    decreases scored.len(),
{
    if scored.len() > 0 {
        lemma_kept_scored_distinct(n, scored.drop_last());
        let prev = kept_scored(n, scored.drop_last());
        let c = scored.last();
        let ps = prev.map_values(|e: (usize, i32)| e.0);
        if c.index < n && !ps.contains(c.index) {
            let s = prev.push((c.index, c.score));
            assert(kept_scored(n, scored) == s);
            assert forall|i: int, j: int| 0 <= i < j < s.len() implies (#[trigger] s[i]).0 != (#[trigger] s[j]).0 by {
                assert(s[i] == prev[i]);
                if j < prev.len() {
                    assert(s[j] == prev[j]);
                } else {
                    assert(ps[i] == prev[i].0);
                }
            }
        } else {
            assert(kept_scored(n, scored) == prev);
        }
    }
}

/// A curation by hint starts with every item the cache keeps in the pool,
/// each once, and nothing sent.
pub proof fn a_curation_starts_from_the_cache(v: Seq<CacheVerdict>)
    requires
        v.len() <= usize::MAX,
    ensures
        run_state(cached_pool(v), 0, v),
        forall|p: int| 0 <= p < v.len() ==> (in_pool(cached_pool(v), p as usize) <==> (#[trigger] v[p]) is Kept),
{
    lemma_cached_pool(v);
    let pool = cached_pool(v);
    assert forall|p: int| 0 <= p < v.len() && in_pool(pool, p as usize) implies (#[trigger] v[p]) is Kept by {
        let k = choose|k: int| 0 <= k < pool.len() && #[trigger] pool[k].0 == p as usize;
        assert(v[pool[k].0 as int] is Kept);
    }
    assert forall|i: int, j: int| 0 <= i < j < pool.len() implies #[trigger] pool[i].0 != #[trigger] pool[j].0 by {
        assert(pool[i].0 < pool[j].0);
    }
}

/// When the cache decides every item under the current hint, nothing is
/// left for the provider: the curation is over as soon as it starts, and
/// its pool is what the cache keeps.
pub proof fn a_fully_cached_curation_asks_no_provider(v: Seq<CacheVerdict>)
    requires
        v.len() <= usize::MAX,
        forall|i: int| 0 <= i < v.len() ==> !(#[trigger] v[i] is Stale),
    ensures
        stale_items(v).len() == 0,
{
    lemma_stale_items(v);
    if stale_items(v).len() > 0 {
        assert(v[stale_items(v)[0] as int] is Stale);
    }
}

/// Each answer of the provider keeps a curation by hint sound: no item
/// enters the pool twice (a failed call adds its whole chunk once, a
/// repeated or out-of-range index adds nothing), every item added was
/// sent in that chunk, and what the cache keeps stays in the pool.
pub proof fn each_answer_keeps_the_pool_sound(
    pool: Seq<Scored>,
    done: nat,
    v: Seq<CacheVerdict>,
    answer: Option<Seq<ScoredCandidate>>,
)
    requires
        v.len() <= usize::MAX,
        run_state(pool, done, v),
        done < stale_items(v).len(),
    ensures
        run_state(recorded_pool(pool, stale_items(v), done, answer), chunk_end(done, stale_items(v).len()), v),
{
    let delta = stale_items(v);
    lemma_stale_items(v);
    let end = chunk_end(done, delta.len());
    let chunk = delta.subrange(done as int, end as int);
    let np = recorded_pool(pool, delta, done, answer);
    let add = np.subrange(pool.len() as int, np.len() as int);
    // every added entry is an item of the chunk, and no two are the same
    assert(np =~= pool + add);
    assert(forall|t: int| 0 <= t < chunk.len() ==> #[trigger] chunk[t] == delta[done + t]);
    let ghost src: spec_fn(int) -> int = match answer {
        None => |t: int| t,
        Some(scored) => |t: int| kept_scored(chunk.len(), scored)[t].0 as int,
    };
    match answer {
        None => {
            assert forall|t: int| 0 <= t < add.len() implies 0 <= #[trigger] src(t) < chunk.len() && add[t].0
                == chunk[src(t)] by {}
            assert forall|a: int, b: int| 0 <= a < b < add.len() implies #[trigger] src(a) != #[trigger] src(b) by {}
        },
        Some(scored) => {
            lemma_kept_scored_in_range(chunk.len(), scored);
            lemma_kept_scored_distinct(chunk.len(), scored);
            let ks = kept_scored(chunk.len(), scored);
            assert forall|t: int| 0 <= t < add.len() implies 0 <= #[trigger] src(t) < chunk.len() && add[t].0
                == chunk[src(t)] by {
                assert(ks[t].0 < chunk.len());
            }
            assert forall|a: int, b: int| 0 <= a < b < add.len() implies #[trigger] src(a) != #[trigger] src(b) by {
                assert(ks[a].0 != ks[b].0);
            }
        },
    }
    assert forall|i: int, j: int| 0 <= i < j < np.len() implies #[trigger] np[i].0 != #[trigger] np[j].0 by {
        if j < pool.len() {
            assert(np[i] == pool[i] && np[j] == pool[j]);
        } else if i >= pool.len() {
            let a = i - pool.len();
            let b = j - pool.len();
            assert(np[i] == add[a] && np[j] == add[b]);
            assert(src(a) != src(b));
            assert(chunk[src(a)] == delta[done + src(a)]);
            assert(chunk[src(b)] == delta[done + src(b)]);
            if src(a) < src(b) {
                assert(delta[done + src(a)] < delta[done + src(b)]);
            } else {
                assert(delta[done + src(b)] < delta[done + src(a)]);
            }
        } else {
            let b = j - pool.len();
            assert(np[i] == pool[i] && np[j] == add[b]);
            let x = delta[done + src(b)];
            assert(np[j].0 == x);
            assert(v[x as int] is Stale);
            if !(pool[i].0 < v.len() && v[pool[i].0 as int] is Kept) {
                assert(delta.take(done as int).contains(pool[i].0));
                let q = choose|q: int| 0 <= q < done && delta.take(done as int)[q] == pool[i].0;
                assert(delta[q] < delta[done + src(b)]);
            }
        }
    }
    assert forall|k: int|
        0 <= k < np.len() implies ((#[trigger] np[k]).0 < v.len() && v[np[k].0 as int] is Kept)
            || delta.take(end as int).contains(np[k].0) by {
        if k < pool.len() {
            assert(np[k] == pool[k]);
            if !(pool[k].0 < v.len() && v[pool[k].0 as int] is Kept) {
                let q = choose|q: int| 0 <= q < done && delta.take(done as int)[q] == pool[k].0;
                assert(delta.take(end as int)[q] == pool[k].0);
            }
        } else {
            let t = k - pool.len();
            assert(np[k] == add[t]);
            assert(delta.take(end as int)[done + src(t)] == np[k].0);
        }
    }
    assert forall|p: int| 0 <= p < v.len() && (#[trigger] v[p]) is Kept implies in_pool(np, p as usize) by {
        assert(in_pool(pool, p as usize));
        let k = choose|k: int| 0 <= k < pool.len() && #[trigger] pool[k].0 == p as usize;
        assert(np[k] == pool[k]);
    }
}

/// Whether the provider's answer on a chunk of `n` items keeps the item at
/// chunk position `t`: a failed call keeps every item, an answer keeps the
/// positions it lists (in range, each once).
pub open spec fn answer_keeps(answer: Option<Seq<ScoredCandidate>>, n: nat, t: int) -> bool {
    match answer {
        None => true,
        Some(scored) => exists|j: int|
            0 <= j < kept_scored(n, scored).len() && #[trigger] kept_scored(n, scored)[j].0 == t,
    }
}

/// Exactly which items an answer adds: an item of the chunk enters the
/// pool when the answer keeps its position (every one of them when the
/// call failed), and no other item enters or leaves it.
pub proof fn each_answer_adds_exactly_what_it_keeps(
    pool: Seq<Scored>,
    done: nat,
    v: Seq<CacheVerdict>,
    answer: Option<Seq<ScoredCandidate>>,
)
    requires
        v.len() <= usize::MAX,
        run_state(pool, done, v),
        done < stale_items(v).len(),
    ensures
        ({
            let delta = stale_items(v);
            let chunk = delta.subrange(done as int, chunk_end(done, delta.len()) as int);
            let np = recorded_pool(pool, delta, done, answer);
            &&& forall|t: int|
                0 <= t < chunk.len() ==> (in_pool(np, #[trigger] chunk[t]) <==> answer_keeps(
                    answer,
                    chunk.len(),
                    t,
                ))
            &&& forall|t: int| 0 <= t < chunk.len() ==> !in_pool(pool, #[trigger] chunk[t])
            &&& forall|x: usize| !chunk.contains(x) ==> (in_pool(np, x) <==> in_pool(pool, x))
        }),
{
    let delta = stale_items(v);
    lemma_stale_items(v);
    let end = chunk_end(done, delta.len());
    let chunk = delta.subrange(done as int, end as int);
    let np = recorded_pool(pool, delta, done, answer);
    let add = np.subrange(pool.len() as int, np.len() as int);
    assert(np =~= pool + add);
    assert(forall|t: int| 0 <= t < chunk.len() ==> #[trigger] chunk[t] == delta[done + t]);
    // no item of the chunk is in the pool yet
    assert forall|t: int| 0 <= t < chunk.len() implies !in_pool(pool, #[trigger] chunk[t]) by {
        if in_pool(pool, chunk[t]) {
            let k = choose|k: int| 0 <= k < pool.len() && #[trigger] pool[k].0 == chunk[t];
            assert(v[delta[done + t] as int] is Stale);
            if !(pool[k].0 < v.len() && v[pool[k].0 as int] is Kept) {
                let q = choose|q: int| 0 <= q < done && delta.take(done as int)[q] == pool[k].0;
                assert(delta[q] < delta[done + t]);
            }
        }
    }
    // the chunk's items are distinct
    assert forall|a: int, b: int| 0 <= a < chunk.len() && 0 <= b < chunk.len() && chunk[a] == chunk[b] implies a == b by {
        if a < b {
            assert(delta[done + a] < delta[done + b]);
        } else if b < a {
            assert(delta[done + b] < delta[done + a]);
        }
    }
    // what the answer adds
    match answer {
        None => {
            assert(add =~= chunk.map_values(|x: usize| (x, None::<i32>)));
            assert forall|t: int| 0 <= t < chunk.len() implies (in_pool(np, #[trigger] chunk[t]) <==> answer_keeps(
                answer,
                chunk.len(),
                t,
            )) by {
                assert(add[t] == (chunk[t], None::<i32>));
                assert(np[pool.len() + t] == add[t]);
                assert(np[pool.len() + t].0 == chunk[t]);
            }
            assert forall|x: usize| !chunk.contains(x) implies (in_pool(np, x) <==> in_pool(pool, x)) by {
                if in_pool(np, x) {
                    let k = choose|k: int| 0 <= k < np.len() && #[trigger] np[k].0 == x;
                    if k >= pool.len() {
                        assert(add[k - pool.len()].0 == chunk[k - pool.len()]);
                    } else {
                        assert(np[k] == pool[k]);
                    }
                }
                if in_pool(pool, x) {
                    let k = choose|k: int| 0 <= k < pool.len() && #[trigger] pool[k].0 == x;
                    assert(np[k] == pool[k]);
                }
            }
        },
        Some(scored) => {
            let n = chunk.len();
            lemma_kept_scored_in_range(n, scored);
            let ks = kept_scored(n, scored);
            assert(add =~= ks.map_values(|e: (usize, i32)| (chunk[e.0 as int], Some(e.1))));
            assert forall|t: int| 0 <= t < chunk.len() implies (in_pool(np, #[trigger] chunk[t]) <==> answer_keeps(
                answer,
                chunk.len(),
                t,
            )) by {
                if in_pool(np, chunk[t]) {
                    let k = choose|k: int| 0 <= k < np.len() && #[trigger] np[k].0 == chunk[t];
                    if k < pool.len() {
                        assert(np[k] == pool[k]);
                        assert(in_pool(pool, chunk[t]));
                    } else {
                        let j = k - pool.len();
                        assert(np[k] == add[j]);
                        assert(ks[j].0 < n);
                        assert(chunk[ks[j].0 as int] == chunk[t]);
                        assert(ks[j].0 == t);
                    }
                }
                if answer_keeps(answer, chunk.len(), t) {
                    let j = choose|j: int| 0 <= j < ks.len() && #[trigger] ks[j].0 == t;
                    assert(add[j] == (chunk[ks[j].0 as int], Some(ks[j].1)));
                    assert(np[pool.len() + j] == add[j]);
                    assert(np[pool.len() + j].0 == chunk[t]);
                    assert(in_pool(np, chunk[t]));
                }
            }
            assert forall|x: usize| !chunk.contains(x) implies (in_pool(np, x) <==> in_pool(pool, x)) by {
                if in_pool(np, x) {
                    let k = choose|k: int| 0 <= k < np.len() && #[trigger] np[k].0 == x;
                    if k >= pool.len() {
                        let j = k - pool.len();
                        assert(np[k] == add[j]);
                        assert(ks[j].0 < n);
                        assert(chunk[ks[j].0 as int] == x);
                    } else {
                        assert(np[k] == pool[k]);
                    }
                }
                if in_pool(pool, x) {
                    let k = choose|k: int| 0 <= k < pool.len() && #[trigger] pool[k].0 == x;
                    assert(np[k] == pool[k]);
                }
            }
        },
    }
}

/// How many stale items have been sent after `k` answers.
pub open spec fn sent_after(k: int, len: int) -> int {
    if 20 * k <= len {
        20 * k
    } else {
        len
    }
}

/// The pool after the provider answered the first chunks of a curation
/// of items with cache verdicts `v`, one answer per chunk in order.
pub open spec fn run_pool(v: Seq<CacheVerdict>, answers: Seq<Option<Seq<ScoredCandidate>>>) -> Seq<Scored>
    decreases answers.len(),
{
    if answers.len() == 0 {
        cached_pool(v)
    } else {
        recorded_pool(
            run_pool(v, answers.drop_last()),
            stale_items(v),
            sent_after(answers.len() - 1, stale_items(v).len() as int) as nat,
            answers.last(),
        )
    }
}

/// Whether the answer on the chunk of stale item `j` kept it.
pub open spec fn stale_kept(answers: Seq<Option<Seq<ScoredCandidate>>>, j: int, len: int) -> bool {
    answer_keeps(answers[j / 20], (sent_after(j / 20 + 1, len) - sent_after(j / 20, len)) as nat, j % 20)
}

/// A whole curation by hint keeps exactly these items: every item the
/// cache keeps; no item the cache excludes; and each stale item once its
/// chunk was answered, when that answer kept it (all of them when the
/// call failed). No item is kept twice.
pub proof fn a_curation_keeps_exactly_the_accepted_items(
    v: Seq<CacheVerdict>,
    answers: Seq<Option<Seq<ScoredCandidate>>>,
)
    requires
        v.len() <= usize::MAX,
        answers.len() == 0 || 20 * (answers.len() - 1) < stale_items(v).len(),
    ensures
        run_state(run_pool(v, answers), sent_after(answers.len() as int, stale_items(v).len() as int) as nat, v),
        forall|p: int| 0 <= p < v.len() && (#[trigger] v[p]) is Kept ==> in_pool(run_pool(v, answers), p as usize),
        forall|p: int|
            0 <= p < v.len() && (#[trigger] v[p]) is Excluded ==> !in_pool(run_pool(v, answers), p as usize),
        forall|j: int|
            0 <= j < stale_items(v).len() ==> (in_pool(run_pool(v, answers), #[trigger] stale_items(v)[j]) <==> (j
                < sent_after(answers.len() as int, stale_items(v).len() as int) && stale_kept(
                answers,
                j,
                stale_items(v).len() as int,
            ))),
    decreases answers.len(),
{
    let delta = stale_items(v);
    let len = delta.len() as int;
    lemma_stale_items(v);
    let run = run_pool(v, answers);
    if answers.len() == 0 {
        a_curation_starts_from_the_cache(v);
        assert forall|j: int| 0 <= j < len implies !in_pool(run, #[trigger] delta[j]) by {
            assert(v[delta[j] as int] is Stale);
        }
    } else {
        let k = answers.len() as int;
        let prev = answers.drop_last();
        a_curation_keeps_exactly_the_accepted_items(v, prev);
        let old_pool = run_pool(v, prev);
        let done = sent_after(k - 1, len);
        assert(done == 20 * (k - 1));
        assert(chunk_end(done as nat, delta.len()) == sent_after(k, len));
        each_answer_keeps_the_pool_sound(old_pool, done as nat, v, answers.last());
        each_answer_adds_exactly_what_it_keeps(old_pool, done as nat, v, answers.last());
        let end = sent_after(k, len);
        let chunk = delta.subrange(done, end);
        assert(run == recorded_pool(old_pool, delta, done as nat, answers.last()));
        assert forall|p: int| 0 <= p < v.len() && (#[trigger] v[p]) is Excluded implies !in_pool(run, p as usize) by {
            if in_pool(run, p as usize) {
                let i = choose|i: int| 0 <= i < run.len() && #[trigger] run[i].0 == p as usize;
                if !(run[i].0 < v.len() && v[run[i].0 as int] is Kept) {
                    let q = choose|q: int| 0 <= q < end && delta.take(end)[q] == run[i].0;
                    assert(v[delta[q] as int] is Stale);
                }
            }
        }
        assert forall|j: int| 0 <= j < len implies (in_pool(run, #[trigger] delta[j]) <==> (j < end && stale_kept(
            answers,
            j,
            len,
        ))) by {
            if j < done {
                assert(!chunk.contains(delta[j])) by {
                    if chunk.contains(delta[j]) {
                        let t = choose|t: int| 0 <= t < chunk.len() && chunk[t] == delta[j];
                        assert(chunk[t] == delta[done + t]);
                        assert(delta[j] < delta[done + t]);
                    }
                }
                assert(j / 20 < k - 1) by (nonlinear_arith)
                    requires
                        0 <= j < 20 * (k - 1),
                ;
                assert(answers[j / 20] == prev[j / 20]);
                assert(stale_kept(answers, j, len) == stale_kept(prev, j, len));
            } else if j < end {
                let t = j - done;
                assert(chunk[t] == delta[j]);
                assert(j / 20 == k - 1 && j % 20 == t) by (nonlinear_arith)
                    requires
                        20 * (k - 1) <= j < 20 * k,
                        t == j - 20 * (k - 1),
                ;
                assert(chunk.len() == sent_after(k, len) - sent_after(k - 1, len));
            } else {
                assert(!chunk.contains(delta[j])) by {
                    if chunk.contains(delta[j]) {
                        let t = choose|t: int| 0 <= t < chunk.len() && chunk[t] == delta[j];
                        assert(chunk[t] == delta[done + t]);
                        assert(delta[done + t] < delta[j]);
                    }
                }
            }
        }
    }
}

/// The items of the first `k` chunks of a curation's stale items, in the
/// order they are sent.
pub open spec fn chunks_upto(delta: Seq<usize>, k: int) -> Seq<usize>
    decreases k,
{
    if k <= 0 {
        seq![]
    } else {
        chunks_upto(delta, k - 1) + delta.subrange(
            sent_after(k - 1, delta.len() as int),
            sent_after(k, delta.len() as int),
        )
    }
}

/// The chunks of a curation by hint are the stale items, at most 20 at a
/// time, in order: the chunk sent after `c` others starts where they
/// end, and all of them together are the stale items, each once.
pub proof fn the_chunks_are_the_stale_items_in_order(delta: Seq<usize>, k: int)
    requires
        k >= 0,
    ensures
        chunks_upto(delta, k) == delta.take(sent_after(k, delta.len() as int)),
        20 * k >= delta.len() ==> chunks_upto(delta, k) == delta,
        forall|c: int|
            0 <= c && 20 * c < delta.len() ==> chunk_end(
                #[trigger] sent_after(c, delta.len() as int) as nat,
                delta.len(),
            ) == sent_after(c + 1, delta.len() as int),
    decreases k,
{
    let len = delta.len() as int;
    if k > 0 {
        the_chunks_are_the_stale_items_in_order(delta, k - 1);
        assert(chunks_upto(delta, k) =~= delta.take(sent_after(k, len)));
    } else {
        assert(chunks_upto(delta, k) =~= delta.take(sent_after(k, len)));
    }
    if 20 * k >= len {
        assert(delta.take(len) =~= delta);
    }
}

/// Once every stale item was sent, the final order holds each item of the
/// pool once, ordered by score: every item the cache keeps, and no item
/// the cache excludes.
pub proof fn a_finished_curation_orders_each_item_once(pool: Seq<Scored>, v: Seq<CacheVerdict>)
    requires
        v.len() <= usize::MAX,
        run_state(pool, stale_items(v).len(), v),
    ensures
        sorted_by_score(sort_by_score(pool)),
        sort_by_score(pool).to_multiset() == pool.to_multiset(),
        distinct_items(pool),
        forall|p: int| 0 <= p < v.len() && (#[trigger] v[p]) is Kept ==> in_pool(pool, p as usize),
        forall|k: int| 0 <= k < pool.len() ==> !(v[(#[trigger] pool[k]).0 as int] is Excluded),
{
    sort_by_score_sorts(pool);
    lemma_stale_items(v);
    let delta = stale_items(v);
    assert(delta.take(delta.len() as int) =~= delta);
    assert forall|k: int| 0 <= k < pool.len() implies !(v[(#[trigger] pool[k]).0 as int] is Excluded) by {
        if !(pool[k].0 < v.len() && v[pool[k].0 as int] is Kept) {
            let q = choose|q: int| 0 <= q < delta.len() && delta[q] == pool[k].0;
            assert(v[delta[q] as int] is Stale);
        }
    }
}

// ----------------------------------------------------------------------
// Grouping by source

/// The positions where a key occurs for the first time, in order.
pub open spec fn first_occurrences(keys: Seq<Seq<char>>) -> Seq<usize>
    decreases keys.len(),
{
    if keys.len() == 0 {
        seq![]
    } else {
        let prev = first_occurrences(keys.drop_last());
        if keys.drop_last().contains(keys.last()) {
            prev
        } else {
            prev.push((keys.len() - 1) as usize)
        }
    }
}

/// The positions whose key is `k`, in order.
pub open spec fn positions_of(keys: Seq<Seq<char>>, k: Seq<char>) -> Seq<usize>
    decreases keys.len(),
{
    if keys.len() == 0 {
        seq![]
    } else {
        let prev = positions_of(keys.drop_last(), k);
        if keys.last() == k {
            prev.push((keys.len() - 1) as usize)
        } else {
            prev
        }
    }
}

/// The items grouped by key: one group per distinct key, in order of the
/// key's first appearance, each holding the positions of its items in
/// order.
pub open spec fn key_groups(keys: Seq<Seq<char>>) -> Seq<Seq<usize>> {
    first_occurrences(keys).map_values(|f: usize| positions_of(keys, keys[f as int]))
}

fn key_seen_before(keys: &Vec<String>, i: usize) -> (r: bool)
    requires
        i < keys@.len(),
    ensures
        r == views(keys@).take(i as int).contains(keys@[i as int]@),
{
    let ghost ks = views(keys@);
    let mut j: usize = 0;
    while j < i
        invariant
            j <= i < keys@.len(),
            ks == views(keys@),
            forall|m: int| 0 <= m < j ==> ks[m] != keys@[i as int]@,
        decreases i - j,
    {
        if keys[j] == keys[i] {
            assert(ks.take(i as int)[j as int] == keys@[i as int]@);
            return true;
        }
        j += 1;
    }
    proof {
        if ks.take(i as int).contains(keys@[i as int]@) {
            let m = choose|m: int| 0 <= m < i && #[trigger] ks.take(i as int)[m] == keys@[i as int]@;
            assert(ks[m] == keys@[i as int]@);
        }
    }
    false
}

fn positions_of_exec(keys: &Vec<String>, f: usize) -> (r: Vec<usize>)
    requires
        f < keys@.len(),
    ensures
        r@ == positions_of(views(keys@), keys@[f as int]@),
{
    let ghost ks = views(keys@);
    let mut out: Vec<usize> = Vec::new();
    let mut i: usize = 0;
    while i < keys.len()
        invariant
            i <= keys@.len(),
            f < keys@.len(),
            ks == views(keys@),
            out@ == positions_of(ks.take(i as int), keys@[f as int]@),
        decreases keys@.len() - i,
    {
        proof {
            assert(ks.take(i + 1).drop_last() =~= ks.take(i as int));
            assert(ks.take(i + 1).last() == keys@[i as int]@);
        }
        if keys[i] == keys[f] {
            out.push(i);
        }
        i += 1;
    }
    assert(ks.take(i as int) =~= ks);
    out
}

/// The items grouped by their keys (a source's id): one group per key, in
/// order of first appearance, each with its items' positions in order.
pub fn group_by_key(keys: &Vec<String>) -> (r: Vec<Vec<usize>>)
    ensures
        r@.map_values(|g: Vec<usize>| g@) == key_groups(views(keys@)),
{
    let ghost ks = views(keys@);
    let mut firsts: Vec<usize> = Vec::new();
    let mut i: usize = 0;
    while i < keys.len()
        invariant
            i <= keys@.len(),
            ks == views(keys@),
            firsts@ == first_occurrences(ks.take(i as int)),
        decreases keys@.len() - i,
    {
        proof {
            assert(ks.take(i + 1).drop_last() =~= ks.take(i as int));
            assert(ks.take(i + 1).last() == keys@[i as int]@);
        }
        if !key_seen_before(keys, i) {
            firsts.push(i);
        }
        i += 1;
    }
    assert(ks.take(i as int) =~= ks);
    proof {
        lemma_first_occurrences_in_range(ks);
    }
    let mut out: Vec<Vec<usize>> = Vec::new();
    let mut g: usize = 0;
    while g < firsts.len()
        invariant
            g <= firsts@.len(),
            ks == views(keys@),
            firsts@ == first_occurrences(ks),
            forall|m: int| 0 <= m < firsts@.len() ==> #[trigger] firsts@[m] < ks.len(),
            out@.map_values(|x: Vec<usize>| x@) == firsts@.take(g as int).map_values(
                |f: usize| positions_of(ks, ks[f as int]),
            ),
        decreases firsts@.len() - g,
    {
        let f = firsts[g];
        let grp = positions_of_exec(keys, f);
        assert(ks[f as int] == keys@[f as int]@);
        let ghost gv = grp@;
        let ghost prev = out@.map_values(|x: Vec<usize>| x@);
        out.push(grp);
        assert(out@.map_values(|x: Vec<usize>| x@) =~= prev.push(gv));
        assert(firsts@.take(g + 1) =~= firsts@.take(g as int).push(f));
        g += 1;
        assert(out@.map_values(|x: Vec<usize>| x@) =~= firsts@.take(g as int).map_values(
            |f: usize| positions_of(ks, ks[f as int]),
        ));
    }
    assert(firsts@.take(g as int) =~= firsts@);
    out
}

pub proof fn lemma_first_occurrences_in_range(keys: Seq<Seq<char>>)
    ensures
        forall|m: int| 0 <= m < first_occurrences(keys).len() ==> #[trigger] first_occurrences(keys)[m] < keys.len(),
    decreases keys.len(),
{
    if keys.len() > 0 {
        lemma_first_occurrences_in_range(keys.drop_last());
        let prev = first_occurrences(keys.drop_last());
        if !keys.drop_last().contains(keys.last()) {
            assert forall|m: int| 0 <= m < prev.len() + 1 implies #[trigger] prev.push((keys.len() - 1) as usize)[m] < keys.len() by {
                if m < prev.len() {
                    assert(prev.push((keys.len() - 1) as usize)[m] == prev[m]);
                }
            }
        }
    }
}


proof fn lemma_positions_of(keys: Seq<Seq<char>>, k: Seq<char>)
    requires
        keys.len() <= usize::MAX,
    ensures
        forall|t: int|
            0 <= t < positions_of(keys, k).len() ==> (#[trigger] positions_of(keys, k)[t]) < keys.len()
                && keys[positions_of(keys, k)[t] as int] == k,
        forall|i: int| 0 <= i < keys.len() && #[trigger] keys[i] == k ==> positions_of(keys, k).contains(i as usize),
    decreases keys.len(),
{
    if keys.len() > 0 {
        let w = keys.drop_last();
        lemma_positions_of(w, k);
        let prev = positions_of(w, k);
        let s = positions_of(keys, k);
        assert forall|t: int| 0 <= t < prev.len() implies keys[prev[t] as int] == w[prev[t] as int] by {}
        if keys.last() == k {
            assert(s == prev.push((keys.len() - 1) as usize));
            assert forall|t: int| 0 <= t < s.len() implies (#[trigger] s[t]) < keys.len() && keys[s[t] as int] == k by {
                if t < prev.len() {
                    assert(s[t] == prev[t]);
                }
            }
            assert forall|i: int| 0 <= i < keys.len() && #[trigger] keys[i] == k implies s.contains(i as usize) by {
                if i < keys.len() - 1 {
                    assert(w[i] == keys[i]);
                    let t = choose|t: int| 0 <= t < prev.len() && prev[t] == i as usize;
                    assert(s[t] == prev[t]);
                } else {
                    assert(s[prev.len() as int] == i as usize);
                }
            }
        } else {
            assert(s == prev);
            assert forall|i: int| 0 <= i < keys.len() && #[trigger] keys[i] == k implies s.contains(i as usize) by {
                assert(i < keys.len() - 1);
                assert(w[i] == keys[i]);
            }
        }
    }
}

proof fn lemma_first_occurrences(keys: Seq<Seq<char>>)
    requires
        keys.len() <= usize::MAX,
    ensures
        forall|a: int, b: int|
            0 <= a < first_occurrences(keys).len() && 0 <= b < first_occurrences(keys).len() && a != b ==> keys[(
            #[trigger] first_occurrences(keys)[a]) as int] != keys[(#[trigger] first_occurrences(keys)[b]) as int],
        forall|i: int|
            0 <= i < keys.len() ==> exists|m: int|
                0 <= m < first_occurrences(keys).len() && keys[(#[trigger] first_occurrences(keys)[m]) as int]
                    == #[trigger] keys[i],
    decreases keys.len(),
{
    lemma_first_occurrences_in_range(keys);
    if keys.len() > 0 {
        let w = keys.drop_last();
        lemma_first_occurrences(w);
        lemma_first_occurrences_in_range(w);
        let prev = first_occurrences(w);
        let f = first_occurrences(keys);
        assert forall|m: int| 0 <= m < prev.len() implies keys[prev[m] as int] == w[prev[m] as int] by {}
        if w.contains(keys.last()) {
            assert(f == prev);
            assert forall|i: int| 0 <= i < keys.len() implies exists|m: int|
                0 <= m < f.len() && keys[(#[trigger] f[m]) as int] == #[trigger] keys[i] by {
                if i < keys.len() - 1 {
                    assert(w[i] == keys[i]);
                    let m = choose|m: int| 0 <= m < prev.len() && w[(#[trigger] prev[m]) as int] == w[i];
                    assert(keys[f[m] as int] == keys[i]);
                } else {
                    let q = choose|q: int| 0 <= q < w.len() && w[q] == keys.last();
                    assert(w[q] == keys[q]);
                    let m = choose|m: int| 0 <= m < prev.len() && w[(#[trigger] prev[m]) as int] == w[q];
                    assert(keys[f[m] as int] == keys[i]);
                }
            }
        } else {
            let last = (keys.len() - 1) as usize;
            assert(f == prev.push(last));
            assert forall|a: int, b: int|
                0 <= a < f.len() && 0 <= b < f.len() && a != b implies keys[(#[trigger] f[a]) as int] != keys[(
                #[trigger] f[b]) as int] by {
                if a < prev.len() && b < prev.len() {
                    assert(f[a] == prev[a] && f[b] == prev[b]);
                } else if a < prev.len() {
                    assert(f[a] == prev[a]);
                    assert(w.contains(w[prev[a] as int]));
                } else {
                    assert(f[b] == prev[b]);
                    assert(w.contains(w[prev[b] as int]));
                }
            }
            assert forall|i: int| 0 <= i < keys.len() implies exists|m: int|
                0 <= m < f.len() && keys[(#[trigger] f[m]) as int] == #[trigger] keys[i] by {
                if i < keys.len() - 1 {
                    assert(w[i] == keys[i]);
                    let m = choose|m: int| 0 <= m < prev.len() && w[(#[trigger] prev[m]) as int] == w[i];
                    assert(f[m] == prev[m]);
                    assert(keys[f[m] as int] == keys[i]);
                } else {
                    assert(f[prev.len() as int] == last);
                    assert(keys[f[prev.len() as int] as int] == keys[i]);
                }
            }
        }
    }
}

/// Whether item `i` is in one of the groups.
pub open spec fn in_a_group(gs: Seq<Seq<usize>>, i: int) -> bool {
    exists|g: int| 0 <= g < gs.len() && (#[trigger] gs[g]).contains(i as usize)
}

/// Grouping items by key (a source's id) loses none and mixes none: every
/// item is in exactly one group, and every item of a group has the key of
/// that group's first item.
pub proof fn grouping_keeps_each_item_once(keys: Seq<Seq<char>>)
    requires
        keys.len() <= usize::MAX,
    ensures
        forall|g: int, t: int|
            0 <= g < key_groups(keys).len() && 0 <= t < key_groups(keys)[g].len() ==> (#[trigger] key_groups(
                keys,
            )[g][t]) < keys.len() && keys[key_groups(keys)[g][t] as int] == keys[first_occurrences(keys)[g] as int],
        forall|i: int| 0 <= i < keys.len() ==> #[trigger] in_a_group(key_groups(keys), i),
        forall|i: int, g: int, h: int|
            #![trigger key_groups(keys)[g].contains(i as usize), key_groups(keys)[h].contains(i as usize)]
            0 <= i < keys.len() && 0 <= g < key_groups(keys).len() && 0 <= h < key_groups(keys).len()
                && key_groups(keys)[g].contains(i as usize) && key_groups(keys)[h].contains(i as usize) ==> g == h,
{
    let f = first_occurrences(keys);
    let gs = key_groups(keys);
    lemma_first_occurrences(keys);
    lemma_first_occurrences_in_range(keys);
    assert forall|g: int| 0 <= g < gs.len() implies #[trigger] gs[g] == positions_of(keys, keys[f[g] as int]) by {}
    assert forall|g: int, t: int| 0 <= g < gs.len() && 0 <= t < gs[g].len() implies (#[trigger] gs[g][t]) < keys.len()
        && keys[gs[g][t] as int] == keys[f[g] as int] by {
        lemma_positions_of(keys, keys[f[g] as int]);
        assert(gs[g] == positions_of(keys, keys[f[g] as int]));
    }
    assert forall|i: int| 0 <= i < keys.len() implies #[trigger] in_a_group(gs, i) by {
        let m = choose|m: int| 0 <= m < f.len() && keys[(#[trigger] f[m]) as int] == keys[i];
        lemma_positions_of(keys, keys[f[m] as int]);
        assert(gs[m] == positions_of(keys, keys[f[m] as int]));
        assert(gs[m].contains(i as usize));
    }
    assert forall|i: int, g: int, h: int|
        #![trigger gs[g].contains(i as usize), gs[h].contains(i as usize)]
        0 <= i < keys.len() && 0 <= g < gs.len() && 0 <= h < gs.len() && gs[g].contains(i as usize)
            && gs[h].contains(i as usize) implies g == h by {
        lemma_positions_of(keys, keys[f[g] as int]);
        lemma_positions_of(keys, keys[f[h] as int]);
        assert(gs[g] == positions_of(keys, keys[f[g] as int]));
        assert(gs[h] == positions_of(keys, keys[f[h] as int]));
        let a = choose|a: int| 0 <= a < gs[g].len() && gs[g][a] == i as usize;
        let b = choose|b: int| 0 <= b < gs[h].len() && gs[h][b] == i as usize;
        assert(keys[i] == keys[f[g] as int]);
        assert(keys[i] == keys[f[h] as int]);
    }
}


/// What the cache decides for an item: an entry written under the same
/// hint keeps the item with its cached score when it was included, and
/// excludes it when it was not (whatever the hint); an item without an
/// entry, or whose entry was written under another hint, is curated
/// again. An item is kept only from an entry that included it.
pub proof fn the_cache_decides_by_its_entry(entry: Option<CachedEntry>, hint: Option<Seq<char>>)
    ensures
        verdict(entry, hint) matches CacheVerdict::Kept(s) ==> (entry matches Some(e) && e.included && opt_view(
            e.hint_used,
        ) == hint && s == e.score),
        (verdict(entry, hint) == CacheVerdict::Excluded) <==> (entry matches Some(e) && !e.included && opt_view(
            e.hint_used,
        ) == hint),
        (verdict(entry, hint) == CacheVerdict::Stale) <==> (entry is None || (entry matches Some(e) && opt_view(
            e.hint_used,
        ) != hint)),
        entry matches Some(e) ==> (e.included && opt_view(e.hint_used) == hint ==> verdict(entry, hint)
            == CacheVerdict::Kept(e.score)),
{
}

} // verus!
