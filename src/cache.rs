//! Remembering the chosen strategy for a word list, keyed by a digest of its text.
use vstd::prelude::*;
use crate::constraint::all_words;
use crate::evaluate::{Selection, choose_optimal_strategy, is_winner, solved_count, strategy_order};
use crate::opening::{Strategy, opening_for};
use crate::ranking::scores_fit;
use vstd::string::StringSliceAdditionalSpecFns;

verus! {

/// The BLAKE3 digest of a byte string.
pub uninterp spec fn blake3_digest(bytes: Seq<u8>) -> Seq<u8>;

/// Relies on `blake3::hash`: the 32-byte BLAKE3 digest of the input, which
/// depends on the input bytes alone.
#[verifier::external_body]
fn content_digest(bytes: &[u8]) -> (d: Vec<u8>)
    ensures
        d@ == blake3_digest(bytes@),
        d@.len() == 32,
{
    blake3::hash(bytes).as_bytes().to_vec()
}

/// Whether two byte strings are equal.
fn same_bytes(a: &Vec<u8>, b: &Vec<u8>) -> (r: bool)
    ensures
        r == (a@ == b@),
{
    if a.len() != b.len() {
        return false;
    }
    let mut k: usize = 0;
    while k < a.len()
        invariant
            a@.len() == b@.len(),
            k <= a@.len(),
            forall|j: int| 0 <= j < k ==> a@[j] == b@[j],
        decreases a@.len() - k,
    {
        if a[k] != b[k] {
            return false;
        }
        k = k + 1;
    }
    assert(a@ =~= b@);
    true
}

/// One remembered choice: the strategy and opening guess for a word list.
#[derive(Clone, Debug)]
pub struct CacheEntry {
    pub digest: Vec<u8>,
    pub strategy: Strategy,
    pub opening: String,
}

/// Remembered choices; a later entry for a digest hides earlier ones.
#[derive(Clone, Debug)]
pub struct StrategyCache {
    pub entries: Vec<CacheEntry>,
}

/// The newest entry of `es` recorded for digest `d`, if any.
pub open spec fn entry_for(es: Seq<CacheEntry>, d: Seq<u8>) -> Option<(Strategy, Seq<char>)>
    decreases es.len(),
{
    if es.len() == 0 {
        None
    } else if es.last().digest@ == d {
        Some((es.last().strategy, es.last().opening@))
    } else {
        entry_for(es.drop_last(), d)
    }
}

impl StrategyCache {
    /// What the cache holds for each digest.
    pub open spec fn lookup_spec(&self, d: Seq<u8>) -> Option<(Strategy, Seq<char>)> {
        entry_for(self.entries@, d)
    }

    /// An empty cache.
    pub fn new() -> (c: StrategyCache)
        ensures
            forall|d: Seq<u8>| #[trigger] c.lookup_spec(d) is None,
    {
        StrategyCache { entries: Vec::new() }
    }

    /// The strategy and opening guess remembered for `digest`.
    pub fn lookup(&self, digest: &Vec<u8>) -> (r: Option<(Strategy, String)>)
        ensures
            match r {
                Some((s, g)) => self.lookup_spec(digest@) == Some((s, g@)),
                None => self.lookup_spec(digest@) is None,
            },
    {
        let mut k: usize = self.entries.len();
        assert(self.entries@.subrange(0, k as int) =~= self.entries@);
        while k > 0
            invariant
                k <= self.entries@.len(),
                entry_for(self.entries@, digest@) == entry_for(
                    self.entries@.subrange(0, k as int),
                    digest@,
                ),
            decreases k,
        {
            let e = &self.entries[k - 1];
            let ghost pre = self.entries@.subrange(0, k as int);
            assert(pre.last() == self.entries@[k - 1]);
            if same_bytes(&e.digest, digest) {
                return Some((e.strategy, e.opening.clone()));
            }
            assert(pre.drop_last() =~= self.entries@.subrange(0, k - 1));
            k = k - 1;
        }
        assert(self.entries@.subrange(0, 0) =~= Seq::<CacheEntry>::empty());
        None
    }

    /// Remembers `strategy` and `opening` for `digest`; other digests keep
    /// what they had.
    pub fn insert(&mut self, digest: Vec<u8>, strategy: Strategy, opening: String)
        ensures
            final(self).lookup_spec(digest@) == Some((strategy, opening@)),
            forall|d: Seq<u8>|
                d != digest@ ==> #[trigger] final(self).lookup_spec(d) == old(self).lookup_spec(d),
    {
        let ghost before = self.entries@;
        let ghost d0 = digest@;
        let ghost g0 = opening@;
        self.entries.push(CacheEntry { digest, strategy, opening });
        assert(self.entries@.drop_last() =~= before);
        assert(self.entries@.last().digest@ == d0);
        assert(self.entries@.last().opening@ == g0);
    }
}

/// A word list's strategy: remembered, or chosen now.
#[derive(Clone, Debug)]
pub enum Resolution {
    /// Found in the cache.
    Cached { strategy: Strategy, opening: String },
    /// Chosen by playing the whole list, and then remembered.
    Computed(Selection),
}

/// What `choose_optimal_strategy` promises of its result.
pub open spec fn is_selection_for(ws: Seq<String>, r: Selection) -> bool {
    &&& r.outcomes@.len() == 3
    &&& forall|j: int| 0 <= j < 3 ==> (#[trigger] r.outcomes@[j]).strategy == strategy_order()[j]
    &&& forall|j: int|
        0 <= j < 3 ==> opening_for(ws, (#[trigger] r.outcomes@[j]).strategy, r.outcomes@[j].opening@)
    &&& forall|j: int|
        0 <= j < 3 ==> (#[trigger] r.outcomes@[j]).solved == solved_count(ws, r.outcomes@[j].opening@)
    &&& forall|j: int| 0 <= j < 3 ==> (#[trigger] r.outcomes@[j]).solved <= ws.len()
    &&& exists|w: int|
        #[trigger] is_winner(r.outcomes@, w) && r.strategy == r.outcomes@[w].strategy && r.opening
            == r.outcomes@[w].opening
}

/// Returns the strategy remembered for `digest`; when there is none, chooses
/// one over `words` and remembers it under `digest`.
pub fn resolve_strategy(cache: &mut StrategyCache, digest: Vec<u8>, words: &Vec<String>) -> (r:
    Resolution)
    requires
        all_words(words@),
        scores_fit(words@.len() as int),
    ensures
        match old(cache).lookup_spec(digest@) {
            Some((s, g)) => {
                &&& r matches Resolution::Cached { strategy, opening } && strategy == s
                    && opening@ == g
                &&& final(cache).lookup_spec(digest@) == Some((s, g))
            },
            None => {
                &&& r matches Resolution::Computed(sel) && is_selection_for(words@, sel)
                    && final(cache).lookup_spec(digest@) == Some((sel.strategy, sel.opening@))
            },
        },
        forall|d: Seq<u8>|
            d != digest@ ==> #[trigger] final(cache).lookup_spec(d) == old(cache).lookup_spec(d),
{
    match cache.lookup(&digest) {
        Some((strategy, opening)) => Resolution::Cached { strategy, opening },
        None => {
            let sel = choose_optimal_strategy(words);
            let ghost d = digest@;
            cache.insert(digest, sel.strategy, sel.opening.clone());
            assert(cache.lookup_spec(d) == Some((sel.strategy, sel.opening@)));
            Resolution::Computed(sel)
        },
    }
}

/// Returns the strategy for the word list whose text is `text` and whose
/// words are `words`, keyed in the cache by the BLAKE3 digest of the text.
pub fn strategy_for_word_list(cache: &mut StrategyCache, text: &str, words: &Vec<String>) -> (r:
    Resolution)
    requires
        all_words(words@),
        scores_fit(words@.len() as int),
    ensures
        ({
            let d = blake3_digest(text.spec_bytes());
            &&& match old(cache).lookup_spec(d) {
                Some((s, g)) => {
                    &&& r matches Resolution::Cached { strategy, opening } && strategy == s
                        && opening@ == g
                    &&& final(cache).lookup_spec(d) == Some((s, g))
                },
                None => {
                    &&& r matches Resolution::Computed(sel) && is_selection_for(words@, sel)
                        && final(cache).lookup_spec(d) == Some((sel.strategy, sel.opening@))
                },
            }
            &&& forall|e: Seq<u8>|
                e != d ==> #[trigger] final(cache).lookup_spec(e) == old(cache).lookup_spec(e)
        }),
{
    let digest = content_digest(text.as_bytes());
    resolve_strategy(cache, digest, words)
}

/// A choice recorded for a digest is exactly what a later lookup of that
/// digest returns, and recording it leaves every other digest as it was.
pub proof fn lemma_cache_round_trip(es: Seq<CacheEntry>, e: CacheEntry)
    ensures
        entry_for(es.push(e), e.digest@) == Some((e.strategy, e.opening@)),
        forall|d: Seq<u8>| d != e.digest@ ==> #[trigger] entry_for(es.push(e), d) == entry_for(es, d),
{
    assert(es.push(e).drop_last() =~= es);
}

} // verus!
