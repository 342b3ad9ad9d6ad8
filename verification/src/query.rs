//! The query facade: consults every configured store in declared order and
//! returns the first definition found, or the sentinel `"not found"`.

use vstd::prelude::*;

use crate::MdxError;
use crate::store::{store_open, store_query_first};

verus! {

/// The form a query arrives in: one word.
#[derive(Debug)]
pub struct QueryForm {
    pub word: String,
}

/// The views of per-store lookup results.
pub open spec fn hits_view(v: Seq<Option<String>>) -> Seq<Option<Seq<char>>> {
    v.map_values(
        |o: Option<String>|
            match o {
                Some(s) => Some(s@),
                None => None,
            },
    )
}

/// The resolution rule from position `k` on: the first present result wins;
/// with none present the sentinel is returned.
pub open spec fn resolve_from(hits: Seq<Option<Seq<char>>>, k: int) -> Seq<char>
    decreases hits.len() + 1 - k when 0 <= k
{
    if k < 0 || k >= hits.len() {
        "not found"@
    } else {
        match hits[k] {
            Some(d) => d,
            None => resolve_from(hits, k + 1),
        }
    }
}

/// What the query facade makes of the per-store results, in declared order.
pub open spec fn resolve_spec(hits: Seq<Option<Seq<char>>>) -> Seq<char> {
    resolve_from(hits, 0)
}

/// Picks the first present result, or the sentinel.
pub fn resolve_first(hits: &Vec<Option<String>>) -> (r: String)
    ensures
        r@ == resolve_spec(hits_view(hits@)),
{
    let n = hits.len();
    let mut k: usize = 0;
    while k < n
        invariant
            0 <= k <= n,
            n == hits@.len(),
            resolve_spec(hits_view(hits@)) == resolve_from(hits_view(hits@), k as int),
        decreases n - k,
    {
        match &hits[k] {
            Some(s) => {
                proof {
                    assert(hits_view(hits@)[k as int] == Some(s@));
                }
                return s.clone();
            },
            None => {
                proof {
                    assert(hits_view(hits@)[k as int] is None);
                }
            },
        }
        k = k + 1;
    }
    "not found".to_owned()
}

/// Law: a word that no store holds resolves to the sentinel `"not found"`.
pub proof fn lemma_unknown_word_not_found(hits: Seq<Option<Seq<char>>>, k: int)
    requires
        0 <= k,
        forall|i: int| 0 <= i < hits.len() ==> hits[i] is None,
    ensures
        resolve_from(hits, k) == "not found"@,
    decreases hits.len() + 1 - k,
{
    if k < hits.len() {
        lemma_unknown_word_not_found(hits, k + 1);
    }
}

/// Law: with the same headword present in several dictionaries, the first
/// one in declared order decides the answer.
pub proof fn lemma_first_dictionary_wins(hits: Seq<Option<Seq<char>>>, i: int)
    requires
        0 <= i < hits.len(),
        hits[i] is Some,
        forall|j: int| 0 <= j < i ==> hits[j] is None,
    ensures
        resolve_spec(hits) == hits[i].unwrap(),
{
    lemma_first_hit_wins_from(hits, 0, i);
}

proof fn lemma_first_hit_wins_from(hits: Seq<Option<Seq<char>>>, k: int, i: int)
    requires
        0 <= k <= i < hits.len(),
        hits[i] is Some,
        forall|j: int| 0 <= j < i ==> hits[j] is None,
    ensures
        resolve_from(hits, k) == hits[i].unwrap(),
    decreases i - k,
{
    if k < i {
        lemma_first_hit_wins_from(hits, k + 1, i);
    }
}

/// The configured dictionaries' stores, in declared order.
pub struct DictionarySet {
    stores: Vec<rusqlite::Connection>,
}

impl DictionarySet {
    /// How many stores are configured.
    pub closed spec fn len_spec(&self) -> nat {
        self.stores@.len()
    }

    /// Opens the store at each path, in the declared order.
    pub fn open(paths: &Vec<String>) -> (r: Result<DictionarySet, MdxError>)
        ensures
            match r {
                Ok(d) => d.len_spec() == paths@.len(),
                Err(e) => e == MdxError::StoreError,
            },
    {
        let mut stores: Vec<rusqlite::Connection> = Vec::new();
        let n = paths.len();
        let mut k: usize = 0;
        while k < n
            invariant
                0 <= k <= n,
                n == paths@.len(),
                stores@.len() == k,
            decreases n - k,
        {
            let conn = match store_open(paths[k].as_str()) {
                Some(c) => c,
                None => {
                    return Err(MdxError::StoreError);
                },
            };
            stores.push(conn);
            k = k + 1;
        }
        Ok(DictionarySet { stores })
    }

    /// Asks every store for the word, in declared order. What each store
    /// answers depends on the disk; the resolution of the answers is
    /// [`resolve_first`].
    fn gather(&self, word: &str) -> (r: Vec<Option<String>>)
        ensures
            r@.len() == self.len_spec(),
    {
        let n = self.stores.len();
        let mut hits: Vec<Option<String>> = Vec::new();
        let mut k: usize = 0;
        while k < n
            invariant
                0 <= k <= n,
                n == self.stores@.len(),
                hits@.len() == k,
            decreases n - k,
        {
            let hit = store_query_first(
                &self.stores[k],
                "select def from MDX_INDEX where text = ?1 limit 1",
                word,
            );
            hits.push(hit);
            k = k + 1;
        }
        hits
    }

    /// Returns the first definition that any store holds for `word`, in
    /// declared order, or the sentinel `"not found"`: whatever the stores
    /// answer, the result is the resolution of one answer per configured
    /// store, in order.
    pub fn query(&self, word: &str) -> (r: String)
        ensures
            exists|hits: Seq<Option<Seq<char>>>|
                hits.len() == self.len_spec() && r@ == resolve_spec(hits),
    {
        let hits = self.gather(word);
        let r = resolve_first(&hits);
        proof {
            assert(hits_view(hits@).len() == self.len_spec() && r@ == resolve_spec(
                hits_view(hits@),
            ));
        }
        r
    }
}

} // verus!
