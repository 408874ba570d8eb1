use vstd::prelude::*;

verus! {

/// Scale between an oracle score and the integer that stands for it here:
/// a score is held in thousandths, rounded down.
pub const SCORE_SCALE: i64 = 1000;

/// One entry of the relevance oracle's answer: the index of a document and
/// its score in thousandths (higher is more relevant).
#[derive(Clone, Copy, Debug, PartialEq, Eq, Structural)]
pub struct ScoredDocument {
    pub document: usize,
    pub score_millis: i64,
}

/// Index of the highest-scored entry of a non-empty answer, found by a
/// left-to-right scan in which a later entry replaces the best so far only
/// when its score is strictly higher: the first of equal maxima wins.
pub open spec fn best_entry(results: Seq<ScoredDocument>) -> int
    decreases results.len(),
{
    if results.len() <= 1 {
        0
    } else {
        let b = best_entry(results.drop_last());
        if results[b].score_millis < results.last().score_millis {
            results.len() - 1
        } else {
            b
        }
    }
}

/// The lowest score, in thousandths, that clears a minimum score.
pub open spec fn threshold_millis(minimum_score: u16) -> int {
    minimum_score * SCORE_SCALE
}

/// The document chosen from an answer: the best entry, if there is one, if
/// its score clears the minimum and if it names one of `n_documents`.
pub open spec fn chosen_document(
    results: Seq<ScoredDocument>,
    minimum_score: u16,
    n_documents: nat,
) -> Option<nat> {
    if results.len() == 0 {
        None
    } else {
        let best = results[best_entry(results)];
        if best.score_millis < threshold_millis(minimum_score) || best.document >= n_documents {
            None
        } else {
            Some(best.document as nat)
        }
    }
}

/// The best entry holds a maximum score, and every entry before it scores
/// strictly less.
pub proof fn lemma_best_entry(results: Seq<ScoredDocument>)
    requires
        results.len() >= 1,
    ensures
        0 <= best_entry(results) < results.len(),
        forall|j: int|
            0 <= j < results.len() ==> #[trigger] results[j].score_millis
                <= results[best_entry(results)].score_millis,
        forall|j: int|
            0 <= j < best_entry(results) ==> #[trigger] results[j].score_millis
                < results[best_entry(results)].score_millis,
    decreases results.len(),
{
    if results.len() > 1 {
        let init = results.drop_last();
        lemma_best_entry(init);
        assert forall|j: int| 0 <= j < init.len() implies init[j] == results[j] by {}
    }
}

/// Scans an answer for its best entry.
pub fn best_of(results: &Vec<ScoredDocument>) -> (r: usize)
    requires
        results.len() >= 1,
    ensures
        r == best_entry(results@),
{
    let mut best: usize = 0;
    let mut i: usize = 1;
    proof {
        assert(results@.take(1).len() == 1);
    }
    while i < results.len()
        invariant
            1 <= i <= results.len(),
            best == best_entry(results@.take(i as int)),
            best < i,
        decreases results.len() - i,
    {
        proof {
            let t = results@.take(i as int + 1);
            assert(t.drop_last() =~= results@.take(i as int));
            assert(t.last() == results@[i as int]);
            lemma_best_entry(results@.take(i as int));
            assert(t[best as int] == results@[best as int]);
        }
        if results[best].score_millis < results[i].score_millis {
            best = i;
        }
        i = i + 1;
    }
    proof {
        assert(results@.take(results.len() as int) =~= results@);
    }
    best
}

/// Picks the document to answer with from the oracle's answer, or none.
pub fn choose_document(results: &Vec<ScoredDocument>, minimum_score: u16, n_documents: usize) -> (r:
    Option<usize>)
    ensures
        r matches Some(d) ==> chosen_document(results@, minimum_score, n_documents as nat) == Some(
            d as nat,
        ),
        r is None ==> chosen_document(results@, minimum_score, n_documents as nat) is None,
{
    if results.len() == 0 {
        return None;
    }
    let b = best_of(results);
    proof {
        lemma_best_entry(results@);
    }
    let best = results[b];
    let threshold: i64 = minimum_score as i64 * SCORE_SCALE;
    if best.score_millis < threshold || best.document >= n_documents {
        None
    } else {
        Some(best.document)
    }
}

} // verus!
