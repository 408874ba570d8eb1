use vstd::prelude::*;

verus! {

/// `items` joined with `sep` between consecutive items.
pub open spec fn join_with(items: Seq<Seq<char>>, sep: Seq<char>) -> Seq<char>
    decreases items.len(),
{
    if items.len() == 0 {
        Seq::empty()
    } else if items.len() == 1 {
        items[0]
    } else {
        join_with(items.drop_last(), sep) + sep + items.last()
    }
}

/// A history delivered newest first, put back in chronological order.
pub open spec fn chronological(history: Seq<Seq<char>>) -> Seq<Seq<char>> {
    Seq::new(history.len(), |i: int| history[history.len() - 1 - i])
}

/// The messages of a newest-first history, oldest first, joined by one space.
pub open spec fn merged_history(history: Seq<Seq<char>>) -> Seq<char> {
    join_with(chronological(history), seq![' '])
}

/// A word starts at `k`: the text starts there or a space precedes it.
pub open spec fn is_word_start(text: Seq<char>, k: int) -> bool {
    k == 0 || text[k - 1] == ' '
}

/// The first word start at or after `k`, or the text's length if none.
pub open spec fn next_word_start(text: Seq<char>, k: int) -> int
    decreases text.len() - k,
{
    if k >= text.len() {
        text.len() as int
    } else if is_word_start(text, k) {
        k
    } else {
        next_word_start(text, k + 1)
    }
}

/// Where the shortest suffix of at most `budget` characters starts.
pub open spec fn budget_start(text: Seq<char>, budget: nat) -> int {
    if text.len() <= budget {
        0
    } else {
        text.len() - budget
    }
}

/// Where the window starts: at the earliest word start that leaves at most
/// `budget` characters, or, when no word fits, wherever `budget` characters
/// still fit.
pub open spec fn window_start(text: Seq<char>, budget: nat) -> int {
    let b = budget_start(text, budget);
    let w = next_word_start(text, b);
    if w < text.len() {
        w
    } else {
        b
    }
}

/// The longest suffix of `text` within `budget` characters that begins at a
/// word, or the longest suffix that fits when no whole word does.
pub open spec fn context_window(text: Seq<char>, budget: nat) -> Seq<char> {
    text.subrange(window_start(text, budget), text.len() as int)
}

proof fn lemma_next_word_start(text: Seq<char>, k: int)
    requires
        0 <= k <= text.len(),
    ensures
        k <= next_word_start(text, k) <= text.len(),
        next_word_start(text, k) < text.len() ==> is_word_start(text, next_word_start(text, k)),
        forall|j: int| k <= j < next_word_start(text, k) ==> !is_word_start(text, j),
    decreases text.len() - k,
{
    if k < text.len() && !is_word_start(text, k) {
        lemma_next_word_start(text, k + 1);
    }
}

/// The window starts inside the text, and at a word whenever a word fits.
pub proof fn lemma_window_start(text: Seq<char>, budget: nat)
    ensures
        0 <= window_start(text, budget) <= text.len(),
        text.len() - window_start(text, budget) <= budget,
        budget >= 1 && text.len() >= 1 ==> window_start(text, budget) < text.len(),
        forall|j: int|
            #![trigger is_word_start(text, j)]
            0 <= j < window_start(text, budget) && text.len() - j <= budget ==> !is_word_start(
                text,
                j,
            ),
{
    lemma_next_word_start(text, budget_start(text, budget));
}

/// For every history and every budget, the context window holds at most
/// `budget` characters, and it is empty only when nothing fits: when the
/// budget is zero or the history holds no character.
pub proof fn lemma_window_within_budget(history: Seq<Seq<char>>, budget: nat)
    ensures
        context_window(merged_history(history), budget).len() <= budget,
        budget >= 1 && merged_history(history).len() >= 1 ==> context_window(
            merged_history(history),
            budget,
        ).len() >= 1,
{
    lemma_window_start(merged_history(history), budget);
}

/// Joins the messages of a newest-first history in chronological order,
/// separated by single spaces.
pub fn merge_history(history: &Vec<String>) -> (r: String)
    ensures
        r@ == merged_history(history@.map_values(|m: String| m@)),
{
    let ghost h = history@.map_values(|m: String| m@);
    let ghost chrono = chronological(h);
    let n = history.len();
    let mut merged = String::new();
    let mut i: usize = 0;
    proof {
        reveal_strlit(" ");
        assert(chrono.take(0) =~= Seq::<Seq<char>>::empty());
    }
    while i < n
        invariant
            n == history.len(),
            h == history@.map_values(|m: String| m@),
            chrono == chronological(h),
            0 <= i <= n,
            merged@ == join_with(chrono.take(i as int), seq![' ']),
        decreases n - i,
    {
        let m = &history[n - 1 - i];
        proof {
            assert(chrono.take(i + 1).drop_last() =~= chrono.take(i as int));
            assert(chrono.take(i + 1).last() == m@);
        }
        if i > 0 {
            merged.append(" ");
        }
        merged.append(m.as_str());
        proof {
            if i == 0 {
                assert(chrono.take(1)[0] == m@);
                assert(merged@ =~= join_with(chrono.take(1), seq![' ']));
            } else {
                reveal_strlit(" ");
                assert(" "@ =~= seq![' ']);
            }
        }
        i = i + 1;
    }
    proof {
        assert(chrono.take(n as int) =~= chrono);
    }
    merged
}

/// Cuts `text` down to its context window of `budget` characters.
pub fn window_of(text: &str, budget: usize) -> (r: String)
    ensures
        r@ == context_window(text@, budget as nat),
        r@.len() <= budget,
{
    proof {
        lemma_window_start(text@, budget as nat);
    }
    let len = text.unicode_len();
    let b: usize = if len <= budget {
        0
    } else {
        len - budget
    };
    let mut k: usize = b;
    while k < len && !(k == 0 || text.get_char(k - 1) == ' ')
        invariant
            len == text@.len(),
            b == budget_start(text@, budget as nat),
            b <= k <= len,
            next_word_start(text@, b as int) == next_word_start(text@, k as int),
        decreases len - k,
    {
        k = k + 1;
    }
    let start = if k < len {
        k
    } else {
        b
    };
    String::from_str(text.substring_char(start, len))
}

/// Builds the query from a newest-first history: the messages are merged in
/// chronological order and cut to the window of `budget` characters.
pub fn build_context(history: &Vec<String>, budget: usize) -> (r: String)
    ensures
        r@ == context_window(merged_history(history@.map_values(|m: String| m@)), budget as nat),
        r@.len() <= budget,
{
    let merged = merge_history(history);
    window_of(merged.as_str(), budget)
}

} // verus!
