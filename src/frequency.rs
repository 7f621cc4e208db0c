//! Letter counts per position over a word list.
use vstd::prelude::*;
use crate::constraint::{all_words, is_letter, is_word};

verus! {

/// The letter of the alphabet at index `d` (0 is `a`).
pub open spec fn letter(d: int) -> char {
    (d + 97) as char
}

/// The index in the alphabet of a lowercase letter.
pub open spec fn letter_index(c: char) -> int {
    c as int - 97
}

/// Where the count of letter index `d` at position `i` sits in a flat table.
pub open spec fn cell(i: int, d: int) -> int {
    i * 26 + d
}

/// How many words of `ws` hold `c` at position `i`.
pub open spec fn count_at(ws: Seq<String>, i: int, c: char) -> nat {
    ws.filter(|w: String| w@[i] == c).len()
}

/// A flat table of 5 x 26 counts: the count of letter index `d` at position
/// `i` over `ws` is at `cell(i, d)`.
pub open spec fn is_count_table(t: Seq<usize>, ws: Seq<String>) -> bool {
    &&& t.len() == 130
    &&& forall|i: int, d: int|
        0 <= i < 5 && 0 <= d < 26 ==> #[trigger] t[cell(i, d)] == count_at(ws, i, letter(d))
}

/// A lowercase letter has an index in the alphabet that maps back to it.
pub proof fn lemma_letter_round_trip(c: char)
    requires
        is_letter(c),
    ensures
        0 <= letter_index(c) < 26,
        letter(letter_index(c)) == c,
{
}

/// Every index in the alphabet names a lowercase letter.
pub proof fn lemma_letter_is_letter(d: int)
    requires
        0 <= d < 26,
    ensures
        is_letter(letter(d)),
        letter_index(letter(d)) == d,
{
}

/// Adding a word adds one to the count of its own letter at each position.
proof fn lemma_count_push(ws: Seq<String>, w: String, i: int, c: char)
    ensures
        count_at(ws.push(w), i, c) == count_at(ws, i, c) + (if w@[i] == c {
            1nat
        } else {
            0nat
        }),
{
    reveal(Seq::filter);
    assert(ws.push(w).drop_last() =~= ws);
}

/// No count exceeds the number of words.
pub proof fn lemma_count_bounded(ws: Seq<String>, i: int, c: char)
    ensures
        count_at(ws, i, c) <= ws.len(),
{
    ws.lemma_filter_len(|w: String| w@[i] == c);
}

/// Counts, for every position and letter, how many words hold that letter there.
pub fn position_counts(words: &Vec<String>) -> (t: Vec<usize>)
    requires
        all_words(words@),
    ensures
        is_count_table(t@, words@),
{
    let mut t: Vec<usize> = Vec::new();
    let mut z: usize = 0;
    while z < 130
        invariant
            z <= 130,
            t@.len() == z,
            forall|j: int| 0 <= j < z ==> t@[j] == 0,
        decreases 130 - z,
    {
        t.push(0);
        z = z + 1;
    }
    proof {
        assert forall|i: int, d: int| 0 <= i < 5 && 0 <= d < 26 implies #[trigger] t@[cell(i, d)]
            == count_at(words@.subrange(0, 0), i, letter(d)) by {
            reveal(Seq::filter);
        }
    }
    let mut k: usize = 0;
    while k < words.len()
        invariant
            all_words(words@),
            k <= words@.len(),
            is_count_table(t@, words@.subrange(0, k as int)),
        decreases words@.len() - k,
    {
        let w = words[k].as_str();
        let ghost prefix = words@.subrange(0, k as int);
        let ghost before = t@;
        assert(is_word(words@[k as int]@));
        let mut i: usize = 0;
        while i < 5
            invariant
                w@ == words@[k as int]@,
                is_word(w@),
                i <= 5,
                t@.len() == 130,
                forall|p: int, d: int|
                    0 <= p < 5 && 0 <= d < 26 ==> #[trigger] t@[cell(p, d)] == before[cell(p, d)]
                        + (if p < i && w@[p] == letter(d) {
                        1int
                    } else {
                        0int
                    }),
                forall|p: int, d: int|
                    0 <= p < 5 && 0 <= d < 26 ==> #[trigger] before[cell(p, d)] == count_at(
                        prefix,
                        p,
                        letter(d),
                    ),
                forall|p: int, d: int|
                    0 <= p < 5 && 0 <= d < 26 ==> count_at(prefix, p, letter(d)) <= prefix.len(),
                prefix.len() == k,
                k < words@.len(),
                words@.len() <= usize::MAX,
                before.len() == 130,
            decreases 5 - i,
        {
            let c = w.get_char(i);
            let d = (c as u32 - 97) as usize;
            proof {
                lemma_letter_round_trip(c);
            }
            let idx = i * 26 + d;
            assert(t@[cell(i as int, d as int)] <= k) by {
                assert(count_at(prefix, i as int, letter(d as int)) <= prefix.len());
            }
            t.set(idx, t[idx] + 1);
            proof {
                assert forall|p: int, e: int| 0 <= p < 5 && 0 <= e < 26 implies #[trigger] t@[cell(
                    p,
                    e,
                )] == before[cell(p, e)] + (if p < i + 1 && w@[p] == letter(e) {
                    1int
                } else {
                    0int
                }) by {
                    if p == i && e == d {
                    } else {
                        assert(cell(p, e) != cell(i as int, d as int));
                        if p == i {
                            lemma_letter_is_letter(e);
                        }
                    }
                }
            }
            i = i + 1;
        }
        proof {
            let next = words@.subrange(0, k + 1);
            assert(next =~= prefix.push(words@[k as int]));
            assert forall|p: int, d: int| 0 <= p < 5 && 0 <= d < 26 implies #[trigger] t@[cell(p, d)]
                == count_at(next, p, letter(d)) by {
                lemma_count_push(prefix, words@[k as int], p, letter(d));
            }
            assert forall|p: int, d: int|
                0 <= p < 5 && 0 <= d < 26 implies count_at(next, p, letter(d)) <= next.len() by {
                lemma_count_bounded(next, p, letter(d));
            }
        }
        k = k + 1;
    }
    assert(words@.subrange(0, words@.len() as int) =~= words@);
    t
}

} // verus!
