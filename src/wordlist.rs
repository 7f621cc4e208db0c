//! Reading a word list: lowercase five-letter words separated by whitespace.
use vstd::prelude::*;
use crate::constraint::{all_words, is_valid_word, is_word};
use crate::text::push_char;
use vstd::utf8::{is_ascii_chars, is_ascii_chars_nat_bound};

verus! {

/// The ASCII whitespace characters, which separate the words of a list.
pub open spec fn is_separator(c: char) -> bool {
    c == ' ' || c == '\t' || c == '\n' || c == '\r' || c == '\x0B' || c == '\x0C'
}

/// The maximal runs of non-separator characters of `s`, in order.
pub open spec fn tokens(s: Seq<char>) -> Seq<Seq<char>>
    decreases s.len(),
{
    if s.len() == 0 {
        Seq::empty()
    } else {
        let p = s.drop_last();
        let c = s.last();
        let t = tokens(p);
        if is_separator(c) {
            t
        } else if p.len() == 0 || is_separator(p.last()) {
            t.push(seq![c])
        } else {
            t.update(t.len() - 1, t.last().push(c))
        }
    }
}

/// The text of each string.
pub open spec fn texts(ws: Seq<String>) -> Seq<Seq<char>> {
    ws.map_values(|w: String| w@)
}

/// Why a word list was refused.
#[derive(Clone, Copy, Debug, PartialEq, Eq, Structural)]
pub enum WordListError {
    /// The text holds a character outside ASCII.
    NotAscii,
    /// The entry with this index is not five lowercase letters.
    InvalidWord(usize),
}

/// Tokens finished before a separator stay as they are, whatever follows.
proof fn lemma_tokens_extend(s: Seq<char>, k: int, j: int)
    requires
        0 <= k < j <= s.len(),
        is_separator(s[k]),
    ensures
        ({
            let t = tokens(s.subrange(0, k));
            let u = tokens(s.subrange(0, j));
            &&& u.len() >= t.len()
            &&& u.subrange(0, t.len() as int) == t
            &&& !is_separator(s[j - 1]) ==> u.len() > t.len()
        }),
    decreases j - k,
{
    let t = tokens(s.subrange(0, k));
    let u = tokens(s.subrange(0, j));
    assert(s.subrange(0, j).drop_last() =~= s.subrange(0, j - 1));
    assert(s.subrange(0, j).last() == s[j - 1]);
    if j == k + 1 {
        assert(u.subrange(0, t.len() as int) =~= t);
    } else {
        lemma_tokens_extend(s, k, j - 1);
        let p = tokens(s.subrange(0, j - 1));
        assert(s.subrange(0, j - 1).last() == s[j - 2]);
        if is_separator(s[j - 1]) {
        } else if is_separator(s[j - 2]) {
            assert(u.subrange(0, t.len() as int) =~= p.subrange(0, t.len() as int));
        } else {
            assert(u.subrange(0, t.len() as int) =~= p.subrange(0, t.len() as int));
        }
    }
}

/// Splits `text` at ASCII whitespace into words. Refused when the text is not
/// ASCII, or at the first entry that is not five lowercase letters.
pub fn parse_word_list(text: &str) -> (r: Result<Vec<String>, WordListError>)
    ensures
        !text.is_ascii() <==> r == Err::<Vec<String>, WordListError>(WordListError::NotAscii),
        text.is_ascii() ==> match r {
            Ok(ws) => texts(ws@) == tokens(text@) && all_words(ws@),
            Err(WordListError::InvalidWord(i)) => {
                &&& i < tokens(text@).len()
                &&& !is_word(tokens(text@)[i as int])
                &&& forall|j: int| 0 <= j < i ==> is_word(#[trigger] tokens(text@)[j])
            },
            Err(WordListError::NotAscii) => false,
        },
{
    if !text.is_ascii() {
        return Err(WordListError::NotAscii);
    }
    let bytes = text.as_bytes();
    let ghost s = text@;
    assert(bytes@ =~= Seq::new(s.len(), |i: int| s[i] as u8));
    let n = bytes.len();
    let mut out: Vec<String> = Vec::new();
    let mut cur = String::new();
    let mut k: usize = 0;
    assert(s.subrange(0, 0) =~= Seq::<char>::empty());
    assert(texts(out@) =~= Seq::<Seq<char>>::empty());
    while k < n
        invariant
            n == s.len(),
            s == text@,
            bytes@ == Seq::new(s.len(), |i: int| s[i] as u8),
            is_ascii_chars(s),
            k <= n,
            all_words(out@),
            cur@.len() > 0 <==> (k > 0 && !is_separator(s[k - 1])),
            tokens(s.subrange(0, k as int)) == if cur@.len() > 0 {
                texts(out@).push(cur@)
            } else {
                texts(out@)
            },
        decreases n - k,
    {
        let b = bytes[k];
        let c = b as char;
        assert(c == s[k as int]) by {
            is_ascii_chars_nat_bound(s);
            assert(bytes@[k as int] == s[k as int] as u8);
        }
        let ghost pre = s.subrange(0, k as int);
        let ghost next = s.subrange(0, k + 1);
        assert(next.drop_last() =~= pre);
        assert(next.last() == c);
        if k > 0 {
            assert(pre.last() == s[k - 1]);
        }
        if c == ' ' || c == '\t' || c == '\n' || c == '\r' || c == '\x0B' || c == '\x0C' {
            if cur.as_str().unicode_len() > 0 {
                if !is_valid_word(&cur) {
                    proof {
                        lemma_tokens_extend(s, k as int, n as int);
                        assert(s.subrange(0, n as int) =~= s);
                        let t = texts(out@).push(cur@);
                        assert(tokens(s).subrange(0, t.len() as int)[out@.len() as int] == cur@);
                        assert forall|j: int| 0 <= j < out@.len() implies is_word(
                            #[trigger] tokens(s)[j],
                        ) by {
                            assert(tokens(s).subrange(0, t.len() as int)[j] == out@[j]@);
                        }
                    }
                    return Err(WordListError::InvalidWord(out.len()));
                }
                let ghost before = out@;
                out.push(cur);
                cur = String::new();
                assert(texts(out@) =~= texts(before).push(out@.last()@));
            }
        } else {
            let ghost old_cur = cur@;
            push_char(&mut cur, c);
            proof {
                if old_cur.len() == 0 {
                    assert(cur@ =~= seq![c]);
                }
            }
        }
        k = k + 1;
    }
    assert(s.subrange(0, n as int) =~= s);
    if cur.as_str().unicode_len() > 0 {
        if !is_valid_word(&cur) {
            return Err(WordListError::InvalidWord(out.len()));
        }
        let ghost before = out@;
        out.push(cur);
        assert(texts(out@) =~= texts(before).push(out@.last()@));
    }
    Ok(out)
}

} // verus!
