//! The word supply: a list of words, one per line of a dictionary file, and
//! practice text made of words picked from it at random.

use crate::unicode::{chars_of, push_char, string_of};
use rand::seq::IteratorRandom;
use vstd::prelude::*;

verus! {

/// The most words that are picked at once: the random pick reserves room
/// for all its picks before it begins.
pub const MAX_PICKS: usize = 0x0FFF_FFFF;

/// How many code points stand between `from` and the next line feed, or the
/// end of the text.
pub open spec fn line_length(s: Seq<char>, from: nat) -> nat
    decreases s.len() - from,
{
    if from >= s.len() || s[from as int] == '\n' {
        0
    } else {
        1 + line_length(s, from + 1)
    }
}

/// A line without the carriage return that may end it.
pub open spec fn strip_cr(line: Seq<char>) -> Seq<char> {
    if line.len() > 0 && line.last() == '\r' {
        line.drop_last()
    } else {
        line
    }
}

/// The lines of `s` from index `from` on. A line ends with a line feed, or
/// with a carriage return and a line feed, neither of which belongs to it;
/// what follows the last line feed is a line too, unless it is empty.
pub open spec fn lines_from(s: Seq<char>, from: nat) -> Seq<Seq<char>>
    decreases s.len() - from,
{
    if from >= s.len() {
        Seq::empty()
    } else {
        let end = from + line_length(s, from);
        if end >= s.len() {
            seq![s.subrange(from as int, s.len() as int)]
        } else {
            seq![strip_cr(s.subrange(from as int, end as int))] + lines_from(s, end + 1)
        }
    }
}

/// The lines of `s`.
pub open spec fn lines(s: Seq<char>) -> Seq<Seq<char>> {
    lines_from(s, 0)
}

/// The first `limit` lines of `s`, or all of them where it has fewer.
pub open spec fn first_lines(s: Seq<char>, limit: nat) -> Seq<Seq<char>> {
    if lines(s).len() <= limit {
        lines(s)
    } else {
        lines(s).take(limit as int)
    }
}

/// The words joined by single spaces.
pub open spec fn joined(words: Seq<Seq<char>>) -> Seq<char>
    decreases words.len(),
{
    if words.len() == 0 {
        Seq::empty()
    } else if words.len() == 1 {
        words[0]
    } else {
        joined(words.drop_last()) + seq![' '] + words.last()
    }
}

/// The code points of each word.
pub open spec fn word_views(words: Seq<String>) -> Seq<Seq<char>> {
    words.map_values(|w: String| w@)
}

/// The words at the picked indices, in the order of the picks.
pub open spec fn picked(words: Seq<Seq<char>>, picks: Seq<usize>) -> Seq<Seq<char>> {
    picks.map_values(|i: usize| words[i as int])
}

/// The picks are indices below `len`, and no index is picked twice.
pub open spec fn distinct_below(picks: Seq<usize>, len: nat) -> bool {
    &&& forall|i: int| 0 <= i < picks.len() ==> #[trigger] picks[i] < len
    &&& forall|i: int, j: int| 0 <= i < j < picks.len() ==> picks[i] != picks[j]
}

/// `rand::rngs::ThreadRng`, the handle to the random number generator of
/// the current thread. Nothing is known of what it holds.
#[verifier::external_type_specification]
#[verifier::external_body]
pub struct ExThreadRng(rand::rngs::ThreadRng);

/// `rand::rng`: a handle to the generator of the current thread. The first
/// call in a thread seeds the generator from the operating system, and
/// panics where that has no random numbers to give.
#[verifier::external_body]
fn thread_rng() -> rand::rngs::ThreadRng {
    rand::rng()
}

/// `rand::seq::IteratorRandom::choose_multiple` on the indices `0..len`: it
/// hands back `amount` of the indices, each at most once, in no particular
/// order. Which ones is left to chance. The amount is bounded because the
/// call reserves room for that many picks at once.
#[verifier::external_body]
fn choose_indices(rng: &mut rand::rngs::ThreadRng, len: usize, amount: usize) -> (picks: Vec<
    usize,
>)
    requires
        amount <= len,
        amount <= MAX_PICKS,
    ensures
        picks@.len() == amount,
        distinct_below(picks@, len as nat),
{
    (0..len).choose_multiple(rng, amount)
}

/// The word supply.
pub struct Dictionary {
    words: Vec<String>,
}

impl View for Dictionary {
    type V = Seq<Seq<char>>;

    closed spec fn view(&self) -> Seq<Seq<char>> {
        word_views(self.words@)
    }
}

/// How many words are picked when `word_count` are asked for of `len`: as
/// many as asked for, but no more than there are, and no more than
/// `MAX_PICKS`.
pub open spec fn pick_count(word_count: nat, len: nat) -> nat {
    if word_count <= len && word_count <= MAX_PICKS {
        word_count
    } else if len <= MAX_PICKS {
        len
    } else {
        MAX_PICKS as nat
    }
}

impl Dictionary {
    /// The dictionary of the first `truncate` lines of `data`, one word per
    /// line.
    pub fn new(data: &str, truncate: usize) -> (dictionary: Dictionary)
        ensures
            dictionary@ == first_lines(data@, truncate as nat),
    {
        let chars = chars_of(data);
        let n = chars.len();
        let mut words: Vec<String> = Vec::new();
        let mut pos: usize = 0;
        assert(word_views(words@) + lines_from(chars@, 0) =~= lines(chars@));
        while pos < n && words.len() < truncate
            invariant
                pos <= n,
                n == chars@.len(),
                words@.len() <= truncate,
                lines(chars@) == word_views(words@) + lines_from(chars@, pos as nat),
            decreases n - pos,
        {
            let mut end: usize = pos;
            while end < n && chars[end] != '\n'
                invariant
                    pos <= end <= n,
                    n == chars@.len(),
                    pos + line_length(chars@, pos as nat) == end + line_length(chars@, end as nat),
                decreases n - end,
            {
                end = end + 1;
            }
            let stop: usize = if end < n && end > pos && chars[end - 1] == '\r' {
                end - 1
            } else {
                end
            };
            let ghost before = word_views(words@);
            let word = string_of(&chars, pos, stop);
            proof {
                let line = chars@.subrange(pos as int, end as int);
                if end < n {
                    assert(word@ =~= strip_cr(line));
                }
            }
            words.push(word);
            let ghost rest = lines_from(chars@, pos as nat);
            pos = if end < n {
                end + 1
            } else {
                n
            };
            proof {
                assert(rest =~= seq![word@] + lines_from(chars@, pos as nat));
                assert(word_views(words@) =~= before.push(word@));
                assert(word_views(words@) + lines_from(chars@, pos as nat) =~= before + rest);
            }
        }
        proof {
            let all = lines(chars@);
            if pos >= n {
                assert(lines_from(chars@, pos as nat) =~= Seq::<Seq<char>>::empty());
                assert(word_views(words@) =~= all);
                assert(all.take(all.len() as int) =~= all);
            } else {
                assert(word_views(words@) =~= all.take(truncate as int));
            }
        }
        Dictionary { words }
    }

    /// How many words the dictionary holds.
    pub fn len(&self) -> (n: usize)
        ensures
            n == self@.len(),
    {
        self.words.len()
    }

    /// The word at `index`.
    pub fn word(&self, index: usize) -> (word: &str)
        requires
            index < self@.len(),
        ensures
            word@ == self@[index as int],
    {
        self.words[index].as_str()
    }

    /// The words at the picked indices, joined by single spaces.
    pub fn join_words(&self, picks: &Vec<usize>) -> (text: String)
        requires
            forall|i: int| 0 <= i < picks@.len() ==> #[trigger] picks@[i] < self@.len(),
        ensures
            text@ == joined(picked(self@, picks@)),
    {
        let ghost all = picked(self@, picks@);
        let mut text = String::new();
        let mut i: usize = 0;
        assert(all.subrange(0, 0) =~= Seq::<Seq<char>>::empty());
        while i < picks.len()
            invariant
                i <= picks.len(),
                all == picked(self@, picks@),
                forall|j: int| 0 <= j < picks@.len() ==> #[trigger] picks@[j] < self@.len(),
                text@ == joined(all.subrange(0, i as int)),
            decreases picks.len() - i,
        {
            if i > 0 {
                push_char(&mut text, ' ');
            }
            let word = self.words[picks[i]].as_str();
            text.append(word);
            proof {
                let upto = all.subrange(0, i + 1);
                assert(upto.drop_last() =~= all.subrange(0, i as int));
                assert(upto.last() == word@);
                if i == 0 {
                    assert(text@ =~= upto[0]);
                } else {
                    assert(text@ =~= joined(upto.drop_last()) + seq![' '] + upto.last());
                }
            }
            i = i + 1;
        }
        assert(all.subrange(0, i as int) =~= all);
        text
    }

    /// Practice text: `word_count` words of the dictionary, or all of them
    /// where it holds fewer, and no more than `MAX_PICKS`, each picked at
    /// most once, joined by single spaces. Which words, and in what order,
    /// is left to chance.
    pub fn random_text(&self, word_count: usize) -> (text: String)
        ensures
            exists|picks: Seq<usize>|
                {
                    &&& picks.len() == pick_count(word_count as nat, self@.len())
                    &&& distinct_below(picks, self@.len())
                    &&& #[trigger] joined(picked(self@, picks)) == text@
                },
    {
        let n = self.words.len();
        let amount: usize = if word_count <= n && word_count <= MAX_PICKS {
            word_count
        } else if n <= MAX_PICKS {
            n
        } else {
            MAX_PICKS
        };
        let mut rng = thread_rng();
        let picks = choose_indices(&mut rng, n, amount);
        self.join_words(&picks)
    }
}

} // verus!
