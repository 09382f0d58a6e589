//! The correctness ledger: a run-length encoding of the typed prefix, one
//! span per maximal stretch of text that shares a correctness flag.

use crate::unicode::{lemma_utf8_len_concat, utf8_len, utf8_width};
use vstd::prelude::*;

verus! {

/// One run of the ledger, as the contracts see it.
pub struct Span {
    pub correct: bool,
    pub bytes: nat,
    pub chars: nat,
}

/// One run of the ledger: a correctness flag and the stretch of text it
/// covers, counted in UTF-8 bytes and in code points.
#[derive(Clone, Copy, Debug)]
pub struct Run {
    pub correct: bool,
    pub bytes: usize,
    pub chars: usize,
}

impl View for Run {
    type V = Span;

    open spec fn view(&self) -> Span {
        Span { correct: self.correct, bytes: self.bytes as nat, chars: self.chars as nat }
    }
}

/// The spans that a vector of runs stands for.
pub open spec fn spans(runs: Seq<Run>) -> Seq<Span> {
    runs.map_values(|r: Run| r@)
}

/// How many bytes the runs cover together.
pub open spec fn total_bytes(runs: Seq<Span>) -> nat
    decreases runs.len(),
{
    if runs.len() == 0 {
        0
    } else {
        total_bytes(runs.drop_last()) + runs.last().bytes
    }
}

/// How many code points the runs cover together.
pub open spec fn total_chars(runs: Seq<Span>) -> nat
    decreases runs.len(),
{
    if runs.len() == 0 {
        0
    } else {
        total_chars(runs.drop_last()) + runs.last().chars
    }
}

/// No two neighbouring runs share a correctness flag.
pub open spec fn merged(runs: Seq<Span>) -> bool {
    forall|i: int| 0 < i < runs.len() ==> (#[trigger] runs[i]).correct != runs[i - 1].correct
}

/// The runs tile `prefix` exactly: each is non-empty, and its byte count is
/// the UTF-8 length of the code points it covers.
pub open spec fn aligned(prefix: Seq<char>, runs: Seq<Span>) -> bool
    decreases runs.len(),
{
    if runs.len() == 0 {
        prefix.len() == 0
    } else {
        let r = runs.last();
        &&& 0 < r.chars <= prefix.len()
        &&& r.bytes == utf8_len(prefix.subrange(prefix.len() - r.chars, prefix.len() as int))
        &&& aligned(prefix.subrange(0, prefix.len() - r.chars), runs.drop_last())
    }
}

/// The correctness flags alone, in order.
pub open spec fn flags(runs: Seq<Span>) -> Seq<bool> {
    runs.map_values(|r: Span| r.correct)
}

/// Appends a stretch of text to the ledger: it extends the last run where the
/// flags agree and opens a new run where they do not.
pub open spec fn push_run(runs: Seq<Span>, correct: bool, bytes: nat, chars: nat) -> Seq<Span> {
    if runs.len() > 0 && runs.last().correct == correct {
        runs.drop_last().push(
            Span { correct, bytes: runs.last().bytes + bytes, chars: runs.last().chars + chars },
        )
    } else {
        runs.push(Span { correct, bytes, chars })
    }
}

/// Takes a stretch of text off the end of the ledger: the last run shrinks,
/// and leaves the ledger when nothing of it is left.
pub open spec fn shrink_last(runs: Seq<Span>, bytes: nat, chars: nat) -> Seq<Span> {
    if runs.len() == 0 {
        runs
    } else if runs.last().bytes <= bytes {
        runs.drop_last()
    } else {
        runs.drop_last().push(
            Span {
                correct: runs.last().correct,
                bytes: (runs.last().bytes - bytes) as nat,
                chars: (runs.last().chars - chars) as nat,
            },
        )
    }
}

/// Drops the first `chars` code points (`bytes` bytes) from the ledger: the
/// runs that lie wholly before the cut go, and the run that straddles it
/// keeps what lies behind the cut.
pub open spec fn cut_front(runs: Seq<Span>, bytes: nat, chars: nat) -> Seq<Span>
    decreases runs.len(),
{
    if runs.len() == 0 {
        runs
    } else {
        let r = runs.last();
        let front = runs.drop_last();
        if total_chars(front) + r.chars <= chars {
            Seq::empty()
        } else if total_chars(front) < chars {
            seq![
                Span {
                    correct: r.correct,
                    bytes: (total_bytes(front) + r.bytes - bytes) as nat,
                    chars: (total_chars(front) + r.chars - chars) as nat,
                },
            ]
        } else {
            cut_front(front, bytes, chars).push(r)
        }
    }
}

/// Aligned runs add up to the prefix they tile.
pub proof fn lemma_aligned_totals(prefix: Seq<char>, runs: Seq<Span>)
    requires
        aligned(prefix, runs),
    ensures
        total_chars(runs) == prefix.len(),
        total_bytes(runs) == utf8_len(prefix),
    decreases runs.len(),
{
    if runs.len() > 0 {
        let r = runs.last();
        let cut = prefix.len() - r.chars;
        lemma_aligned_totals(prefix.subrange(0, cut), runs.drop_last());
        assert(prefix =~= prefix.subrange(0, cut) + prefix.subrange(cut, prefix.len() as int));
        lemma_utf8_len_concat(prefix.subrange(0, cut), prefix.subrange(cut, prefix.len() as int));
    } else {
        assert(prefix =~= Seq::<char>::empty());
    }
}

/// Appending a stretch of text adds its bytes and code points to what the
/// ledger covers.
pub proof fn lemma_push_run_totals(runs: Seq<Span>, correct: bool, bytes: nat, chars: nat)
    ensures
        total_bytes(push_run(runs, correct, bytes, chars)) == total_bytes(runs) + bytes,
        total_chars(push_run(runs, correct, bytes, chars)) == total_chars(runs) + chars,
{
    let out = push_run(runs, correct, bytes, chars);
    if runs.len() > 0 && runs.last().correct == correct {
        assert(out.drop_last() =~= runs.drop_last());
    } else {
        assert(out.drop_last() =~= runs);
    }
}

/// Appending text keeps the ledger aligned and merged.
pub proof fn lemma_push_run(prefix: Seq<char>, runs: Seq<Span>, correct: bool, added: Seq<char>)
    requires
        aligned(prefix, runs),
        merged(runs),
        added.len() > 0,
    ensures
        aligned(prefix + added, push_run(runs, correct, utf8_len(added), added.len())),
        merged(push_run(runs, correct, utf8_len(added), added.len())),
        total_bytes(push_run(runs, correct, utf8_len(added), added.len())) == total_bytes(runs)
            + utf8_len(added),
        total_chars(push_run(runs, correct, utf8_len(added), added.len())) == total_chars(runs)
            + added.len(),
{
    let whole = prefix + added;
    let out = push_run(runs, correct, utf8_len(added), added.len());
    if runs.len() > 0 && runs.last().correct == correct {
        let r = runs.last();
        let cut = prefix.len() - r.chars;
        assert(out.drop_last() =~= runs.drop_last());
        assert(whole.subrange(0, cut) =~= prefix.subrange(0, cut));
        assert(whole.subrange(cut, whole.len() as int) =~= prefix.subrange(
            cut,
            prefix.len() as int,
        ) + added);
        lemma_utf8_len_concat(prefix.subrange(cut, prefix.len() as int), added);
        assert forall|i: int| 0 < i < out.len() implies (#[trigger] out[i]).correct != out[i
            - 1].correct by {
            if i < out.len() - 1 {
                assert(out[i] == runs[i]);
            } else {
                assert(runs[i].correct != runs[i - 1].correct);
            }
        }
    } else {
        assert(out.drop_last() =~= runs);
        assert(whole.subrange(0, prefix.len() as int) =~= prefix);
        assert(whole.subrange(prefix.len() as int, whole.len() as int) =~= added);
        assert forall|i: int| 0 < i < out.len() implies (#[trigger] out[i]).correct != out[i
            - 1].correct by {
            if i < out.len() - 1 {
                assert(out[i] == runs[i]);
            }
        }
    }
}

/// Taking the last code point off the prefix keeps the ledger aligned and
/// merged.
pub proof fn lemma_shrink_last(prefix: Seq<char>, runs: Seq<Span>)
    requires
        aligned(prefix, runs),
        merged(runs),
        prefix.len() > 0,
    ensures
        runs.len() > 0,
        runs.last().bytes >= utf8_width(prefix.last()),
        runs.last().chars >= 1,
        runs.last().bytes == utf8_width(prefix.last()) <==> runs.last().chars == 1,
        aligned(prefix.drop_last(), shrink_last(runs, utf8_width(prefix.last()), 1)),
        merged(shrink_last(runs, utf8_width(prefix.last()), 1)),
        total_bytes(shrink_last(runs, utf8_width(prefix.last()), 1)) + utf8_width(prefix.last())
            == total_bytes(runs),
        total_chars(shrink_last(runs, utf8_width(prefix.last()), 1)) + 1 == total_chars(runs),
{
    let r = runs.last();
    let cut = prefix.len() - r.chars;
    let w = utf8_width(prefix.last());
    let tail = prefix.subrange(cut, prefix.len() as int);
    let out = shrink_last(runs, w, 1);
    assert(tail.drop_last() =~= prefix.subrange(cut, prefix.len() - 1));
    assert(tail.last() == prefix.last());
    crate::unicode::lemma_utf8_len_bounds(tail.drop_last());
    if r.chars == 1 {
        assert(tail.drop_last() =~= Seq::<char>::empty());
        assert(out =~= runs.drop_last());
        assert(prefix.drop_last() =~= prefix.subrange(0, cut));
    } else {
        assert(out.drop_last() =~= runs.drop_last());
        let shorter = prefix.drop_last();
        assert(shorter.subrange(0, cut) =~= prefix.subrange(0, cut));
        assert(shorter.subrange(cut, shorter.len() as int) =~= tail.drop_last());
        assert forall|i: int| 0 < i < out.len() implies (#[trigger] out[i]).correct != out[i
            - 1].correct by {
            if i < out.len() - 1 {
                assert(out[i] == runs[i]);
            } else {
                assert(runs[i].correct != runs[i - 1].correct);
            }
        }
    }
}

/// What is left after a cut is the tail of the old ledger: every run but the
/// first is unchanged, and the first keeps its flag.
pub proof fn lemma_cut_front_tail(runs: Seq<Span>, bytes: nat, chars: nat)
    ensures
        ({
            let out = cut_front(runs, bytes, chars);
            &&& out.len() <= runs.len()
            &&& forall|i: int|
                0 < i < out.len() ==> #[trigger] out[i] == runs[runs.len() - out.len() + i]
            &&& out.len() > 0 ==> out[0].correct == runs[runs.len() - out.len()].correct
        }),
    decreases runs.len(),
{
    if runs.len() > 0 {
        let r = runs.last();
        let front = runs.drop_last();
        if total_chars(front) + r.chars <= chars {
        } else if total_chars(front) < chars {
        } else {
            lemma_cut_front_tail(front, bytes, chars);
            let inner = cut_front(front, bytes, chars);
            let out = inner.push(r);
            assert forall|i: int| 0 < i < out.len() implies #[trigger] out[i] == runs[runs.len()
                - out.len() + i] by {
                if i < inner.len() {
                    assert(out[i] == inner[i]);
                    assert(inner[i] == front[front.len() - inner.len() + i]);
                }
            }
            if inner.len() > 0 {
                assert(out[0] == inner[0]);
            }
        }
    }
}

/// The flags that remain after a cut are the last flags of the old ledger,
/// in the old order, and no two neighbours among them agree.
pub proof fn lemma_cut_front_flags(runs: Seq<Span>, bytes: nat, chars: nat)
    requires
        merged(runs),
    ensures
        ({
            let out = cut_front(runs, bytes, chars);
            &&& out.len() <= runs.len()
            &&& flags(out) =~= flags(runs).subrange(runs.len() - out.len(), runs.len() as int)
            &&& merged(out)
        }),
{
    lemma_cut_front_tail(runs, bytes, chars);
    let out = cut_front(runs, bytes, chars);
    let off = runs.len() - out.len();
    assert forall|i: int| 0 <= i < out.len() implies out[i].correct == runs[off + i].correct by {
        if i > 0 {
            assert(out[i] == runs[off + i]);
        }
    }
    assert forall|i: int| 0 < i < out.len() implies (#[trigger] out[i]).correct != out[i
        - 1].correct by {
        assert(out[i].correct == runs[off + i].correct);
        assert(out[i - 1].correct == runs[off + i - 1].correct);
        assert(runs[off + i].correct != runs[off + i - 1].correct);
    }
}

/// Unfolds `aligned` once, at the last run.
proof fn lemma_aligned_last(prefix: Seq<char>, runs: Seq<Span>, last: Span, head: Seq<char>)
    requires
        runs.len() > 0,
        runs.last() == last,
        0 < last.chars <= prefix.len(),
        head == prefix.subrange(0, prefix.len() - last.chars),
        last.bytes == utf8_len(prefix.subrange(prefix.len() - last.chars, prefix.len() as int)),
        aligned(head, runs.drop_last()),
    ensures
        aligned(prefix, runs),
{
}

/// Cutting a prefix off the text keeps the ledger aligned with what is left
/// of the text.
pub proof fn lemma_cut_front_aligned(prefix: Seq<char>, runs: Seq<Span>, chars: nat)
    requires
        aligned(prefix, runs),
        chars <= prefix.len(),
    ensures
        aligned(
            prefix.subrange(chars as int, prefix.len() as int),
            cut_front(runs, utf8_len(prefix.subrange(0, chars as int)), chars),
        ),
    decreases runs.len(),
{
    let bytes = utf8_len(prefix.subrange(0, chars as int));
    let out = cut_front(runs, bytes, chars);
    let rest = prefix.subrange(chars as int, prefix.len() as int);
    if runs.len() == 0 {
    } else {
        let r = runs.last();
        let front = runs.drop_last();
        let cut = prefix.len() - r.chars;
        let head = prefix.subrange(0, cut);
        lemma_aligned_totals(head, front);
        if total_chars(front) + r.chars <= chars {
        } else if total_chars(front) < chars {
            lemma_aligned_totals(prefix, runs);
            assert(prefix =~= prefix.subrange(0, chars as int) + rest);
            lemma_utf8_len_concat(prefix.subrange(0, chars as int), rest);
            let only = out[0];
            assert(only.bytes == utf8_len(rest));
            assert(only.chars == rest.len());
            assert(rest.subrange(0, 0) =~= Seq::<char>::empty());
            assert(rest.subrange(0, rest.len() as int) =~= rest);
            assert(out.drop_last() =~= Seq::<Span>::empty());
            assert(aligned(rest.subrange(0, 0), out.drop_last()));
            lemma_aligned_last(rest, out, only, rest.subrange(0, 0));
        } else {
            assert(head.subrange(0, chars as int) =~= prefix.subrange(0, chars as int));
            lemma_cut_front_aligned(head, front, chars);
            let inner = cut_front(front, bytes, chars);
            assert(out.drop_last() =~= inner);
            assert(rest.subrange(0, rest.len() - r.chars) =~= head.subrange(
                chars as int,
                head.len() as int,
            ));
            assert(rest.subrange(rest.len() - r.chars, rest.len() as int) =~= prefix.subrange(
                cut,
                prefix.len() as int,
            ));
            lemma_aligned_last(rest, out, r, rest.subrange(0, rest.len() - r.chars));
        }
    }
}

/// The first runs of an aligned ledger tile the text they cover.
pub proof fn lemma_aligned_take(prefix: Seq<char>, runs: Seq<Span>, count: int)
    requires
        aligned(prefix, runs),
        0 <= count <= runs.len(),
    ensures
        total_chars(runs.subrange(0, count)) <= prefix.len(),
        aligned(
            prefix.subrange(0, total_chars(runs.subrange(0, count)) as int),
            runs.subrange(0, count),
        ),
        total_bytes(runs.subrange(0, count)) == utf8_len(
            prefix.subrange(0, total_chars(runs.subrange(0, count)) as int),
        ),
    decreases runs.len(),
{
    lemma_aligned_totals(prefix, runs);
    if count == runs.len() {
        assert(runs.subrange(0, count) =~= runs);
        assert(prefix.subrange(0, prefix.len() as int) =~= prefix);
    } else {
        let r = runs.last();
        let head = prefix.subrange(0, prefix.len() - r.chars);
        lemma_aligned_take(head, runs.drop_last(), count);
        assert(runs.drop_last().subrange(0, count) =~= runs.subrange(0, count));
        let covered = total_chars(runs.subrange(0, count)) as int;
        assert(head.subrange(0, covered) =~= prefix.subrange(0, covered));
    }
}

/// Drops the first `chars` code points, which take `bytes` bytes, from a
/// ledger that tiles `prefix`.
pub(crate) fn cut_runs(
    runs: &Vec<Run>,
    bytes: usize,
    chars: usize,
    Ghost(prefix): Ghost<Seq<char>>,
) -> (out: Vec<Run>)
    requires
        aligned(prefix, spans(runs@)),
        chars <= prefix.len(),
        bytes == utf8_len(prefix.subrange(0, chars as int)),
        utf8_len(prefix) <= usize::MAX,
    ensures
        spans(out@) == cut_front(spans(runs@), bytes as nat, chars as nat),
{
    let ghost all = spans(runs@);
    let mut out: Vec<Run> = Vec::new();
    let mut seen_bytes: usize = 0;
    let mut seen_chars: usize = 0;
    let mut i: usize = 0;
    proof {
        crate::unicode::lemma_utf8_len_bounds(prefix);
        assert(all.subrange(0, 0) =~= Seq::<Span>::empty());
        assert(spans(out@) =~= cut_front(all.subrange(0, 0), bytes as nat, chars as nat));
    }
    while i < runs.len()
        invariant
            i <= runs.len(),
            all == spans(runs@),
            aligned(prefix, all),
            chars <= prefix.len(),
            bytes == utf8_len(prefix.subrange(0, chars as int)),
            utf8_len(prefix) <= usize::MAX,
            prefix.len() <= usize::MAX,
            seen_bytes == total_bytes(all.subrange(0, i as int)),
            seen_chars == total_chars(all.subrange(0, i as int)),
            seen_chars <= chars ==> out@.len() == 0,
            spans(out@) == cut_front(all.subrange(0, i as int), bytes as nat, chars as nat),
        decreases runs.len() - i,
    {
        let r = runs[i];
        proof {
            let next = all.subrange(0, i + 1);
            assert(next.drop_last() =~= all.subrange(0, i as int));
            assert(next.last() == r@);
            lemma_aligned_take(prefix, all, i + 1);
            lemma_aligned_take(prefix, all, i as int);
            crate::unicode::lemma_utf8_len_prefix(prefix, 0, total_chars(next) as int);
            if seen_chars < chars && chars < seen_chars + r.chars {
                crate::unicode::lemma_utf8_len_prefix(
                    prefix,
                    chars as int,
                    total_chars(next) as int,
                );
            }
        }
        if seen_chars + r.chars <= chars {
        } else if seen_chars < chars {
            out.push(
                Run {
                    correct: r.correct,
                    bytes: seen_bytes + r.bytes - bytes,
                    chars: seen_chars + r.chars - chars,
                },
            );
        } else {
            out.push(r);
        }
        seen_bytes = seen_bytes + r.bytes;
        seen_chars = seen_chars + r.chars;
        i = i + 1;
        assert(spans(out@) =~= cut_front(all.subrange(0, i as int), bytes as nat, chars as nat));
    }
    assert(all.subrange(0, i as int) =~= all);
    out
}

} // verus!
