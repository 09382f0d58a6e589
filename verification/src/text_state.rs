//! The typed-text model as mathematics: the practice buffer, the caret, the
//! correctness ledger and the over-insertion counters, with the transitions
//! that key presses cause.

use crate::runs::{
    aligned, cut_front, lemma_aligned_totals, lemma_cut_front_aligned, lemma_cut_front_flags,
    lemma_push_run, lemma_shrink_last, merged, push_run, shrink_last, total_bytes, total_chars,
    Span,
};
use crate::unicode::{
    all_space, is_space, lemma_utf8_len_concat, lemma_utf8_len_one, lemma_utf8_len_prefix,
    utf8_len, utf8_width,
};
use vstd::prelude::*;

verus! {

/// First index at or after `from` that holds whitespace, or the length of
/// the text where none does.
pub open spec fn word_end(text: Seq<char>, from: nat) -> nat
    decreases text.len() - from,
{
    if from >= text.len() || is_space(text[from as int]) {
        from
    } else {
        word_end(text, from + 1)
    }
}

/// First index at or after `from` that holds no whitespace, or the length of
/// the text where none does.
pub open spec fn space_end(text: Seq<char>, from: nat) -> nat
    decreases text.len() - from,
{
    if from >= text.len() || !is_space(text[from as int]) {
        from
    } else {
        space_end(text, from + 1)
    }
}

/// How many code points from the start of `text` fit in `bytes` bytes.
pub open spec fn chars_within(text: Seq<char>, bytes: nat) -> nat
    decreases text.len(),
{
    if text.len() == 0 || utf8_len(text) <= bytes {
        text.len()
    } else {
        chars_within(text.drop_last(), bytes)
    }
}

/// The byte offset `bytes` falls between two code points of `text`, or at
/// its start or end.
pub open spec fn is_boundary(text: Seq<char>, bytes: nat) -> bool {
    utf8_len(text.subrange(0, chars_within(text, bytes) as int)) == bytes
}

/// A key press as the model sees it.
pub enum KeyPress {
    /// The backspace key.
    Backspace,
    /// A key that produces text: one code point as a rule, several with an
    /// input method.
    Text(String),
    /// Any other key.
    Other,
}

/// The state of the typed-text model.
pub struct TextState {
    /// The practice text, typed part and pending part together.
    pub text: Seq<char>,
    /// The caret, counted in code points.
    pub char_head: nat,
    /// The caret, counted in UTF-8 bytes.
    pub utf8_head: nat,
    /// One counter of over-inserted bytes per word, the current word's last.
    pub over_inserted: Seq<nat>,
    /// The correctness ledger over the text before the caret.
    pub runs: Seq<Span>,
    /// How many code points were typed, less those taken back. The rest of
    /// a word that whitespace skips was not typed, and does not count.
    pub typed_chars: nat,
}

impl TextState {
    /// The text before the caret.
    pub open spec fn typed(self) -> Seq<char> {
        self.text.subrange(0, self.char_head as int)
    }

    /// The text from the caret on.
    pub open spec fn pending(self) -> Seq<char> {
        self.text.subrange(self.char_head as int, self.text.len() as int)
    }

    /// The caret stands on a code point of the buffer that is no whitespace.
    pub open spec fn on_word(self) -> bool {
        self.char_head < self.text.len() && !is_space(self.text[self.char_head as int])
    }

    /// The code point just before the caret exists and is no whitespace.
    pub open spec fn after_word(self) -> bool {
        self.char_head > 0 && !is_space(self.text[self.char_head - 1])
    }

    /// The caret's two indices agree, and the ledger tiles the typed text
    /// with runs that are non-empty and alternate in correctness.
    pub open spec fn wf(self) -> bool {
        &&& self.char_head <= self.text.len()
        &&& self.utf8_head == utf8_len(self.typed())
        &&& total_bytes(self.runs) == self.utf8_head
        &&& total_chars(self.runs) == self.char_head
        &&& aligned(self.typed(), self.runs)
        &&& merged(self.runs)
        &&& self.over_inserted.len() >= 1
    }

    /// A fresh model over `text`: caret at the start, nothing typed.
    pub open spec fn start(text: Seq<char>) -> TextState {
        TextState {
            text,
            char_head: 0,
            utf8_head: 0,
            over_inserted: seq![0nat],
            runs: Seq::empty(),
            typed_chars: 0,
        }
    }

    /// Typed text that matches no code point of the buffer is spliced in at
    /// the caret, counts as incorrect, and is added to the current word's
    /// over-insertion counter.
    pub open spec fn insert(self, typed: Seq<char>) -> TextState {
        TextState {
            text: self.typed() + typed + self.pending(),
            char_head: self.char_head + typed.len(),
            utf8_head: self.utf8_head + utf8_len(typed),
            over_inserted: self.over_inserted.update(
                self.over_inserted.len() - 1,
                self.over_inserted.last() + utf8_len(typed),
            ),
            runs: push_run(self.runs, false, utf8_len(typed), typed.len()),
            typed_chars: self.typed_chars + typed.len(),
        }
    }

    /// Typed text takes the place of the code point under the caret: the
    /// buffer stays, the caret passes that one code point, and the ledger
    /// records whether the typed text is that code point.
    pub open spec fn substitute(self, typed: Seq<char>) -> TextState {
        let under = self.text[self.char_head as int];
        TextState {
            text: self.text,
            char_head: self.char_head + 1,
            utf8_head: self.utf8_head + utf8_width(under),
            over_inserted: self.over_inserted,
            runs: push_run(self.runs, typed == seq![under], utf8_width(under), 1),
            typed_chars: self.typed_chars + 1,
        }
    }

    /// Index where the word under the caret ends.
    pub open spec fn skip_end(self) -> nat {
        word_end(self.text, self.char_head)
    }

    /// Index where the whitespace after the word under the caret ends.
    pub open spec fn gap_end(self) -> nat {
        space_end(self.text, self.skip_end())
    }

    /// The ledger after the rest of the word under the caret was marked as
    /// skipped.
    pub open spec fn runs_after_skip(self) -> Seq<Span> {
        let skipped = self.text.subrange(self.char_head as int, self.skip_end() as int);
        if skipped.len() > 0 {
            push_run(self.runs, false, utf8_len(skipped), skipped.len())
        } else {
            self.runs
        }
    }

    /// Typed whitespace ends the word: what is left of the word counts as
    /// one incorrect run, the buffer's whitespace behind it gives way to the
    /// typed whitespace, which counts as correct where the buffer had
    /// whitespace there, and the next word gets a fresh counter.
    pub open spec fn commit_whitespace(self, typed: Seq<char>) -> TextState {
        let skipped = self.text.subrange(self.char_head as int, self.skip_end() as int);
        TextState {
            text: self.text.subrange(0, self.skip_end() as int) + typed + self.text.subrange(
                self.gap_end() as int,
                self.text.len() as int,
            ),
            char_head: self.skip_end() + typed.len(),
            utf8_head: self.utf8_head + utf8_len(skipped) + utf8_len(typed),
            over_inserted: self.over_inserted.push(0),
            runs: push_run(
                self.runs_after_skip(),
                self.gap_end() > self.skip_end(),
                utf8_len(typed),
                typed.len(),
            ),
            typed_chars: self.typed_chars + typed.len(),
        }
    }

    /// The counters after a backspace over a code point of `width` bytes.
    /// There are as many as before. The counter of the current word, unless
    /// it is zero, gives the bytes back, and goes to zero where it holds
    /// fewer.
    pub open spec fn counters_after_backspace(self, width: nat) -> Seq<nat> {
        let top = self.over_inserted.last();
        if top != 0 {
            self.over_inserted.update(
                self.over_inserted.len() - 1,
                if top >= width {
                    (top - width) as nat
                } else {
                    0
                },
            )
        } else {
            self.over_inserted
        }
    }

    /// Backspace: nothing at the start of the buffer. Elsewhere the caret
    /// goes back over one code point and the ledger gives it up; the code
    /// point leaves the buffer only where the current word's counter says
    /// that over-inserted text stands there. The number of counters stays.
    pub open spec fn backspace(self) -> TextState {
        if self.char_head == 0 {
            self
        } else {
            let gone = self.text[self.char_head - 1];
            TextState {
                text: if self.over_inserted.last() != 0 {
                    self.text.remove(self.char_head - 1)
                } else {
                    self.text
                },
                char_head: (self.char_head - 1) as nat,
                utf8_head: (self.utf8_head - utf8_width(gone)) as nat,
                over_inserted: self.counters_after_backspace(utf8_width(gone)),
                runs: shrink_last(self.runs, utf8_width(gone), 1),
                typed_chars: if self.typed_chars > 0 {
                    (self.typed_chars - 1) as nat
                } else {
                    0
                },
            }
        }
    }

    /// The backspace key gives up the boundary of a word: the caret stands
    /// behind whitespace, and there is more than one counter.
    pub open spec fn ends_word(self) -> bool {
        &&& self.char_head > 0
        &&& is_space(self.text[self.char_head - 1])
        &&& self.over_inserted.len() > 1
    }

    /// The model without the counter of the current word.
    pub open spec fn drop_counter(self) -> TextState {
        TextState { over_inserted: self.over_inserted.drop_last(), ..self }
    }

    /// The backspace key: a backspace, and where it goes back over
    /// whitespace, the counter of the word that began behind it is dropped,
    /// unless it is the only one.
    pub open spec fn backspace_key(self) -> TextState {
        if self.ends_word() {
            self.backspace().drop_counter()
        } else {
            self.backspace()
        }
    }

    /// The first `chars` code points leave the buffer; caret and ledger
    /// shift left by as much.
    pub open spec fn truncate_prefix(self, chars: nat) -> TextState {
        let bytes = utf8_len(self.text.subrange(0, chars as int));
        TextState {
            text: self.text.subrange(chars as int, self.text.len() as int),
            char_head: (self.char_head - chars) as nat,
            utf8_head: (self.utf8_head - bytes) as nat,
            over_inserted: self.over_inserted,
            runs: cut_front(self.runs, bytes, chars),
            typed_chars: self.typed_chars,
        }
    }

    /// Fresh practice text joins the end of the buffer.
    pub open spec fn append(self, more: Seq<char>) -> TextState {
        TextState { text: self.text + more, ..self }
    }
}

/// What typed text does to the model. Nothing, where it is empty.
/// Whitespace ends a word, but only right behind one. Other text stands for
/// the code point under the caret where that belongs to a word, and is
/// spliced in where the caret stands on whitespace or at the end.
pub open spec fn type_text(s: TextState, typed: Seq<char>) -> TextState {
    if typed.len() == 0 {
        s
    } else if all_space(typed) {
        if s.after_word() {
            s.commit_whitespace(typed)
        } else {
            s
        }
    } else if s.on_word() {
        s.substitute(typed)
    } else {
        s.insert(typed)
    }
}

/// What a key press does to the model.
pub open spec fn step(s: TextState, key: KeyPress) -> TextState {
    match key {
        KeyPress::Backspace => s.backspace_key(),
        KeyPress::Text(typed) => type_text(s, typed@),
        KeyPress::Other => s,
    }
}

/// The byte counts that typing `typed` would lead to fit the machine's
/// `usize`.
pub open spec fn fits(s: TextState, typed: Seq<char>) -> bool {
    &&& utf8_len(s.text) + utf8_len(typed) <= usize::MAX
    &&& s.over_inserted.last() + utf8_len(typed) <= usize::MAX
    &&& s.typed_chars + typed.len() <= usize::MAX
}

/// The word under an index ends within the text, holds no whitespace, and
/// ends before whitespace or with the text.
pub proof fn lemma_word_end_bounds(text: Seq<char>, from: nat)
    requires
        from <= text.len(),
    ensures
        from <= word_end(text, from) <= text.len(),
        forall|i: int| from <= i < word_end(text, from) ==> !is_space(#[trigger] text[i]),
        word_end(text, from) < text.len() ==> is_space(text[word_end(text, from) as int]),
    decreases text.len() - from,
{
    if from < text.len() && !is_space(text[from as int]) {
        lemma_word_end_bounds(text, from + 1);
    }
}

/// The whitespace under an index ends within the text, holds whitespace
/// alone, and ends before other text or with the text.
pub proof fn lemma_space_end_bounds(text: Seq<char>, from: nat)
    requires
        from <= text.len(),
    ensures
        from <= space_end(text, from) <= text.len(),
        forall|i: int| from <= i < space_end(text, from) ==> is_space(#[trigger] text[i]),
        space_end(text, from) < text.len() ==> !is_space(text[space_end(text, from) as int]),
    decreases text.len() - from,
{
    if from < text.len() && is_space(text[from as int]) {
        lemma_space_end_bounds(text, from + 1);
    }
}

/// A fresh model is well formed.
pub proof fn lemma_start_wf(text: Seq<char>)
    ensures
        TextState::start(text).wf(),
{
    assert(TextState::start(text).typed() =~= Seq::<char>::empty());
}

/// An insertion keeps the model well formed.
pub proof fn lemma_insert_wf(s: TextState, typed: Seq<char>)
    requires
        s.wf(),
        typed.len() > 0,
    ensures
        s.insert(typed).wf(),
        s.insert(typed).typed() == s.typed() + typed,
        s.insert(typed).pending() == s.pending(),
        utf8_len(s.insert(typed).text) == utf8_len(s.text) + utf8_len(typed),
{
    let t = s.insert(typed);
    assert(t.typed() =~= s.typed() + typed);
    assert(t.pending() =~= s.pending());
    lemma_utf8_len_concat(s.typed(), typed);
    lemma_push_run(s.typed(), s.runs, false, typed);
    assert(s.text =~= s.typed() + s.pending());
    lemma_utf8_len_concat(s.typed(), s.pending());
    lemma_utf8_len_concat(s.typed() + typed, s.pending());
}

/// A substitution keeps the model well formed.
pub proof fn lemma_substitute_wf(s: TextState, typed: Seq<char>)
    requires
        s.wf(),
        s.char_head < s.text.len(),
    ensures
        s.substitute(typed).wf(),
        s.substitute(typed).typed() == s.typed().push(s.text[s.char_head as int]),
{
    let t = s.substitute(typed);
    let under = s.text[s.char_head as int];
    assert(t.typed() =~= s.typed() + seq![under]);
    assert(t.typed() =~= s.typed().push(under));
    lemma_utf8_len_one(under);
    lemma_utf8_len_concat(s.typed(), seq![under]);
    lemma_push_run(s.typed(), s.runs, typed == seq![under], seq![under]);
}

/// Committing whitespace keeps the model well formed.
pub proof fn lemma_commit_whitespace_wf(s: TextState, typed: Seq<char>)
    requires
        s.wf(),
        typed.len() > 0,
    ensures
        s.commit_whitespace(typed).wf(),
        s.char_head <= s.skip_end() <= s.gap_end() <= s.text.len(),
        s.commit_whitespace(typed).typed() == s.text.subrange(0, s.skip_end() as int) + typed,
        s.commit_whitespace(typed).pending() == s.text.subrange(
            s.gap_end() as int,
            s.text.len() as int,
        ),
        utf8_len(s.commit_whitespace(typed).text) + utf8_len(
            s.text.subrange(s.skip_end() as int, s.gap_end() as int),
        ) == utf8_len(s.text) + utf8_len(typed),
{
    let t = s.commit_whitespace(typed);
    let e = s.skip_end();
    let g = s.gap_end();
    lemma_word_end_bounds(s.text, s.char_head);
    lemma_space_end_bounds(s.text, e);
    let skipped = s.text.subrange(s.char_head as int, e as int);
    let upto = s.text.subrange(0, e as int);
    let tail = s.text.subrange(g as int, s.text.len() as int);
    let gap = s.text.subrange(e as int, g as int);
    assert(upto =~= s.typed() + skipped);
    lemma_utf8_len_concat(s.typed(), skipped);
    if skipped.len() > 0 {
        lemma_push_run(s.typed(), s.runs, false, skipped);
    }
    assert(aligned(upto, s.runs_after_skip()));
    assert(merged(s.runs_after_skip()));
    lemma_push_run(upto, s.runs_after_skip(), g > e, typed);
    assert(t.typed() =~= upto + typed);
    assert(t.pending() =~= tail);
    lemma_utf8_len_concat(upto, typed);
    assert(s.text =~= upto + gap + tail);
    lemma_utf8_len_concat(upto, gap);
    lemma_utf8_len_concat(upto + gap, tail);
    lemma_utf8_len_concat(upto + typed, tail);
}

/// A backspace keeps the model well formed.
pub proof fn lemma_backspace_wf(s: TextState)
    requires
        s.wf(),
    ensures
        s.backspace().wf(),
        s.backspace_key().wf(),
        s.backspace().over_inserted.len() == s.over_inserted.len(),
        s.backspace_key().typed() == s.backspace().typed(),
        s.char_head > 0 ==> s.backspace().typed() == s.typed().drop_last(),
        s.char_head > 0 ==> s.utf8_head >= utf8_width(s.text[s.char_head - 1]),
        s.char_head > 0 && s.over_inserted.last() != 0 ==> utf8_len(s.backspace().text)
            + utf8_width(s.text[s.char_head - 1]) == utf8_len(s.text),
{
    if s.char_head > 0 {
        let t = s.backspace();
        let gone = s.text[s.char_head - 1];
        assert(s.typed().last() == gone);
        assert(t.typed() =~= s.typed().drop_last());
        lemma_shrink_last(s.typed(), s.runs);
        lemma_aligned_totals(t.typed(), t.runs);
        if s.over_inserted.last() != 0 {
            assert(t.pending() =~= s.pending());
            assert(s.text =~= s.typed().drop_last() + seq![gone] + s.pending());
            assert(t.text =~= s.typed().drop_last() + s.pending());
            lemma_utf8_len_one(gone);
            lemma_utf8_len_concat(s.typed().drop_last(), seq![gone]);
            lemma_utf8_len_concat(s.typed().drop_last() + seq![gone], s.pending());
            lemma_utf8_len_concat(s.typed().drop_last(), s.pending());
        }
    }
}

/// Dropping a prefix of the typed text keeps the model well formed.
pub proof fn lemma_truncate_prefix_wf(s: TextState, chars: nat)
    requires
        s.wf(),
        chars <= s.char_head,
    ensures
        s.truncate_prefix(chars).wf(),
        s.truncate_prefix(chars).utf8_head + utf8_len(s.text.subrange(0, chars as int))
            == s.utf8_head,
        utf8_len(s.truncate_prefix(chars).text) + utf8_len(s.text.subrange(0, chars as int))
            == utf8_len(s.text),
{
    let t = s.truncate_prefix(chars);
    let cut = s.text.subrange(0, chars as int);
    assert(s.typed().subrange(0, chars as int) =~= cut);
    assert(t.typed() =~= s.typed().subrange(chars as int, s.char_head as int));
    lemma_cut_front_aligned(s.typed(), s.runs, chars);
    lemma_cut_front_flags(s.runs, utf8_len(cut), chars);
    lemma_aligned_totals(t.typed(), t.runs);
    assert(s.typed() =~= cut + t.typed());
    lemma_utf8_len_concat(cut, t.typed());
    assert(s.text =~= cut + t.text);
    lemma_utf8_len_concat(cut, t.text);
}

/// Appending practice text keeps the model well formed.
pub proof fn lemma_append_wf(s: TextState, more: Seq<char>)
    requires
        s.wf(),
    ensures
        s.append(more).wf(),
        utf8_len(s.append(more).text) == utf8_len(s.text) + utf8_len(more),
{
    assert(s.append(more).typed() =~= s.typed());
    lemma_utf8_len_concat(s.text, more);
}

/// A prefix that fits in `bytes` bytes and cannot be made longer is the one
/// that `chars_within` names.
pub proof fn lemma_chars_within(text: Seq<char>, bytes: nat, count: int)
    requires
        0 <= count <= text.len(),
        utf8_len(text.subrange(0, count)) <= bytes,
        count == text.len() || utf8_len(text.subrange(0, count + 1)) > bytes,
    ensures
        chars_within(text, bytes) == count,
    decreases text.len(),
{
    assert(text.subrange(0, text.len() as int) =~= text);
    if text.len() == 0 {
    } else if utf8_len(text) <= bytes {
        if count < text.len() {
            lemma_utf8_len_prefix(text, 0, count + 1);
        }
    } else {
        let shorter = text.drop_last();
        assert(shorter.subrange(0, count) =~= text.subrange(0, count));
        if count < shorter.len() {
            assert(shorter.subrange(0, count + 1) =~= text.subrange(0, count + 1));
        }
        lemma_chars_within(shorter, bytes, count);
    }
}

/// A longer prefix takes more bytes.
pub proof fn lemma_prefix_order(text: Seq<char>, i: int, j: int)
    requires
        0 <= i <= text.len(),
        0 <= j <= text.len(),
        utf8_len(text.subrange(0, i)) <= utf8_len(text.subrange(0, j)),
    ensures
        i <= j,
{
    if j < i {
        lemma_utf8_len_prefix(text, j, i);
    }
}

/// A key press keeps the model well formed.
pub proof fn lemma_step_wf(s: TextState, key: KeyPress)
    requires
        s.wf(),
    ensures
        step(s, key).wf(),
{
    match key {
        KeyPress::Backspace => {
            lemma_backspace_wf(s);
        },
        KeyPress::Text(typed) => {
            if typed@.len() > 0 {
                lemma_insert_wf(s, typed@);
                lemma_commit_whitespace_wf(s, typed@);
                if s.on_word() {
                    lemma_substitute_wf(s, typed@);
                }
            }
        },
        KeyPress::Other => {},
    }
}

/// The state after the key presses `keys`, in order.
pub open spec fn run_keys(s: TextState, keys: Seq<KeyPress>) -> TextState
    decreases keys.len(),
{
    if keys.len() == 0 {
        s
    } else {
        step(run_keys(s, keys.drop_last()), keys.last())
    }
}

/// In a well-formed model the caret's code-point index is the number of
/// code points that its byte offset covers.
pub proof fn lemma_caret_in_step(s: TextState)
    requires
        s.wf(),
    ensures
        is_boundary(s.text, s.utf8_head),
        chars_within(s.text, s.utf8_head) == s.char_head,
{
    if s.char_head < s.text.len() {
        lemma_utf8_len_prefix(s.text, s.char_head as int, s.char_head as int + 1);
    }
    lemma_chars_within(s.text, s.utf8_head, s.char_head as int);
}

/// In a well-formed model the caret's byte offset cuts the UTF-8 encoding
/// of the buffer between two code points, and the bytes before it are the
/// encoding of the code points before the caret: as many as the caret's
/// code-point index says.
pub proof fn lemma_caret_in_encoding(s: TextState)
    requires
        s.wf(),
    ensures
        s.utf8_head <= vstd::utf8::encode_utf8(s.text).len(),
        vstd::utf8::encode_utf8(s.text).subrange(0, s.utf8_head as int) == vstd::utf8::encode_utf8(
            s.typed(),
        ),
        vstd::utf8::decode_utf8(vstd::utf8::encode_utf8(s.text).subrange(0, s.utf8_head as int))
            == s.typed(),
        s.typed().len() == s.char_head,
{
    let all = vstd::utf8::encode_utf8(s.text);
    let head = vstd::utf8::encode_utf8(s.typed());
    let tail = vstd::utf8::encode_utf8(s.pending());
    assert(s.text =~= s.typed() + s.pending());
    crate::unicode::lemma_encoding_concat(s.typed(), s.pending());
    crate::unicode::lemma_utf8_len_is_encoded_len(s.typed());
    assert(all.subrange(0, s.utf8_head as int) =~= head);
    vstd::utf8::encode_utf8_decode_utf8(s.typed());
}

/// Whatever keys are pressed, in whatever order: the lengths of the runs add
/// up to the caret's byte offset, the caret's code-point index is the number
/// of code points that the first so many bytes of the buffer's UTF-8
/// encoding hold, and no two neighbouring runs share a correctness flag.
pub proof fn lemma_keys_keep_ledger_and_caret(s: TextState, keys: Seq<KeyPress>)
    requires
        s.wf(),
    ensures
        run_keys(s, keys).wf(),
        total_bytes(run_keys(s, keys).runs) == run_keys(s, keys).utf8_head,
        run_keys(s, keys).utf8_head == utf8_len(run_keys(s, keys).typed()),
        chars_within(run_keys(s, keys).text, run_keys(s, keys).utf8_head) == run_keys(
            s,
            keys,
        ).char_head,
        vstd::utf8::decode_utf8(
            vstd::utf8::encode_utf8(run_keys(s, keys).text).subrange(
                0,
                run_keys(s, keys).utf8_head as int,
            ),
        ).len() == run_keys(s, keys).char_head,
        merged(run_keys(s, keys).runs),
    decreases keys.len(),
{
    if keys.len() > 0 {
        lemma_keys_keep_ledger_and_caret(s, keys.drop_last());
        lemma_step_wf(run_keys(s, keys.drop_last()), keys.last());
    }
    lemma_caret_in_step(run_keys(s, keys));
    lemma_caret_in_encoding(run_keys(s, keys));
}

/// The state after `count` backspaces.
pub open spec fn backspaces(s: TextState, count: nat) -> TextState
    decreases count,
{
    if count == 0 {
        s
    } else {
        backspaces(s.backspace(), (count - 1) as nat)
    }
}

/// Every run of an aligned ledger covers at least one byte.
proof fn lemma_aligned_nonempty(prefix: Seq<char>, runs: Seq<Span>)
    requires
        aligned(prefix, runs),
    ensures
        forall|i: int| 0 <= i < runs.len() ==> (#[trigger] runs[i]).bytes > 0,
    decreases runs.len(),
{
    if runs.len() > 0 {
        let r = runs.last();
        let cut = prefix.len() - r.chars;
        lemma_aligned_nonempty(prefix.subrange(0, cut), runs.drop_last());
        crate::unicode::lemma_utf8_len_bounds(prefix.subrange(cut, prefix.len() as int));
        assert forall|i: int| 0 <= i < runs.len() implies (#[trigger] runs[i]).bytes > 0 by {
            if i < runs.len() - 1 {
                assert(runs[i] == runs.drop_last()[i]);
            }
        }
    }
}

/// Backspace undoes an insertion: after text was spliced in, as many
/// backspaces as it has code points give back the buffer, the caret, the
/// ledger and the counters.
pub proof fn lemma_backspace_undoes_insert(s: TextState, typed: Seq<char>)
    requires
        s.wf(),
        typed.len() > 0,
    ensures
        backspaces(s.insert(typed), typed.len()) == s,
    decreases typed.len(),
{
    let t = s.insert(typed);
    let gone = typed.last();
    let width = utf8_width(gone);
    let less = typed.drop_last();
    lemma_insert_wf(s, typed);
    lemma_aligned_nonempty(s.typed(), s.runs);
    crate::unicode::lemma_utf8_len_bounds(less);
    assert(t.text[t.char_head - 1] == gone);
    assert(utf8_len(typed) == utf8_len(less) + width);
    assert(s.text =~= s.typed() + s.pending());
    let u = t.backspace();
    if less.len() == 0 {
        assert(utf8_len(less) == 0);
        assert(u.text =~= s.text);
        assert(u.runs =~= s.runs);
        assert(u.over_inserted =~= s.over_inserted);
        assert(u == s);
        assert(backspaces(u, 0) == u);
    } else {
        let v = s.insert(less);
        assert(u.text =~= v.text);
        assert(u.runs =~= v.runs);
        assert(u.over_inserted =~= v.over_inserted);
        assert(u == v);
        lemma_backspace_undoes_insert(s, less);
    }
}

/// Whitespace typed right after whitespace changes nothing, so two commits
/// in a row leave the ledger as one commit does, with no two neighbouring
/// runs that share a correctness flag.
pub proof fn lemma_second_whitespace_is_ignored(s: TextState, typed: Seq<char>)
    requires
        s.wf(),
        typed.len() > 0,
        all_space(typed),
    ensures
        type_text(type_text(s, typed), typed) == type_text(s, typed),
        merged(type_text(s, typed).runs),
{
    if s.after_word() {
        let t = s.commit_whitespace(typed);
        lemma_commit_whitespace_wf(s, typed);
        assert(t.text[t.char_head - 1] == typed.last());
    }
}

/// Dropping the first `chars` code points of the typed text moves the
/// caret's byte offset back by their byte length, and leaves of the ledger
/// its last flags, in their old order.
pub proof fn lemma_truncate_prefix_shifts(s: TextState, chars: nat)
    requires
        s.wf(),
        chars <= s.char_head,
    ensures
        ({
            let t = s.truncate_prefix(chars);
            let bytes = utf8_len(s.text.subrange(0, chars as int));
            &&& t.wf()
            &&& t.utf8_head == s.utf8_head - bytes
            &&& t.char_head == s.char_head - chars
            &&& total_bytes(t.runs) == total_bytes(s.runs) - bytes
            &&& t.runs.len() <= s.runs.len()
            &&& crate::runs::flags(t.runs) == crate::runs::flags(s.runs).subrange(
                s.runs.len() - t.runs.len(),
                s.runs.len() as int,
            )
        }),
{
    lemma_truncate_prefix_wf(s, chars);
    lemma_cut_front_flags(s.runs, utf8_len(s.text.subrange(0, chars as int)), chars);
}

} // verus!
