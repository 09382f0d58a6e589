//! The typed-text model: the practice buffer with its caret, the correctness
//! ledger over what was typed, and the over-insertion counters, driven by
//! key presses.

use crate::runs::{
    cut_runs, lemma_push_run_totals, push_run, shrink_last, spans, total_bytes, total_chars, Run,
    Span,
};
use crate::text_state::{
    chars_within, fits, is_boundary, lemma_append_wf, lemma_backspace_wf, lemma_chars_within,
    lemma_commit_whitespace_wf, lemma_insert_wf, lemma_prefix_order, lemma_space_end_bounds,
    lemma_start_wf, lemma_substitute_wf, lemma_truncate_prefix_wf, lemma_word_end_bounds,
    space_end, step, word_end, KeyPress, TextState,
};
use crate::unicode::{
    all_space, byte_len, char_width, chars_of, is_space, is_whitespace, lemma_utf8_len_bounds,
    lemma_utf8_len_concat, lemma_utf8_len_prefix, string_of, utf8_len,
};
use vstd::prelude::*;

verus! {

/// The counters of a stack, as the contracts see them.
pub open spec fn counters(stack: Seq<usize>) -> Seq<nat> {
    stack.map_values(|n: usize| n as nat)
}

/// How many words the practice text begins with.
pub const FIRST_WORDS: usize = 50;

/// How many fresh words join the practice text at a time.
pub const FRESH_WORDS: usize = 16;

/// How a stretch of the text is painted.
#[derive(Clone, Copy, Debug, PartialEq, Eq, Structural)]
pub enum RunStyle {
    /// Typed, and right.
    Correct,
    /// Typed, and wrong.
    Incorrect,
    /// Not typed yet.
    Pending,
}

/// A stretch of the text, in bytes, and how to paint it.
#[derive(Clone, Copy, Debug)]
pub struct StyledRun {
    pub style: RunStyle,
    pub len: usize,
}

/// The typed-text model.
pub struct TextView {
    text: Vec<char>,
    text_bytes: usize,
    char_head: usize,
    utf8_head: usize,
    over_inserted_stack: Vec<usize>,
    run_lens: Vec<Run>,
    typed_chars: usize,
}

impl View for TextView {
    type V = TextState;

    closed spec fn view(&self) -> TextState {
        TextState {
            text: self.text@,
            char_head: self.char_head as nat,
            utf8_head: self.utf8_head as nat,
            over_inserted: counters(self.over_inserted_stack@),
            runs: spans(self.run_lens@),
            typed_chars: self.typed_chars as nat,
        }
    }
}

/// The name of the backspace key.
pub open spec fn backspace_key() -> Seq<char> {
    seq!['b', 'a', 'c', 'k', 's', 'p', 'a', 'c', 'e']
}

/// Reads a key event: the key named `backspace` is the backspace key, any
/// other key counts by the text it produces, and a key that produces none
/// counts for nothing.
pub fn key_press(key: &str, key_char: Option<&str>) -> (press: KeyPress)
    ensures
        key@ == backspace_key() ==> press is Backspace,
        key@ != backspace_key() ==> match key_char {
            Some(typed) => press matches KeyPress::Text(text) && text@ == typed@,
            None => press is Other,
        },
{
    let name = chars_of(key);
    if name.len() == 9 && name[0] == 'b' && name[1] == 'a' && name[2] == 'c' && name[3] == 'k'
        && name[4] == 's' && name[5] == 'p' && name[6] == 'a' && name[7] == 'c' && name[8]
        == 'e' {
        assert(name@ =~= backspace_key());
        return KeyPress::Backspace;
    }
    match key_char {
        Some(typed) => KeyPress::Text(typed.to_owned()),
        None => KeyPress::Other,
    }
}

/// Whether every code point of `chars` is whitespace.
pub fn all_whitespace(chars: &Vec<char>) -> (b: bool)
    ensures
        b == all_space(chars@),
{
    let mut i: usize = 0;
    while i < chars.len()
        invariant
            i <= chars.len(),
            forall|j: int| 0 <= j < i ==> is_space(#[trigger] chars@[j]),
        decreases chars.len() - i,
    {
        if !is_whitespace(chars[i]) {
            return false;
        }
        i += 1;
    }
    true
}

impl TextView {
    /// The model keeps count of the byte length of its text.
    pub closed spec fn counted(&self) -> bool {
        self.text_bytes == utf8_len(self.text@)
    }

    /// The model is well formed, and its byte counts are in step with its
    /// text.
    pub open spec fn wf(&self) -> bool {
        &&& self@.wf()
        &&& self.counted()
    }

    /// The counts of a well-formed model fit in `usize`.
    pub proof fn lemma_wf(&self)
        requires
            self.wf(),
        ensures
            utf8_len(self@.text) <= usize::MAX,
            self@.text.len() <= usize::MAX,
            forall|i: int|
                0 <= i < self@.over_inserted.len() ==> #[trigger] self@.over_inserted[i]
                    <= usize::MAX,
            forall|i: int|
                0 <= i < self@.runs.len() ==> (#[trigger] self@.runs[i]).bytes <= usize::MAX,
    {
        lemma_utf8_len_bounds(self.text@);
    }

    /// A model over `text`, with the caret at its start.
    pub fn new(text: &str) -> (view: TextView)
        requires
            utf8_len(text@) <= usize::MAX,
        ensures
            view.wf(),
            view@ == TextState::start(text@),
    {
        let chars = chars_of(text);
        proof {
            assert(chars@.subrange(0, chars@.len() as int) =~= chars@);
            lemma_start_wf(text@);
        }
        let bytes = byte_len(&chars, 0, chars.len()).unwrap();
        let mut stack: Vec<usize> = Vec::new();
        stack.push(0);
        let view = TextView {
            text: chars,
            text_bytes: bytes,
            char_head: 0,
            utf8_head: 0,
            over_inserted_stack: stack,
            run_lens: Vec::new(),
            typed_chars: 0,
        };
        proof {
            assert(view@.over_inserted =~= seq![0nat]);
            assert(view@.runs =~= Seq::<Span>::empty());
        }
        view
    }

    /// The caret, counted in code points.
    pub fn char_head(&self) -> (n: usize)
        ensures
            n == self@.char_head,
    {
        self.char_head
    }

    /// The caret, counted in UTF-8 bytes.
    pub fn utf8_head(&self) -> (n: usize)
        ensures
            n == self@.utf8_head,
    {
        self.utf8_head
    }

    /// How many code points were typed, less those taken back.
    pub fn typed_chars(&self) -> (n: usize)
        ensures
            n == self@.typed_chars,
    {
        self.typed_chars
    }

    /// The byte length of the whole text.
    pub fn len(&self) -> (n: usize)
        requires
            self.wf(),
        ensures
            n == utf8_len(self@.text),
    {
        self.text_bytes
    }

    /// The whole text, typed part and pending part together.
    pub fn text(&self) -> (s: String)
        ensures
            s@ == self@.text,
    {
        let s = string_of(&self.text, 0, self.text.len());
        proof {
            assert(self.text@.subrange(0, self.text@.len() as int) =~= self.text@);
        }
        s
    }

    /// The code point under the caret, if the buffer has one there.
    pub fn char_at_caret(&self) -> (c: Option<char>)
        ensures
            c == if self@.char_head < self@.text.len() {
                Some(self@.text[self@.char_head as int])
            } else {
                None
            },
    {
        if self.char_head < self.text.len() {
            Some(self.text[self.char_head])
        } else {
            None
        }
    }

    /// The correctness ledger.
    pub fn run_lens(&self) -> (runs: &Vec<Run>)
        ensures
            spans(runs@) == self@.runs,
    {
        &self.run_lens
    }

    /// The over-insertion counters, the current word's last.
    pub fn over_inserted_stack(&self) -> (stack: &Vec<usize>)
        ensures
            counters(stack@) == self@.over_inserted,
    {
        &self.over_inserted_stack
    }

    /// Records `char_len` code points of `utf8_len` bytes in the ledger and
    /// moves the caret past them.
    fn add_run(&mut self, correct: bool, utf8_len: usize, char_len: usize)
        requires
            old(self).utf8_head + utf8_len <= usize::MAX,
            old(self).char_head + char_len <= usize::MAX,
            total_bytes(spans(old(self).run_lens@)) == old(self).utf8_head,
            total_chars(spans(old(self).run_lens@)) == old(self).char_head,
        ensures
            spans(final(self).run_lens@) == push_run(
                spans(old(self).run_lens@),
                correct,
                utf8_len as nat,
                char_len as nat,
            ),
            final(self).utf8_head == old(self).utf8_head + utf8_len,
            final(self).char_head == old(self).char_head + char_len,
            final(self).text == old(self).text,
            final(self).text_bytes == old(self).text_bytes,
            final(self).over_inserted_stack == old(self).over_inserted_stack,
            final(self).typed_chars == old(self).typed_chars,
            total_bytes(spans(final(self).run_lens@)) == final(self).utf8_head,
            total_chars(spans(final(self).run_lens@)) == final(self).char_head,
    {
        proof {
            lemma_push_run_totals(
                spans(self.run_lens@),
                correct,
                utf8_len as nat,
                char_len as nat,
            );
        }
        let ghost before = spans(self.run_lens@);
        let n = self.run_lens.len();
        if n > 0 && self.run_lens[n - 1].correct == correct {
            let last = self.run_lens[n - 1];
            proof {
                assert(before.last() == last@);
                assert(total_bytes(before) == total_bytes(before.drop_last()) + last.bytes);
                assert(total_chars(before) == total_chars(before.drop_last()) + last.chars);
            }
            self.run_lens.pop();
            self.run_lens.push(
                Run { correct, bytes: last.bytes + utf8_len, chars: last.chars + char_len },
            );
            assert(spans(self.run_lens@) =~= push_run(
                before,
                correct,
                utf8_len as nat,
                char_len as nat,
            ));
        } else {
            self.run_lens.push(Run { correct, bytes: utf8_len, chars: char_len });
            assert(spans(self.run_lens@) =~= push_run(
                before,
                correct,
                utf8_len as nat,
                char_len as nat,
            ));
        }
        self.utf8_head = self.utf8_head + utf8_len;
        self.char_head = self.char_head + char_len;
    }

    /// Splices typed text into the buffer at the caret, as an over-insertion.
    pub fn insert(&mut self, typed: &str)
        requires
            old(self).wf(),
            typed@.len() > 0,
            !old(self)@.on_word(),
            fits(old(self)@, typed@),
        ensures
            final(self).wf(),
            total_bytes(final(self)@.runs) == final(self)@.utf8_head,
            final(self)@.utf8_head == utf8_len(final(self)@.typed()),
            final(self)@ == old(self)@.insert(typed@),
    {
        let ghost before = self@;
        let chars = chars_of(typed);
        proof {
            assert(chars@.subrange(0, chars@.len() as int) =~= chars@);
            lemma_insert_wf(before, typed@);
            lemma_utf8_len_bounds(typed@);
            lemma_utf8_len_bounds(before.insert(typed@).text);
            lemma_utf8_len_prefix(before.text, 0, before.char_head as int);
        }
        let bytes = byte_len(&chars, 0, chars.len()).unwrap();
        let at = self.char_head;
        let mut i: usize = 0;
        while i < chars.len()
            invariant
                i <= chars.len(),
                at == before.char_head,
                at <= before.text.len(),
                at + chars.len() <= usize::MAX,
                self.text@ == before.typed() + chars@.subrange(0, i as int) + before.pending(),
                self.text_bytes == old(self).text_bytes,
                self.char_head == old(self).char_head,
                self.utf8_head == old(self).utf8_head,
                self.over_inserted_stack == old(self).over_inserted_stack,
                self.run_lens == old(self).run_lens,
                self.typed_chars == old(self).typed_chars,
            decreases chars.len() - i,
        {
            self.text.insert(at + i, chars[i]);
            i += 1;
            assert(self.text@ =~= before.typed() + chars@.subrange(0, i as int)
                + before.pending());
        }
        self.add_run(false, bytes, chars.len());
        let top = self.over_inserted_stack.len() - 1;
        let count = self.over_inserted_stack[top];
        self.over_inserted_stack.set(top, count + bytes);
        self.text_bytes = self.text_bytes + bytes;
        self.typed_chars = self.typed_chars + chars.len();
        proof {
            assert(self@.over_inserted =~= before.insert(typed@).over_inserted);
            assert(self@.text =~= before.insert(typed@).text);
        }
    }

    /// Lets typed text stand for the code point under the caret.
    pub fn substitute(&mut self, typed: &str)
        requires
            old(self).wf(),
            old(self)@.on_word(),
            old(self)@.typed_chars < usize::MAX,
        ensures
            final(self).wf(),
            total_bytes(final(self)@.runs) == final(self)@.utf8_head,
            final(self)@.utf8_head == utf8_len(final(self)@.typed()),
            final(self)@ == old(self)@.substitute(typed@),
    {
        let ghost before = self@;
        let under = self.text[self.char_head];
        let chars = chars_of(typed);
        let correct = chars.len() == 1 && chars[0] == under;
        proof {
            lemma_substitute_wf(before, typed@);
            lemma_utf8_len_bounds(before.text);
            lemma_utf8_len_prefix(before.text, 0, before.char_head as int + 1);
            assert(before.substitute(typed@).typed() =~= before.text.subrange(
                0,
                before.char_head as int + 1,
            ));
            assert(correct == (typed@ =~= seq![under]));
        }
        self.add_run(correct, char_width(under), 1);
        self.typed_chars = self.typed_chars + 1;
    }

    /// Ends the word under the caret with typed whitespace.
    pub fn commit_whitespace(&mut self, typed: &str)
        requires
            old(self).wf(),
            typed@.len() > 0,
            all_space(typed@),
            old(self)@.after_word(),
            fits(old(self)@, typed@),
        ensures
            final(self).wf(),
            total_bytes(final(self)@.runs) == final(self)@.utf8_head,
            final(self)@.utf8_head == utf8_len(final(self)@.typed()),
            final(self)@ == old(self)@.commit_whitespace(typed@),
    {
        let ghost before = self@;
        let chars = chars_of(typed);
        proof {
            assert(chars@.subrange(0, chars@.len() as int) =~= chars@);
            lemma_commit_whitespace_wf(before, typed@);
            lemma_word_end_bounds(before.text, before.char_head);
            lemma_space_end_bounds(before.text, before.skip_end());
            lemma_utf8_len_bounds(typed@);
            lemma_utf8_len_bounds(before.text);
        }
        let bytes = byte_len(&chars, 0, chars.len()).unwrap();
        let n = self.text.len();
        let from = self.char_head;

        // The rest of the word under the caret.
        let mut skip_to: usize = from;
        let mut skipped_bytes: usize = 0;
        assert(self.text@.subrange(from as int, skip_to as int) =~= Seq::<char>::empty());
        while skip_to < n && !is_whitespace(self.text[skip_to])
            invariant
                from <= skip_to <= n,
                n == self.text@.len(),
                self.text@ == before.text,
                from == before.char_head,
                word_end(before.text, from as nat) == word_end(before.text, skip_to as nat),
                skipped_bytes == utf8_len(before.text.subrange(from as int, skip_to as int)),
                utf8_len(before.text) <= usize::MAX,
            decreases n - skip_to,
        {
            let w = char_width(self.text[skip_to]);
            proof {
                let next = before.text.subrange(from as int, skip_to + 1);
                assert(next.drop_last() =~= before.text.subrange(from as int, skip_to as int));
                lemma_utf8_len_prefix(before.text, from as int, skip_to + 1);
                lemma_utf8_len_prefix(before.text, 0, from as int);
            }
            skipped_bytes = skipped_bytes + w;
            skip_to = skip_to + 1;
        }

        // The whitespace behind it.
        let mut gap_to: usize = skip_to;
        let mut gap_bytes: usize = 0;
        assert(self.text@.subrange(skip_to as int, gap_to as int) =~= Seq::<char>::empty());
        while gap_to < n && is_whitespace(self.text[gap_to])
            invariant
                skip_to <= gap_to <= n,
                n == self.text@.len(),
                self.text@ == before.text,
                space_end(before.text, skip_to as nat) == space_end(before.text, gap_to as nat),
                gap_bytes == utf8_len(before.text.subrange(skip_to as int, gap_to as int)),
                utf8_len(before.text) <= usize::MAX,
            decreases n - gap_to,
        {
            let w = char_width(self.text[gap_to]);
            proof {
                let next = before.text.subrange(skip_to as int, gap_to + 1);
                assert(next.drop_last() =~= before.text.subrange(skip_to as int, gap_to as int));
                lemma_utf8_len_prefix(before.text, skip_to as int, gap_to + 1);
                lemma_utf8_len_prefix(before.text, 0, skip_to as int);
            }
            gap_bytes = gap_bytes + w;
            gap_to = gap_to + 1;
        }
        assert(skip_to == before.skip_end() && gap_to == before.gap_end());

        proof {
            lemma_utf8_len_prefix(before.text, 0, skip_to as int);
            lemma_utf8_len_prefix(before.text, from as int, skip_to as int);
            lemma_utf8_len_prefix(before.text, skip_to as int, gap_to as int);
            lemma_utf8_len_bounds(before.commit_whitespace(typed@).text);
        }
        if skip_to > from {
            self.add_run(false, skipped_bytes, skip_to - from);
        }
        assert(spans(self.run_lens@) == before.runs_after_skip());
        proof {
            let upto = before.text.subrange(0, skip_to as int);
            assert(upto =~= before.typed() + before.text.subrange(from as int, skip_to as int));
            lemma_utf8_len_concat(
                before.typed(),
                before.text.subrange(from as int, skip_to as int),
            );
            if skip_to > from {
                crate::runs::lemma_push_run(
                    before.typed(),
                    before.runs,
                    false,
                    before.text.subrange(from as int, skip_to as int),
                );
            }
        }

        // The typed whitespace takes the place of the buffer's.
        let mut tail = self.text.split_off(gap_to);
        self.text.truncate(skip_to);
        let mut i: usize = 0;
        while i < chars.len()
            invariant
                i <= chars.len(),
                skip_to <= before.text.len(),
                self.text@ == before.text.subrange(0, skip_to as int) + chars@.subrange(
                    0,
                    i as int,
                ),
                self.text_bytes == old(self).text_bytes,
                self.over_inserted_stack == old(self).over_inserted_stack,
                spans(self.run_lens@) == before.runs_after_skip(),
                self.utf8_head == before.utf8_head + skipped_bytes,
                self.char_head == skip_to,
                self.typed_chars == old(self).typed_chars,
            decreases chars.len() - i,
        {
            self.text.push(chars[i]);
            i += 1;
            assert(self.text@ =~= before.text.subrange(0, skip_to as int) + chars@.subrange(
                0,
                i as int,
            ));
        }
        self.text.append(&mut tail);
        self.add_run(gap_to > skip_to, bytes, chars.len());
        self.over_inserted_stack.push(0);
        self.text_bytes = self.text_bytes - gap_bytes + bytes;
        self.typed_chars = self.typed_chars + chars.len();
        proof {
            assert(self@.over_inserted =~= before.commit_whitespace(typed@).over_inserted);
            assert(self@.text =~= before.commit_whitespace(typed@).text);
        }
    }

    /// Takes back the code point before the caret. The counters stay as
    /// many as they are: the backspace key, in `key_down`, drops one where
    /// the caret goes back over whitespace.
    pub fn backspace(&mut self)
        requires
            old(self).wf(),
        ensures
            final(self).wf(),
            total_bytes(final(self)@.runs) == final(self)@.utf8_head,
            final(self)@.utf8_head == utf8_len(final(self)@.typed()),
            final(self)@ == old(self)@.backspace(),
            final(self)@.over_inserted.len() == old(self)@.over_inserted.len(),
    {
        if self.char_head == 0 {
            return ;
        }
        let ghost before = self@;
        let gone = self.text[self.char_head - 1];
        let width = char_width(gone);
        proof {
            lemma_backspace_wf(before);
            assert(before.typed().last() == gone);
            crate::runs::lemma_shrink_last(before.typed(), before.runs);
        }
        let top = self.over_inserted_stack.len() - 1;
        let count = self.over_inserted_stack[top];
        if count != 0 {
            self.text.remove(self.char_head - 1);
            self.text_bytes = self.text_bytes - width;
            self.over_inserted_stack.set(
                top,
                if count >= width {
                    count - width
                } else {
                    0
                },
            );
        }
        let last = self.run_lens[self.run_lens.len() - 1];
        assert(last@ == before.runs.last());
        self.run_lens.pop();
        if last.bytes > width {
            self.run_lens.push(
                Run { correct: last.correct, bytes: last.bytes - width, chars: last.chars - 1 },
            );
        }
        assert(spans(self.run_lens@) =~= shrink_last(before.runs, width as nat, 1));
        self.utf8_head = self.utf8_head - width;
        self.char_head = self.char_head - 1;
        if self.typed_chars > 0 {
            self.typed_chars = self.typed_chars - 1;
        }
        proof {
            assert(self@.over_inserted =~= before.counters_after_backspace(width as nat));
        }
    }

    /// The code-point index that the byte offset stands for, where it falls
    /// on a boundary between code points.
    pub fn char_index(&self, byte_offset: usize) -> (at: Option<usize>)
        requires
            self.wf(),
        ensures
            match at {
                Some(n) => is_boundary(self@.text, byte_offset as nat) && n == chars_within(
                    self@.text,
                    byte_offset as nat,
                ) && n <= self@.text.len(),
                None => !is_boundary(self@.text, byte_offset as nat),
            },
    {
        let n = self.text.len();
        let mut i: usize = 0;
        let mut seen: usize = 0;
        assert(self.text@.subrange(0, 0) =~= Seq::<char>::empty());
        while i < n && seen < byte_offset
            invariant
                i <= n,
                n == self.text@.len(),
                self.wf(),
                seen == utf8_len(self.text@.subrange(0, i as int)),
                i > 0 ==> utf8_len(self.text@.subrange(0, i - 1)) < byte_offset,
            decreases n - i,
        {
            let w = char_width(self.text[i]);
            proof {
                assert(self.text@.subrange(0, i + 1).drop_last() =~= self.text@.subrange(
                    0,
                    i as int,
                ));
                lemma_utf8_len_prefix(self.text@, 0, i + 1);
            }
            seen = seen + w;
            i = i + 1;
        }
        proof {
            if seen <= byte_offset {
                if i < n {
                    lemma_utf8_len_prefix(self.text@, i as int, i + 1);
                }
                lemma_chars_within(self.text@, byte_offset as nat, i as int);
            } else {
                lemma_utf8_len_prefix(self.text@, i - 1, i as int);
                lemma_chars_within(self.text@, byte_offset as nat, i - 1);
            }
        }
        if seen == byte_offset {
            Some(i)
        } else {
            None
        }
    }

    /// Drops the text before the byte offset, and shifts caret and ledger
    /// left by as much. The offset has to fall between two code points, at
    /// or before the caret; otherwise nothing changes and the answer is
    /// `false`.
    pub fn truncate_prefix(&mut self, byte_offset: usize) -> (done: bool)
        requires
            old(self).wf(),
        ensures
            final(self).wf(),
            total_bytes(final(self)@.runs) == final(self)@.utf8_head,
            final(self)@.utf8_head == utf8_len(final(self)@.typed()),
            done <==> is_boundary(old(self)@.text, byte_offset as nat) && byte_offset
                <= old(self)@.utf8_head,
            done ==> final(self)@ == old(self)@.truncate_prefix(
                chars_within(old(self)@.text, byte_offset as nat),
            ),
            done ==> final(self)@.utf8_head == old(self)@.utf8_head - byte_offset,
            !done ==> final(self)@ == old(self)@,
    {
        if byte_offset > self.utf8_head {
            return false;
        }
        let chars = match self.char_index(byte_offset) {
            Some(chars) => chars,
            None => {
                return false;
            },
        };
        let ghost before = self@;
        proof {
            lemma_utf8_len_bounds(before.text);
            lemma_prefix_order(before.text, chars as int, before.char_head as int);
            lemma_truncate_prefix_wf(before, chars as nat);
            assert(before.typed().subrange(0, chars as int) =~= before.text.subrange(
                0,
                chars as int,
            ));
            lemma_utf8_len_prefix(before.text, 0, before.char_head as int);
        }
        let runs = cut_runs(&self.run_lens, byte_offset, chars, Ghost(before.typed()));
        let tail = self.text.split_off(chars);
        self.text = tail;
        self.run_lens = runs;
        self.text_bytes = self.text_bytes - byte_offset;
        self.char_head = self.char_head - chars;
        self.utf8_head = self.utf8_head - byte_offset;
        proof {
            let after = before.truncate_prefix(chars as nat);
            assert(self@.text =~= after.text);
            assert(self@.runs == after.runs);
            assert(self@.over_inserted == after.over_inserted);
            assert(self@.char_head == after.char_head);
            assert(self@.utf8_head == after.utf8_head);
            assert(self@.typed_chars == after.typed_chars);
        }
        true
    }

    /// Adds fresh practice text at the end of the buffer. Text that would
    /// take the byte length past `usize` stays out, and the answer is
    /// `false`.
    pub fn push_str(&mut self, more: &str) -> (done: bool)
        requires
            old(self).wf(),
        ensures
            final(self).wf(),
            done <==> utf8_len(old(self)@.text) + utf8_len(more@) <= usize::MAX,
            done ==> final(self)@ == old(self)@.append(more@),
            !done ==> final(self)@ == old(self)@,
    {
        let ghost before = self@;
        let mut chars = chars_of(more);
        proof {
            assert(chars@.subrange(0, chars@.len() as int) =~= chars@);
            lemma_append_wf(before, more@);
        }
        let bytes = match byte_len(&chars, 0, chars.len()) {
            Some(bytes) => bytes,
            None => {
                return false;
            },
        };
        if bytes > usize::MAX - self.text_bytes {
            return false;
        }
        self.text.append(&mut chars);
        self.text_bytes = self.text_bytes + bytes;
        true
    }

    /// Adds fresh words at the end of the buffer, behind a single space that
    /// parts them from what stands there. Words that would take the byte
    /// length past `usize` stay out, with the space, and the answer is
    /// `false`.
    pub fn push_words(&mut self, words: &str) -> (done: bool)
        requires
            old(self).wf(),
        ensures
            final(self).wf(),
            done <==> utf8_len(old(self)@.text) + 1 + utf8_len(words@) <= usize::MAX,
            done ==> final(self)@ == old(self)@.append(seq![' '] + words@),
            !done ==> final(self)@ == old(self)@,
    {
        let ghost before = self@;
        let mut chars = chars_of(words);
        proof {
            assert(chars@.subrange(0, chars@.len() as int) =~= chars@);
            lemma_append_wf(before, seq![' '] + words@);
            lemma_utf8_len_concat(seq![' '], words@);
            crate::unicode::lemma_utf8_len_one(' ');
        }
        let bytes = match byte_len(&chars, 0, chars.len()) {
            Some(bytes) => bytes,
            None => {
                return false;
            },
        };
        if bytes >= usize::MAX - self.text_bytes || self.text_bytes == usize::MAX {
            return false;
        }
        self.text.push(' ');
        self.text.append(&mut chars);
        self.text_bytes = self.text_bytes + 1 + bytes;
        assert(self@.text =~= before.text + (seq![' '] + words@));
        true
    }

    /// The spans to paint the text with: the ledger's runs, then one span
    /// for the text from the caret on. Together they cover every byte of the
    /// text.
    pub fn styled_runs(&self) -> (out: Vec<StyledRun>)
        requires
            self.wf(),
        ensures
            out@.len() == self@.runs.len() + 1,
            forall|i: int|
                0 <= i < self@.runs.len() ==> (#[trigger] out@[i]).len == self@.runs[i].bytes
                    && out@[i].style == (if self@.runs[i].correct {
                    RunStyle::Correct
                } else {
                    RunStyle::Incorrect
                }),
            out@.last().style == RunStyle::Pending,
            out@.last().len == utf8_len(self@.text) - self@.utf8_head,
    {
        let mut out: Vec<StyledRun> = Vec::new();
        let mut i: usize = 0;
        while i < self.run_lens.len()
            invariant
                i <= self.run_lens.len(),
                out@.len() == i,
                forall|j: int|
                    0 <= j < i ==> (#[trigger] out@[j]).len == self.run_lens@[j].bytes
                        && out@[j].style == (if self.run_lens@[j].correct {
                        RunStyle::Correct
                    } else {
                        RunStyle::Incorrect
                    }),
            decreases self.run_lens.len() - i,
        {
            let r = self.run_lens[i];
            out.push(
                StyledRun {
                    style: if r.correct {
                        RunStyle::Correct
                    } else {
                        RunStyle::Incorrect
                    },
                    len: r.bytes,
                },
            );
            i = i + 1;
        }
        proof {
            lemma_utf8_len_prefix(self.text@, 0, self.char_head as int);
        }
        out.push(StyledRun { style: RunStyle::Pending, len: self.text_bytes - self.utf8_head });
        out
    }

    /// Applies one key press. The backspace key takes a code point back
    /// and, where that is whitespace, drops the counter of the word that
    /// began behind it, unless it is the only one. Typed text that would
    /// take a byte count past `usize` is left out, and the answer is
    /// `false`.
    pub fn key_down(&mut self, key: &KeyPress) -> (applied: bool)
        requires
            old(self).wf(),
        ensures
            final(self).wf(),
            total_bytes(final(self)@.runs) == final(self)@.utf8_head,
            final(self)@.utf8_head == utf8_len(final(self)@.typed()),
            applied <==> (key matches KeyPress::Text(typed) ==> fits(old(self)@, typed@)),
            applied ==> final(self)@ == step(old(self)@, *key),
            !applied ==> final(self)@ == old(self)@,
    {
        match key {
            KeyPress::Backspace => {
                let ghost before = self@;
                let ends_word = self.char_head > 0 && is_whitespace(
                    self.text[self.char_head - 1],
                ) && self.over_inserted_stack.len() > 1;
                proof {
                    lemma_backspace_wf(before);
                }
                self.backspace();
                if ends_word {
                    self.over_inserted_stack.pop();
                    assert(self@.over_inserted =~= before.backspace().over_inserted.drop_last());
                }
                true
            },
            KeyPress::Other => true,
            KeyPress::Text(typed) => {
                let chars = chars_of(typed.as_str());
                proof {
                    assert(chars@.subrange(0, chars@.len() as int) =~= chars@);
                }
                let bytes = match byte_len(&chars, 0, chars.len()) {
                    Some(bytes) => bytes,
                    None => {
                        return false;
                    },
                };
                let count = self.over_inserted_stack[self.over_inserted_stack.len() - 1];
                if bytes > usize::MAX - self.text_bytes || bytes > usize::MAX - count
                    || chars.len() > usize::MAX - self.typed_chars {
                    return false;
                }
                if chars.len() == 0 {
                    return true;
                }
                if all_whitespace(&chars) {
                    if self.char_head > 0 && !is_whitespace(self.text[self.char_head - 1]) {
                        self.commit_whitespace(typed.as_str());
                    }
                } else if self.char_head < self.text.len() && !is_whitespace(
                    self.text[self.char_head],
                ) {
                    self.substitute(typed.as_str());
                } else {
                    self.insert(typed.as_str());
                }
                true
            },
        }
    }
}

} // verus!
