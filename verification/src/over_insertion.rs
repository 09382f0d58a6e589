//! The over-insertion counters under ordinary use. While each key press
//! brings a single code point, and fresh text begins with whitespace, every
//! counter holds the byte length of the text that was spliced in at the end
//! of its word, and every whitespace before the caret has the counter of
//! the word before it. So the limits that the backspace key observes are
//! never reached.

use crate::text_state::{
    lemma_append_wf, lemma_backspace_wf, lemma_commit_whitespace_wf, lemma_insert_wf,
    lemma_start_wf, lemma_substitute_wf, lemma_truncate_prefix_wf, lemma_word_end_bounds, step,
    KeyPress, TextState,
};
use crate::unicode::{
    all_space, is_space, lemma_utf8_len_bounds, lemma_utf8_len_concat, lemma_utf8_len_prefix,
    utf8_len, utf8_width,
};
use vstd::prelude::*;

verus! {

/// Where the word at the end of `prefix` begins: behind the last
/// whitespace, or at the start.
pub open spec fn word_start(prefix: Seq<char>) -> nat
    decreases prefix.len(),
{
    if prefix.len() == 0 {
        0
    } else if is_space(prefix.last()) {
        prefix.len()
    } else {
        word_start(prefix.drop_last())
    }
}

/// The text at the end of `prefix` that the last counter counts.
pub open spec fn counted(prefix: Seq<char>, inserted: Seq<nat>) -> Seq<char> {
    prefix.subrange(prefix.len() - inserted.last(), prefix.len() as int)
}

/// The counters are in step with the typed text. `inserted` says of each
/// counter how many code points it counts: they stand at the end of the
/// counter's word, and the counter holds their byte length, or more where
/// the start of the buffer was cut off within them. The last counter
/// belongs to the word at the end of `prefix`, the one before it to the
/// word before the last whitespace, and so on; the counters of words that
/// were cut off with the start of the buffer are not looked at.
pub open spec fn tidy(prefix: Seq<char>, counters: Seq<nat>, inserted: Seq<nat>) -> bool
    decreases prefix.len(),
{
    let start = word_start(prefix);
    &&& counters.len() == inserted.len()
    &&& counters.len() >= 1
    &&& start <= prefix.len()
    &&& inserted.last() <= prefix.len() - start
    &&& counters.last() >= utf8_len(counted(prefix, inserted))
    &&& counters.last() == utf8_len(counted(prefix, inserted)) || inserted.last() == prefix.len()
    &&& start > 0 ==> tidy(
        prefix.subrange(0, start - 1),
        counters.drop_last(),
        inserted.drop_last(),
    )
}

/// The model is in order: well formed, its counters in step with the typed
/// text, and text spliced in only before whitespace or at the end of the
/// buffer.
pub open spec fn in_order(s: TextState, inserted: Seq<nat>) -> bool {
    &&& s.wf()
    &&& tidy(s.typed(), s.over_inserted, inserted)
    &&& s.over_inserted.last() != 0 ==> !s.on_word()
}

/// What happens to the model.
pub enum Event {
    /// A key is pressed.
    Key(KeyPress),
    /// So many code points are cut off the start of the buffer.
    Cut(nat),
    /// Fresh text joins the end of the buffer.
    More(Seq<char>),
}

/// The model after the event. A cut behind the caret does not happen.
pub open spec fn after(s: TextState, event: Event) -> TextState {
    match event {
        Event::Key(key) => step(s, key),
        Event::Cut(chars) => if chars <= s.char_head {
            s.truncate_prefix(chars)
        } else {
            s
        },
        Event::More(text) => s.append(text),
    }
}

/// The model after the events, in order.
pub open spec fn after_all(s: TextState, events: Seq<Event>) -> TextState
    decreases events.len(),
{
    if events.len() == 0 {
        s
    } else {
        after(after_all(s, events.drop_last()), events.last())
    }
}

/// The event is ordinary: a key brings no more than one code point, and
/// fresh text begins with whitespace.
pub open spec fn ordinary(event: Event) -> bool {
    match event {
        Event::Key(KeyPress::Text(typed)) => typed@.len() <= 1,
        Event::Key(_) => true,
        Event::Cut(_) => true,
        Event::More(text) => text.len() == 0 || is_space(text[0]),
    }
}

/// The word at the end of a text begins within the text, holds no
/// whitespace, and follows whitespace unless it begins the text.
proof fn lemma_word_start(prefix: Seq<char>)
    ensures
        word_start(prefix) <= prefix.len(),
        forall|i: int| word_start(prefix) <= i < prefix.len() ==> !is_space(#[trigger] prefix[i]),
        word_start(prefix) > 0 ==> is_space(prefix[word_start(prefix) - 1]),
    decreases prefix.len(),
{
    if prefix.len() > 0 && !is_space(prefix.last()) {
        lemma_word_start(prefix.drop_last());
        assert forall|i: int| word_start(prefix) <= i < prefix.len() implies !is_space(
            #[trigger] prefix[i],
        ) by {
            if i < prefix.len() - 1 {
                assert(prefix[i] == prefix.drop_last()[i]);
            }
        }
    }
}

/// Text without whitespace at the end of a text belongs to its last word.
proof fn lemma_word_start_grows(prefix: Seq<char>, more: Seq<char>)
    requires
        forall|i: int| 0 <= i < more.len() ==> !is_space(#[trigger] more[i]),
    ensures
        word_start(prefix + more) == word_start(prefix),
    decreases more.len(),
{
    if more.len() == 0 {
        assert(prefix + more =~= prefix);
    } else {
        assert((prefix + more).drop_last() =~= prefix + more.drop_last());
        assert((prefix + more).last() == more.last());
        lemma_word_start_grows(prefix, more.drop_last());
    }
}

/// Text without whitespace at the end of the typed text leaves the counters
/// in step, where the last counter counts it, or counts nothing and leaves
/// it out.
proof fn lemma_tidy_grows(
    prefix: Seq<char>,
    counters: Seq<nat>,
    inserted: Seq<nat>,
    more: Seq<char>,
    counts: bool,
)
    requires
        tidy(prefix, counters, inserted),
        forall|i: int| 0 <= i < more.len() ==> !is_space(#[trigger] more[i]),
        !counts ==> counters.last() == 0 || more.len() == 0,
    ensures
        counts ==> tidy(
            prefix + more,
            counters.update(counters.len() - 1, counters.last() + utf8_len(more)),
            inserted.update(inserted.len() - 1, inserted.last() + more.len()),
        ),
        !counts ==> tidy(prefix + more, counters, inserted),
{
    let whole = prefix + more;
    let start = word_start(prefix);
    let count = inserted.last();
    lemma_word_start_grows(prefix, more);
    lemma_utf8_len_bounds(counted(prefix, inserted));
    if start > 0 {
        assert(whole.subrange(0, start - 1) =~= prefix.subrange(0, start - 1));
    }
    if counts {
        let counters2 = counters.update(counters.len() - 1, counters.last() + utf8_len(more));
        let inserted2 = inserted.update(inserted.len() - 1, inserted.last() + more.len());
        assert(counters2.drop_last() =~= counters.drop_last());
        assert(inserted2.drop_last() =~= inserted.drop_last());
        assert(counted(whole, inserted2) =~= counted(prefix, inserted) + more);
        lemma_utf8_len_concat(counted(prefix, inserted), more);
    } else if more.len() == 0 {
        assert(whole =~= prefix);
    } else {
        assert(counted(whole, inserted) =~= Seq::<char>::empty());
        assert(counted(prefix, inserted) =~= Seq::<char>::empty());
    }
}

/// A counter of nothing counts no code points, and any other counter
/// holds at least the bytes of the code point before the caret, which it
/// counts, and which is no whitespace.
proof fn lemma_counter(prefix: Seq<char>, counters: Seq<nat>, inserted: Seq<nat>)
    requires
        tidy(prefix, counters, inserted),
    ensures
        counters.last() == 0 ==> inserted.last() == 0,
        counters.last() != 0 && prefix.len() > 0 ==> inserted.last() > 0 && counters.last()
            >= utf8_width(prefix.last()) && !is_space(prefix.last()),
{
    let text = counted(prefix, inserted);
    lemma_utf8_len_bounds(text);
    lemma_word_start(prefix);
    if inserted.last() > 0 {
        assert(text.last() == prefix.last());
        lemma_utf8_len_bounds(text.drop_last());
    } else {
        assert(text =~= Seq::<char>::empty());
    }
}

/// The backspace key keeps the model in order. The counter of the current
/// word, unless it is zero, holds at least the bytes of the code point that
/// leaves, and a backspace over whitespace finds a counter to go back to.
pub proof fn lemma_backspace_in_order(s: TextState, inserted: Seq<nat>) -> (next: Seq<nat>)
    requires
        in_order(s, inserted),
    ensures
        in_order(s.backspace_key(), next),
        s.char_head > 0 ==> {
            &&& s.over_inserted.last() == 0 || s.over_inserted.last() >= utf8_width(
                s.text[s.char_head - 1],
            )
            &&& is_space(s.text[s.char_head - 1]) ==> s.over_inserted.len() >= 2
        },
{
    let t = s.backspace_key();
    let prefix = s.typed();
    lemma_backspace_wf(s);
    lemma_counter(prefix, s.over_inserted, inserted);
    lemma_word_start(prefix);
    if s.char_head == 0 {
        inserted
    } else {
        let gone = s.text[s.char_head - 1];
        let shorter = prefix.drop_last();
        let start = word_start(prefix);
        assert(prefix.last() == gone);
        assert(t.typed() == shorter);
        if s.over_inserted.last() != 0 {
            let count = inserted.last();
            let next = inserted.update(inserted.len() - 1, (count - 1) as nat);
            assert(counted(prefix, inserted).drop_last() =~= counted(shorter, next));
            assert(counted(prefix, inserted).last() == gone);
            if start > 0 {
                assert(shorter.subrange(0, start - 1) =~= prefix.subrange(0, start - 1));
            }
            assert(t.over_inserted.drop_last() =~= s.over_inserted.drop_last());
            assert(next.drop_last() =~= inserted.drop_last());
            assert(word_start(shorter) == start);
            assert(tidy(shorter, t.over_inserted, next));
            assert(!t.on_word()) by {
                if t.char_head < t.text.len() {
                    assert(t.text[t.char_head as int] == s.text[s.char_head as int]);
                }
            }
            next
        } else if is_space(gone) {
            assert(start == prefix.len());
            assert(shorter =~= prefix.subrange(0, start - 1));
            assert(tidy(shorter, s.over_inserted.drop_last(), inserted.drop_last()));
            assert(s.over_inserted.drop_last().len() >= 1);
            assert(s.ends_word());
            assert(t.text[t.char_head as int] == gone);
            assert(t.over_inserted =~= s.over_inserted.drop_last());
            inserted.drop_last()
        } else {
            lemma_word_start(shorter);
            if start > 0 {
                assert(shorter.subrange(0, start - 1) =~= prefix.subrange(0, start - 1));
            }
            assert(counted(shorter, inserted) =~= Seq::<char>::empty());
            assert(t.over_inserted =~= s.over_inserted);
            assert(tidy(shorter, t.over_inserted, inserted));
            inserted
        }
    }
}

/// A single whitespace that ends a word keeps the model in order.
proof fn lemma_commit_in_order(s: TextState, typed: Seq<char>, inserted: Seq<nat>) -> (next: Seq<
    nat,
>)
    requires
        in_order(s, inserted),
        typed.len() == 1,
        is_space(typed[0]),
    ensures
        in_order(s.commit_whitespace(typed), next),
{
    let t = s.commit_whitespace(typed);
    let prefix = s.typed();
    let end = s.skip_end();
    lemma_commit_whitespace_wf(s, typed);
    lemma_word_end_bounds(s.text, s.char_head);
    lemma_counter(prefix, s.over_inserted, inserted);
    let skipped = s.text.subrange(s.char_head as int, end as int);
    let upto = s.text.subrange(0, end as int);
    assert(upto =~= prefix + skipped);
    assert forall|i: int| 0 <= i < skipped.len() implies !is_space(#[trigger] skipped[i]) by {
        assert(skipped[i] == s.text[s.char_head + i]);
    }
    lemma_tidy_grows(prefix, s.over_inserted, inserted, skipped, false);
    let whole = upto + typed;
    let next = inserted.push(0);
    assert(t.typed() == whole);
    assert(whole.last() == typed[0]);
    assert(word_start(whole) == whole.len());
    assert(whole.subrange(0, whole.len() - 1) =~= upto);
    assert(counted(whole, next) =~= Seq::<char>::empty());
    assert(t.over_inserted.drop_last() =~= s.over_inserted);
    assert(next.drop_last() =~= inserted);
    next
}

/// A substitution keeps the model in order.
proof fn lemma_substitute_in_order(s: TextState, typed: Seq<char>, inserted: Seq<nat>)
    requires
        in_order(s, inserted),
        s.on_word(),
    ensures
        in_order(s.substitute(typed), inserted),
{
    let t = s.substitute(typed);
    let prefix = s.typed();
    let under = s.text[s.char_head as int];
    lemma_substitute_wf(s, typed);
    assert forall|i: int| 0 <= i < seq![under].len() implies !is_space(
        #[trigger] seq![under][i],
    ) by {}
    lemma_tidy_grows(prefix, s.over_inserted, inserted, seq![under], false);
    assert(t.typed() =~= prefix + seq![under]);
}

/// The insertion of a single code point that is no whitespace keeps the
/// model in order.
proof fn lemma_insert_in_order(s: TextState, typed: Seq<char>, inserted: Seq<nat>) -> (next: Seq<
    nat,
>)
    requires
        in_order(s, inserted),
        !s.on_word(),
        typed.len() == 1,
        !is_space(typed[0]),
    ensures
        in_order(s.insert(typed), next),
{
    let t = s.insert(typed);
    let prefix = s.typed();
    lemma_insert_wf(s, typed);
    lemma_tidy_grows(prefix, s.over_inserted, inserted, typed, true);
    assert(!t.on_word()) by {
        if s.char_head < s.text.len() {
            assert(t.pending() == s.pending());
            assert(t.pending()[0] == t.text[t.char_head as int]);
            assert(s.pending()[0] == s.text[s.char_head as int]);
        }
    }
    inserted.update(inserted.len() - 1, inserted.last() + typed.len())
}

/// A key press of a single code point keeps the model in order.
pub proof fn lemma_step_in_order(s: TextState, key: KeyPress, inserted: Seq<nat>) -> (next: Seq<
    nat,
>)
    requires
        in_order(s, inserted),
        ordinary(Event::Key(key)),
    ensures
        in_order(step(s, key), next),
{
    match key {
        KeyPress::Other => inserted,
        KeyPress::Backspace => lemma_backspace_in_order(s, inserted),
        KeyPress::Text(text) => {
            let typed = text@;
            if typed.len() == 0 {
                inserted
            } else if all_space(typed) {
                if s.after_word() {
                    lemma_commit_in_order(s, typed, inserted)
                } else {
                    inserted
                }
            } else if s.on_word() {
                lemma_substitute_in_order(s, typed, inserted);
                inserted
            } else {
                lemma_insert_in_order(s, typed, inserted)
            }
        },
    }
}

/// Counters that are in step with a text are in step with what is left of
/// it when its start is cut off.
proof fn lemma_tidy_cut(prefix: Seq<char>, counters: Seq<nat>, inserted: Seq<nat>, chars: nat)
    -> (next: Seq<nat>)
    requires
        tidy(prefix, counters, inserted),
        chars <= prefix.len(),
    ensures
        tidy(prefix.subrange(chars as int, prefix.len() as int), counters, next),
    decreases prefix.len(),
{
    let rest = prefix.subrange(chars as int, prefix.len() as int);
    let start = word_start(prefix);
    let count = inserted.last();
    lemma_word_start(prefix);
    lemma_word_start(rest);
    if chars >= start {
        // The cut leaves a part of the last word alone.
        assert(word_start(rest) == 0) by {
            if word_start(rest) > 0 {
                assert(rest[word_start(rest) - 1] == prefix[chars + word_start(rest) - 1]);
            }
        }
        let left = if count <= rest.len() {
            count
        } else {
            rest.len()
        };
        let next = inserted.update(inserted.len() - 1, left);
        assert(counted(rest, next) =~= counted(prefix, inserted).subrange(
            count - left,
            count as int,
        ));
        lemma_utf8_len_prefix(counted(prefix, inserted), count - left, count as int);
        assert(counted(prefix, inserted).subrange(0, count as int) =~= counted(prefix, inserted));
        if count <= rest.len() {
            assert(counted(rest, next) =~= counted(prefix, inserted));
        }
        next
    } else {
        let head = prefix.subrange(0, start - 1);
        let lower = lemma_tidy_cut(head, counters.drop_last(), inserted.drop_last(), chars);
        let next = lower.push(count);
        assert(word_start(rest) == start - chars) by {
            lemma_word_start_after_cut(prefix, chars);
        }
        assert(rest.subrange(0, start - chars - 1) =~= head.subrange(
            chars as int,
            head.len() as int,
        ));
        assert(next.drop_last() =~= lower);
        assert(counted(rest, next) =~= counted(prefix, inserted));
        next
    }
}

/// A cut before the start of the last word leaves the word where it was,
/// seen from the end.
proof fn lemma_word_start_after_cut(prefix: Seq<char>, chars: nat)
    requires
        chars < word_start(prefix),
    ensures
        word_start(prefix) <= prefix.len(),
        word_start(prefix.subrange(chars as int, prefix.len() as int)) == word_start(prefix)
            - chars,
    decreases prefix.len(),
{
    lemma_word_start(prefix);
    let rest = prefix.subrange(chars as int, prefix.len() as int);
    if prefix.len() > 0 && !is_space(prefix.last()) {
        lemma_word_start_after_cut(prefix.drop_last(), chars);
        assert(rest.drop_last() =~= prefix.drop_last().subrange(
            chars as int,
            prefix.len() - 1,
        ));
        assert(rest.last() == prefix.last());
    } else {
        assert(rest.last() == prefix.last());
    }
}

/// Cutting off the start of the buffer keeps the model in order.
pub proof fn lemma_cut_in_order(s: TextState, chars: nat, inserted: Seq<nat>) -> (next: Seq<nat>)
    requires
        in_order(s, inserted),
        chars <= s.char_head,
    ensures
        in_order(s.truncate_prefix(chars), next),
{
    let t = s.truncate_prefix(chars);
    lemma_truncate_prefix_wf(s, chars);
    let next = lemma_tidy_cut(s.typed(), s.over_inserted, inserted, chars);
    assert(t.typed() =~= s.typed().subrange(chars as int, s.char_head as int));
    assert(!t.on_word() || t.over_inserted.last() == 0) by {
        if t.char_head < t.text.len() {
            assert(t.text[t.char_head as int] == s.text[s.char_head as int]);
        }
    }
    next
}

/// Fresh text that begins with whitespace keeps the model in order.
pub proof fn lemma_more_in_order(s: TextState, text: Seq<char>, inserted: Seq<nat>)
    requires
        in_order(s, inserted),
        text.len() == 0 || is_space(text[0]),
    ensures
        in_order(s.append(text), inserted),
{
    let t = s.append(text);
    lemma_append_wf(s, text);
    assert(t.typed() =~= s.typed());
    assert(!t.on_word() || t.over_inserted.last() == 0) by {
        if t.char_head < t.text.len() {
            if s.char_head < s.text.len() {
                assert(t.text[t.char_head as int] == s.text[s.char_head as int]);
            } else {
                assert(t.text[t.char_head as int] == text[0]);
            }
        }
    }
}

/// A fresh model is in order.
pub proof fn lemma_start_in_order(text: Seq<char>)
    ensures
        in_order(TextState::start(text), seq![0nat]),
{
    let s = TextState::start(text);
    lemma_start_wf(text);
    assert(s.typed() =~= Seq::<char>::empty());
    assert(counted(s.typed(), seq![0nat]) =~= Seq::<char>::empty());
}

/// Ordinary use never reaches the limits of the counters. From a fresh
/// model, through any key presses of a single code point each, any cuts of
/// the start of the buffer, and any fresh text that begins with whitespace,
/// the model stays in order: so a backspace that takes a code point out of
/// the buffer finds its bytes in the counter of the current word, and a
/// backspace over whitespace finds the counter of the word before it.
pub proof fn lemma_ordinary_use_stays_in_order(text: Seq<char>, events: Seq<Event>) -> (inserted:
    Seq<nat>)
    requires
        forall|i: int| 0 <= i < events.len() ==> ordinary(#[trigger] events[i]),
    ensures
        in_order(after_all(TextState::start(text), events), inserted),
        ({
            let s = after_all(TextState::start(text), events);
            s.char_head > 0 ==> {
                &&& s.over_inserted.last() == 0 || s.over_inserted.last() >= utf8_width(
                    s.text[s.char_head - 1],
                )
                &&& is_space(s.text[s.char_head - 1]) ==> s.over_inserted.len() >= 2
            }
        }),
    decreases events.len(),
{
    let inserted = if events.len() == 0 {
        lemma_start_in_order(text);
        seq![0nat]
    } else {
        let before = lemma_ordinary_use_stays_in_order(text, events.drop_last());
        let s = after_all(TextState::start(text), events.drop_last());
        assert(ordinary(events[events.len() - 1]));
        match events.last() {
            Event::Key(key) => lemma_step_in_order(s, key, before),
            Event::Cut(chars) => if chars <= s.char_head {
                lemma_cut_in_order(s, chars, before)
            } else {
                before
            },
            Event::More(more) => {
                lemma_more_in_order(s, more, before);
                before
            },
        }
    };
    let s = after_all(TextState::start(text), events);
    let _ = lemma_backspace_in_order(s, inserted);
    inserted
}

} // verus!
