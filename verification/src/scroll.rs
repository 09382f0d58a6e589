//! Scrolling of the text view: the caret's line is kept one line below the
//! top of the visible window, the lines that have scrolled out of view are
//! dropped from the buffer, and fresh text is asked for before the buffer
//! runs out.

use crate::animation::{
    approach, approached, clamp_i32, clamped, distance, gap, lemma_approached, mix, mix_for,
};
use crate::dictionary::{distinct_below, joined, pick_count, picked, Dictionary};
use crate::text_state::{chars_within, is_boundary, TextState};
use crate::text_view::{TextView, FRESH_WORDS};
use crate::unicode::utf8_len;
use vstd::prelude::*;

verus! {

/// Below this distance from its target the scroll offset snaps to it: half
/// a pixel.
pub const SCROLL_SNAP_DISTANCE: u32 = 500;

/// The share of the distance that the scroll offset covers per second, in
/// wholes.
pub const SCROLL_RATE: u32 = 20;

/// Fresh text is due when fewer full lines than this are left.
pub const LOW_WATER_LINES: usize = 5;

/// How many lines of the text the view shows.
pub const VISIBLE_LINES: i32 = 3;

/// Why a layout could not be followed.
#[derive(Clone, Copy, Debug, PartialEq, Eq, Structural)]
pub enum LayoutError {
    /// The line height is not positive.
    NoLineHeight,
    /// The text has scrolled by more lines than the layout has wrapped
    /// lines.
    MissingWrapBoundary,
    /// The line to cut at does not begin between two code points at or
    /// before the caret.
    BadCut,
}

/// What the text view does after a layout was followed.
#[derive(Clone, Copy, Debug, PartialEq, Eq, Structural)]
pub struct LayoutOutcome {
    /// The byte offset before which the text was dropped, where it was.
    pub truncated_at: Option<usize>,
    /// Whether fresh text is due.
    pub needs_text: bool,
}

/// How many whole lines of height `line_height` the offset `y_pos` has
/// scrolled past, to the nearest line; none where the offset or the line
/// height is not positive.
pub open spec fn lines_scrolled(y_pos: int, line_height: int) -> nat {
    if y_pos <= 0 || line_height <= 0 {
        0
    } else {
        ((2 * y_pos + line_height) / (2 * line_height)) as nat
    }
}

/// The scroll offset that puts the line at `glyph_y` one line below the top
/// of the window.
pub open spec fn scroll_target(glyph_y: int, line_height: int) -> int {
    if glyph_y - line_height > 0 {
        clamped(glyph_y - line_height)
    } else {
        0
    }
}

/// Computes `lines_scrolled`.
pub fn scrolled_lines(y_pos: i32, line_height: i32) -> (lines: usize)
    ensures
        lines == lines_scrolled(y_pos as int, line_height as int),
{
    if y_pos <= 0 || line_height <= 0 {
        0
    } else {
        let twice: u64 = 2 * (y_pos as u64) + (line_height as u64);
        let per: u64 = 2 * (line_height as u64);
        assert(twice / per <= y_pos + 1) by (nonlinear_arith)
            requires
                line_height >= 1,
                y_pos >= 1,
                twice == 2 * y_pos + line_height,
                per == 2 * line_height,
        ;
        (twice / per) as usize
    }
}

/// The scroll state of the text view.
pub struct ScrollController {
    target_scroll: i32,
    animate_scroll: bool,
}

impl ScrollController {
    /// The offset that the view scrolls towards.
    pub closed spec fn target(&self) -> int {
        self.target_scroll as int
    }

    /// Whether the view glides to its target, or jumps there.
    pub closed spec fn animated(&self) -> bool {
        self.animate_scroll
    }

    /// The target offset is never negative.
    pub open spec fn wf(&self) -> bool {
        self.target() >= 0
    }

    /// A controller for a view that has not scrolled.
    pub fn new() -> (scroll: ScrollController)
        ensures
            scroll.wf(),
            scroll.target() == 0,
            scroll.animated(),
    {
        ScrollController { target_scroll: 0, animate_scroll: true }
    }

    /// The offset that the view scrolls towards.
    pub fn target_scroll(&self) -> (y: i32)
        ensures
            y == self.target(),
    {
        self.target_scroll
    }

    /// Whether the view glides to its target.
    pub fn animate_scroll(&self) -> (b: bool)
        ensures
            b == self.animated(),
    {
        self.animate_scroll
    }

    /// The view glides: gliding is on, the window is active, and the target
    /// lies farther than the snap distance.
    pub open spec fn glides(&self, current_scroll: i32, window_active: bool) -> bool {
        gap(current_scroll as int, self.target()) > SCROLL_SNAP_DISTANCE && window_active
            && self.animated()
    }

    /// Advances the scroll offset by one frame that comes `elapsed_us`
    /// microseconds after the last, and tells whether the view is still
    /// scrolling, so that another frame is due.
    pub fn animate(
        &self,
        current_scroll: &mut i32,
        elapsed_us: u64,
        window_active: bool,
    ) -> (scrolling: bool)
        ensures
            scrolling == self.glides(*old(current_scroll), window_active),
            *final(current_scroll) == if scrolling {
                approached(
                    *old(current_scroll) as int,
                    self.target(),
                    mix_for(elapsed_us as nat, SCROLL_RATE as nat),
                )
            } else {
                self.target()
            },
    {
        if distance(*current_scroll as i64, self.target_scroll as i64) > SCROLL_SNAP_DISTANCE as u64
            && window_active && self.animate_scroll {
            let share = mix(elapsed_us, SCROLL_RATE);
            proof {
                lemma_approached(*current_scroll as int, self.target_scroll as int, share as nat);
            }
            *current_scroll = approach(
                *current_scroll as i64,
                self.target_scroll as i64,
                share,
            ) as i32;
            true
        } else {
            *current_scroll = self.target_scroll;
            false
        }
    }

    /// A cut is due: the text has scrolled by at least one line, and the
    /// view has come to rest.
    pub open spec fn cut_due(&self, line_height: i32, scrolling: bool) -> bool {
        lines_scrolled(self.target(), line_height as int) != 0 && !scrolling
    }

    /// Why the layout cannot be followed, if it cannot.
    pub open spec fn layout_error(
        &self,
        text: TextState,
        line_height: i32,
        scrolling: bool,
        wraps: Seq<usize>,
    ) -> Option<LayoutError> {
        let lines = lines_scrolled(self.target(), line_height as int);
        if line_height <= 0 {
            Some(LayoutError::NoLineHeight)
        } else if lines > wraps.len() {
            Some(LayoutError::MissingWrapBoundary)
        } else if self.cut_due(line_height, scrolling) && !(is_boundary(
            text.text,
            wraps[lines - 1] as nat,
        ) && wraps[lines - 1] <= text.utf8_head) {
            Some(LayoutError::BadCut)
        } else {
            None
        }
    }

    /// Follows a layout of the text. `glyph_y` is where the layout puts the
    /// line of the caret, `wraps` holds the byte offset at which each
    /// wrapped line begins, and `scrolling` tells whether the view was still
    /// gliding in this frame.
    ///
    /// The lines that the old target had scrolled past are dropped from the
    /// text once the view has come to rest; the view then jumps back to the
    /// top. Otherwise the new target keeps the caret's line one line below
    /// the top. Fresh text is due when fewer than `LOW_WATER_LINES` full
    /// lines are left below the lines scrolled past.
    pub fn after_layout(
        &mut self,
        text: &mut TextView,
        glyph_y: i32,
        line_height: i32,
        scrolling: bool,
        wraps: &Vec<usize>,
    ) -> (result: Result<LayoutOutcome, LayoutError>)
        requires
            old(self).wf(),
            old(text).wf(),
        ensures
            final(self).wf(),
            final(text).wf(),
            match result {
                Err(e) => {
                    &&& old(self).layout_error(old(text)@, line_height, scrolling, wraps@) == Some(
                        e,
                    )
                    &&& final(text)@ == old(text)@
                    &&& final(self).target() == old(self).target()
                    &&& final(self).animated() == old(self).animated()
                },
                Ok(outcome) => {
                    let lines = lines_scrolled(old(self).target(), line_height as int);
                    &&& old(self).layout_error(old(text)@, line_height, scrolling, wraps@) is None
                    &&& outcome.needs_text == (wraps@.len() - lines < LOW_WATER_LINES)
                    &&& if old(self).cut_due(line_height, scrolling) {
                        &&& outcome.truncated_at == Some(wraps@[lines - 1])
                        &&& final(text)@ == old(text)@.truncate_prefix(
                            chars_within(old(text)@.text, wraps@[lines - 1] as nat),
                        )
                        &&& final(self).target() == 0
                        &&& !final(self).animated()
                    } else {
                        &&& outcome.truncated_at is None
                        &&& final(text)@ == old(text)@
                        &&& final(self).target() == scroll_target(
                            glyph_y as int,
                            line_height as int,
                        )
                        &&& final(self).animated()
                    }
                },
            },
    {
        if line_height <= 0 {
            return Err(LayoutError::NoLineHeight);
        }
        let lines = scrolled_lines(self.target_scroll, line_height);
        if lines > wraps.len() {
            return Err(LayoutError::MissingWrapBoundary);
        }
        let mut truncated_at: Option<usize> = None;
        if lines != 0 && !scrolling {
            let cut = wraps[lines - 1];
            if !text.truncate_prefix(cut) {
                return Err(LayoutError::BadCut);
            }
            truncated_at = Some(cut);
            self.target_scroll = 0;
            self.animate_scroll = false;
        } else {
            let above: i64 = glyph_y as i64 - line_height as i64;
            self.target_scroll = if above > 0 {
                clamp_i32(above)
            } else {
                0
            };
            self.animate_scroll = true;
        }
        Ok(LayoutOutcome { truncated_at, needs_text: wraps.len() - lines < LOW_WATER_LINES })
    }
}

/// The text after the words at the picked indices of the dictionary have
/// joined it, behind a single space; the text as it was, where that would
/// take its byte length past `usize`.
pub open spec fn with_fresh_words(text: TextState, words: Seq<Seq<char>>, picks: Seq<usize>)
    -> TextState {
    let fresh = seq![' '] + joined(picked(words, picks));
    if utf8_len(text.text) + utf8_len(fresh) <= usize::MAX {
        text.append(fresh)
    } else {
        text
    }
}

/// Supplies the text with fresh words where the layout has found that they
/// are due: `FRESH_WORDS` words of the dictionary, picked at random, join
/// the end of the text behind a single space. Nothing changes where no
/// fresh text is due.
pub fn add_fresh_text(text: &mut TextView, dictionary: &Dictionary, outcome: &LayoutOutcome)
    requires
        old(text).wf(),
    ensures
        final(text).wf(),
        !outcome.needs_text ==> final(text)@ == old(text)@,
        outcome.needs_text ==> exists|picks: Seq<usize>|
            {
                &&& picks.len() == pick_count(FRESH_WORDS as nat, dictionary@.len())
                &&& distinct_below(picks, dictionary@.len())
                &&& #[trigger] with_fresh_words(old(text)@, dictionary@, picks) == final(text)@
            },
{
    if outcome.needs_text {
        let words = dictionary.random_text(FRESH_WORDS);
        proof {
            crate::unicode::lemma_utf8_len_concat(seq![' '], words@);
            crate::unicode::lemma_utf8_len_one(' ');
        }
        let ghost picks = choose|picks: Seq<usize>|
            {
                &&& picks.len() == pick_count(FRESH_WORDS as nat, dictionary@.len())
                &&& distinct_below(picks, dictionary@.len())
                &&& #[trigger] joined(picked(dictionary@, picks)) == words@
            };
        text.push_words(words.as_str());
        assert(with_fresh_words(old(text)@, dictionary@, picks) == text@);
    }
}

} // verus!
