//! The typed-text model against a plain model that edits a `String` in
//! place, over long runs of single key presses.

use steno::text_state::KeyPress;
use steno::text_view::TextView;

/// A plain model of the text view: a `String`, two indices, and two lists.
struct Plain {
    text: String,
    char_head: usize,
    utf8_head: usize,
    over_inserted_stack: Vec<usize>,
    run_lens: Vec<(bool, usize)>,
}

impl Plain {
    fn new(text: &str) -> Self {
        Plain {
            text: text.to_string(),
            char_head: 0,
            utf8_head: 0,
            over_inserted_stack: vec![0],
            run_lens: Vec::new(),
        }
    }

    fn add_run(&mut self, correct: bool, utf8_len: usize, char_len: usize) {
        match self.run_lens.last_mut() {
            Some((last_correct, last_len)) if *last_correct == correct => *last_len += utf8_len,
            _ => self.run_lens.push((correct, utf8_len)),
        }
        self.utf8_head += utf8_len;
        self.char_head += char_len;
    }

    fn add_whitespace(&mut self, whitespace: &str) {
        let end_of_word: usize = self
            .text
            .chars()
            .enumerate()
            .take_while(|(idx, c)| *idx < self.char_head || !c.is_whitespace())
            .map(|(_, c)| c.len_utf8())
            .sum();
        if end_of_word > self.utf8_head {
            let skipped = self.text[self.utf8_head..end_of_word].chars().count();
            self.add_run(false, end_of_word - self.utf8_head, skipped);
        }
        let replace_len: usize = self
            .text
            .chars()
            .skip(self.char_head)
            .take_while(|c| c.is_whitespace())
            .map(char::len_utf8)
            .sum();
        self.text.replace_range(end_of_word..end_of_word + replace_len, whitespace);
        self.add_run(replace_len != 0, whitespace.len(), whitespace.chars().count());
        self.over_inserted_stack.push(0);
    }

    fn backspace(&mut self) {
        if self.char_head == 0 {
            return;
        }
        let gone = self.text.chars().nth(self.char_head - 1).unwrap();
        let unwind_len = gone.len_utf8();
        let over_inserted = self.over_inserted_stack.last_mut().unwrap();
        if *over_inserted != 0 {
            self.text.replace_range(self.utf8_head - unwind_len..self.utf8_head, "");
            *over_inserted -= unwind_len;
        }
        let last = self.run_lens.last_mut().unwrap();
        last.1 -= unwind_len;
        if last.1 == 0 {
            self.run_lens.pop();
        }
        self.utf8_head -= unwind_len;
        self.char_head -= 1;
        if gone.is_whitespace() {
            self.over_inserted_stack.pop();
        }
    }

    fn key(&mut self, key: Option<&str>) {
        let under = self.text.chars().nth(self.char_head);
        match (under, key) {
            (_, None) => self.backspace(),
            (_, Some(typed)) if typed.chars().all(char::is_whitespace) => {
                let after_word = self.char_head != 0
                    && self
                        .text
                        .chars()
                        .nth(self.char_head - 1)
                        .is_some_and(|c| !c.is_whitespace());
                if after_word {
                    self.add_whitespace(typed);
                }
            }
            (Some(replaced), Some(typed)) if !replaced.is_whitespace() => {
                self.add_run(replaced.to_string() == typed, replaced.len_utf8(), 1);
            }
            (_, Some(typed)) => {
                self.text.insert_str(self.utf8_head, typed);
                self.add_run(false, typed.len(), typed.chars().count());
                *self.over_inserted_stack.last_mut().unwrap() += typed.len();
            }
        }
    }

    fn truncate(&mut self, utf8_len: usize) {
        let char_len = self.text[..utf8_len].chars().count();
        let mut offset = 0;
        let mut idx = 0;
        while offset + self.run_lens[idx].1 <= utf8_len {
            offset += self.run_lens[idx].1;
            idx += 1;
        }
        let kept = offset + self.run_lens[idx].1 - utf8_len;
        self.run_lens.drain(0..idx);
        self.run_lens[0].1 = kept;
        self.text.drain(0..utf8_len);
        self.char_head -= char_len;
        self.utf8_head -= utf8_len;
    }
}

struct Dice(u64);

impl Dice {
    fn roll(&mut self, sides: u64) -> u64 {
        self.0 = self.0.wrapping_mul(6364136223846793005).wrapping_add(1442695040888963407);
        (self.0 >> 33) % sides
    }
}

fn assert_same(view: &TextView, plain: &Plain, step: usize) {
    assert_eq!(view.text(), plain.text, "step {}", step);
    assert_eq!(view.char_head(), plain.char_head, "step {}", step);
    assert_eq!(view.utf8_head(), plain.utf8_head, "step {}", step);
    assert_eq!(view.over_inserted_stack(), &plain.over_inserted_stack, "step {}", step);
    let runs: Vec<(bool, usize)> =
        view.run_lens().iter().map(|r| (r.correct, r.bytes)).collect();
    assert_eq!(runs, plain.run_lens, "step {}", step);
}

fn session(text: &str, keys: &[&str], seed: u64, steps: usize, truncate: bool) {
    let mut dice = Dice(seed);
    let mut view = TextView::new(text);
    let mut plain = Plain::new(text);
    for step in 0..steps {
        if truncate && dice.roll(50) == 0 {
            assert!(view.push_str(" more words"));
            plain.text.push_str(" more words");
        } else if truncate && dice.roll(40) == 0 && plain.utf8_head > 0 {
            let mut cut = dice.roll(plain.utf8_head as u64) as usize;
            while !plain.text.is_char_boundary(cut) {
                cut -= 1;
            }
            assert!(view.truncate_prefix(cut));
            plain.truncate(cut);
        } else if dice.roll(4) == 0 {
            assert!(view.key_down(&KeyPress::Backspace));
            plain.key(None);
        } else {
            let key = keys[dice.roll(keys.len() as u64) as usize];
            assert!(view.key_down(&KeyPress::Text(key.to_string())));
            plain.key(Some(key));
        }
        assert_same(&view, &plain, step);
    }
}

#[test]
fn ascii_sessions_agree_with_the_plain_model() {
    let text = "the quick brown fox jumps over the lazy dog and runs";
    for seed in 0..200 {
        session(text, &["a", "e", "o", "t", " ", " ", "x"], seed, 300, false);
    }
}

#[test]
fn sessions_with_varied_whitespace_agree_with_the_plain_model() {
    let text = "one  two \t three\nfour   five";
    for seed in 0..200 {
        session(text, &["o", "n", "e", "t", " ", "\t", "\n", "w"], seed, 200, false);
    }
}

#[test]
fn multi_byte_sessions_agree_with_the_plain_model() {
    let text = "één twee drïe vier vijf zes zeven acht négen tien";
    for seed in 0..200 {
        session(text, &["é", "e", "ï", "n", " ", "\u{a0}", "€", "😀"], seed, 300, false);
    }
}

#[test]
fn sessions_with_truncation_and_fresh_text_agree_with_the_plain_model() {
    let text = "the quick brown fox jumps over the lazy dog and runs on and on and on";
    for seed in 0..200 {
        session(text, &["a", "e", "o", "t", " ", " ", "é"], seed, 300, true);
    }
}
