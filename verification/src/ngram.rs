//! A word list from 1-gram records: each record names a word, a year and
//! how often and in how many volumes the word was found that year. The
//! records are read, the counts of each word are added up, and the words
//! are ranked by how often they were found.

use crate::text_state::space_end;
use crate::unicode::{chars_of, is_space, is_whitespace, string_of};
use vstd::hash_map::StringHashMap;
use vstd::prelude::*;

verus! {

/// Records of earlier years are left out.
pub const FIRST_YEAR: u64 = 1980;

/// Words found in fewer volumes are left out.
pub const MIN_VOLUMES: u64 = 1000;

/// Words of no more code points are left out.
pub const SHORT_WORD: usize = 2;

/// One record of the data.
pub struct Record {
    /// The word, without the tags that follow it in the data.
    pub word: String,
    pub year: u64,
    /// How often the word was found.
    pub matches: u64,
    /// In how many volumes it was found.
    pub volumes: u64,
}

/// A word and how often it was found.
#[derive(Debug)]
pub struct WordCount {
    pub word: String,
    pub matches: u64,
}

/// How many code points stand between `from` and the next `sep`, or the end
/// of the text.
pub open spec fn span_to(s: Seq<char>, sep: char, from: nat) -> nat
    decreases s.len() - from,
{
    if from >= s.len() || s[from as int] == sep {
        0
    } else {
        1 + span_to(s, sep, from + 1)
    }
}

/// The fields of `s` from index `from` on, where `sep` parts two fields.
pub open spec fn fields_from(s: Seq<char>, sep: char, from: nat) -> Seq<Seq<char>>
    decreases s.len() - from,
{
    let end = from + span_to(s, sep, from);
    if end >= s.len() {
        seq![s.subrange(from as int, s.len() as int)]
    } else {
        seq![s.subrange(from as int, end as int)] + fields_from(s, sep, end + 1)
    }
}

/// What stands before the first `sep` in `s`; all of `s` where none does.
pub open spec fn before(s: Seq<char>, sep: char) -> Seq<char> {
    s.subrange(0, span_to(s, sep, 0) as int)
}

/// Where the whitespace at the end of `s` begins.
pub open spec fn trail_start(s: Seq<char>) -> nat
    decreases s.len(),
{
    if s.len() == 0 || !is_space(s.last()) {
        s.len()
    } else {
        trail_start(s.drop_last())
    }
}

/// `s` without the whitespace at its start and at its end.
pub open spec fn trimmed(s: Seq<char>) -> Seq<char> {
    if space_end(s, 0) >= trail_start(s) {
        Seq::empty()
    } else {
        s.subrange(space_end(s, 0) as int, trail_start(s) as int)
    }
}

/// The word that a field of the data names: what stands before the first
/// underscore and the first full stop, without whitespace around it.
pub open spec fn word_of(field: Seq<char>) -> Seq<char> {
    trimmed(before(before(field, '_'), '.'))
}

/// Every code point is a small letter of the Latin alphabet.
pub open spec fn all_lowercase(word: Seq<char>) -> bool {
    forall|i: int| 0 <= i < word.len() ==> 'a' <= #[trigger] word[i] <= 'z'
}

/// The record counts: its word is longer than `SHORT_WORD`, made of small
/// Latin letters alone, and the record is of `FIRST_YEAR` or later.
pub open spec fn counts(word: Seq<char>, year: u64) -> bool {
    all_lowercase(word) && word.len() > SHORT_WORD && year >= FIRST_YEAR
}

/// The number that the decimal digits stand for.
pub open spec fn decimal(digits: Seq<char>) -> nat
    decreases digits.len(),
{
    if digits.len() == 0 {
        0
    } else {
        decimal(digits.drop_last()) * 10 + (digits.last() as nat - '0' as nat) as nat
    }
}

/// Every code point is a decimal digit.
pub open spec fn all_digits(s: Seq<char>) -> bool {
    forall|i: int| 0 <= i < s.len() ==> '0' <= #[trigger] s[i] <= '9'
}

/// The digits of a number: the text without the plus sign that may stand
/// before it.
pub open spec fn unsigned(s: Seq<char>) -> Seq<char> {
    if s.len() > 0 && s[0] == '+' {
        s.subrange(1, s.len() as int)
    } else {
        s
    }
}

/// The number that `s` stands for: one or more decimal digits, with or
/// without a plus sign before them, whose number fits in `u64`.
pub open spec fn number(s: Seq<char>) -> Option<u64> {
    if unsigned(s).len() > 0 && all_digits(unsigned(s)) && decimal(unsigned(s)) <= u64::MAX {
        Some(decimal(unsigned(s)) as u64)
    } else {
        None
    }
}

/// A longer run of digits stands for no smaller number.
proof fn lemma_decimal_grows(digits: Seq<char>, count: int)
    requires
        0 <= count <= digits.len(),
        all_digits(digits),
    ensures
        decimal(digits.subrange(0, count)) <= decimal(digits),
    decreases digits.len(),
{
    if count == digits.len() {
        assert(digits.subrange(0, count) =~= digits);
    } else {
        assert(digits.drop_last().subrange(0, count) =~= digits.subrange(0, count));
        assert(digits[digits.len() - 1] >= '0');
        lemma_decimal_grows(digits.drop_last(), count);
    }
}

/// Reads a number from `s[from..to]`.
pub fn parse_number(s: &Vec<char>, from: usize, to: usize) -> (n: Option<u64>)
    requires
        from <= to <= s@.len(),
    ensures
        n == number(s@.subrange(from as int, to as int)),
{
    let ghost text = s@.subrange(from as int, to as int);
    let start: usize = if from < to && s[from] == '+' {
        from + 1
    } else {
        from
    };
    let ghost digits = unsigned(text);
    assert(digits =~= s@.subrange(start as int, to as int));
    if start == to {
        return None;
    }
    let mut value: u64 = 0;
    let mut i: usize = start;
    assert(digits.subrange(0, 0) =~= Seq::<char>::empty());
    while i < to
        invariant
            from <= start <= i <= to <= s@.len(),
            digits == s@.subrange(start as int, to as int),
            digits == unsigned(s@.subrange(from as int, to as int)),
            all_digits(digits.subrange(0, i - start)),
            value == decimal(digits.subrange(0, i - start)),
        decreases to - i,
    {
        let c = s[i];
        if c < '0' || c > '9' {
            assert(!('0' <= digits[i - start] <= '9'));
            return None;
        }
        let digit: u64 = (c as u32 - '0' as u32) as u64;
        let ghost upto = digits.subrange(0, i + 1 - start);
        proof {
            assert(upto.drop_last() =~= digits.subrange(0, i - start));
            assert(upto.last() == c);
            assert forall|j: int| 0 <= j < upto.len() implies '0' <= #[trigger] upto[j]
                <= '9' by {
                if j < upto.len() - 1 {
                    assert(upto[j] == digits.subrange(0, i - start)[j]);
                }
            }
        }
        let next = match value.checked_mul(10) {
            Some(tens) => tens.checked_add(digit),
            None => None,
        };
        match next {
            Some(next) => {
                value = next;
            },
            None => {
                proof {
                    assert(decimal(upto) > u64::MAX);
                    if all_digits(digits) {
                        lemma_decimal_grows(digits, i + 1 - start);
                    }
                }
                return None;
            },
        }
        i = i + 1;
    }
    assert(digits.subrange(0, i - start) =~= digits);
    Some(value)
}

/// Where the field that begins at `from` ends: at the next `sep`, or at the
/// end of the text.
pub fn field_end(s: &Vec<char>, sep: char, from: usize, to: usize) -> (end: usize)
    requires
        from <= to <= s@.len(),
    ensures
        from <= end <= to,
        end == from + span_to(s@.subrange(0, to as int), sep, from as nat),
{
    let ghost text = s@.subrange(0, to as int);
    let mut end: usize = from;
    while end < to && s[end] != sep
        invariant
            from <= end <= to <= s@.len(),
            text == s@.subrange(0, to as int),
            from + span_to(text, sep, from as nat) == end + span_to(text, sep, end as nat),
        decreases to - end,
    {
        end = end + 1;
    }
    end
}

/// The bounds of `s[from..to]` without the whitespace at its start and at
/// its end.
fn trim(s: &Vec<char>, from: usize, to: usize) -> (bounds: (usize, usize))
    requires
        from <= to <= s@.len(),
    ensures
        from <= bounds.0 <= bounds.1 <= to,
        s@.subrange(bounds.0 as int, bounds.1 as int) == trimmed(
            s@.subrange(from as int, to as int),
        ),
{
    let ghost text = s@.subrange(from as int, to as int);
    let mut left: usize = from;
    while left < to && is_whitespace(s[left])
        invariant
            from <= left <= to <= s@.len(),
            text == s@.subrange(from as int, to as int),
            space_end(text, 0) == space_end(text, (left - from) as nat),
        decreases to - left,
    {
        left = left + 1;
    }
    let mut right: usize = to;
    assert(text.subrange(0, right - from) =~= text);
    while right > from && is_whitespace(s[right - 1])
        invariant
            from <= right <= to <= s@.len(),
            text == s@.subrange(from as int, to as int),
            trail_start(text) == trail_start(text.subrange(0, right - from)),
        decreases right,
    {
        assert(text.subrange(0, right - from).drop_last() =~= text.subrange(
            0,
            right - 1 - from,
        ));
        right = right - 1;
    }
    proof {
        let head = text.subrange(0, right - from);
        assert(head.len() == 0 || !is_space(head.last()));
    }
    if left >= right {
        assert(s@.subrange(left as int, left as int) =~= Seq::<char>::empty());
        (left, left)
    } else {
        assert(s@.subrange(left as int, right as int) =~= text.subrange(
            left - from,
            right - from,
        ));
        (left, right)
    }
}

/// What a line of the data says: its first four fields, parted by tabs, are
/// a word with its tags, a year, and the two counts. `None` for a line with
/// fewer fields, or with a year or a count that is no number.
pub open spec fn record_of(line: Seq<char>) -> Option<(Seq<char>, u64, u64, u64)> {
    let fields = fields_from(line, '\t', 0);
    if fields.len() < 4 {
        None
    } else {
        match (number(fields[1]), number(fields[2]), number(fields[3])) {
            (Some(year), Some(matches), Some(volumes)) => Some(
                (word_of(fields[0]), year, matches, volumes),
            ),
            _ => None,
        }
    }
}

/// The fields of a text begin with the field up to the first separator,
/// and go on behind it.
proof fn lemma_fields_unfold(s: Seq<char>, sep: char, from: nat)
    requires
        from <= s.len(),
    ensures
        ({
            let end = from + span_to(s, sep, from);
            let fields = fields_from(s, sep, from);
            &&& from <= end <= s.len()
            &&& fields.len() >= 1
            &&& fields[0] == s.subrange(from as int, end as int)
            &&& end == s.len() ==> fields.len() == 1
            &&& end < s.len() ==> fields.len() == 1 + fields_from(s, sep, end + 1).len()
            &&& end < s.len() ==> forall|k: int|
                1 <= k < fields.len() ==> fields[k] == #[trigger] fields_from(s, sep, end + 1)[k
                    - 1]
        }),
{
    lemma_span_to(s, sep, from);
}

/// A field ends within the text.
proof fn lemma_span_to(s: Seq<char>, sep: char, from: nat)
    requires
        from <= s.len(),
    ensures
        from + span_to(s, sep, from) <= s.len(),
    decreases s.len() - from,
{
    if from < s.len() && s[from as int] != sep {
        lemma_span_to(s, sep, from + 1);
    }
}

/// Reads one line of the data.
pub fn parse_record(line: &str) -> (record: Option<Record>)
    ensures
        match record {
            Some(r) => record_of(line@) == Some((r.word@, r.year, r.matches, r.volumes)),
            None => record_of(line@) is None,
        },
{
    let chars = chars_of(line);
    let n = chars.len();
    let ghost fields = fields_from(chars@, '\t', 0);
    assert(chars@.subrange(0, n as int) =~= chars@);
    let e0 = field_end(&chars, '\t', 0, n);
    proof {
        lemma_fields_unfold(chars@, '\t', 0);
    }
    if e0 == n {
        return None;
    }
    let e1 = field_end(&chars, '\t', e0 + 1, n);
    proof {
        lemma_fields_unfold(chars@, '\t', (e0 + 1) as nat);
    }
    if e1 == n {
        return None;
    }
    let e2 = field_end(&chars, '\t', e1 + 1, n);
    proof {
        lemma_fields_unfold(chars@, '\t', (e1 + 1) as nat);
    }
    if e2 == n {
        return None;
    }
    let e3 = field_end(&chars, '\t', e2 + 1, n);
    proof {
        lemma_fields_unfold(chars@, '\t', (e2 + 1) as nat);
        let rest1 = fields_from(chars@, '\t', (e0 + 1) as nat);
        let rest2 = fields_from(chars@, '\t', (e1 + 1) as nat);
        let rest3 = fields_from(chars@, '\t', (e2 + 1) as nat);
        assert(fields.len() >= 4);
        assert(fields[0] == chars@.subrange(0, e0 as int));
        assert(fields[1] == rest1[0]);
        assert(fields[2] == rest1[1]);
        assert(rest1[1] == rest2[0]);
        assert(fields[3] == rest1[2]);
        assert(rest1[2] == rest2[1]);
        assert(rest2[1] == rest3[0]);
    }
    let year = match parse_number(&chars, e0 + 1, e1) {
        Some(year) => year,
        None => {
            return None;
        },
    };
    let matches = match parse_number(&chars, e1 + 1, e2) {
        Some(matches) => matches,
        None => {
            return None;
        },
    };
    let volumes = match parse_number(&chars, e2 + 1, e3) {
        Some(volumes) => volumes,
        None => {
            return None;
        },
    };
    let tags = field_end(&chars, '_', 0, e0);
    let stop = field_end(&chars, '.', 0, tags);
    let bounds = trim(&chars, 0, stop);
    proof {
        let field = chars@.subrange(0, e0 as int);
        assert(before(field, '_') =~= chars@.subrange(0, tags as int));
        assert(before(chars@.subrange(0, tags as int), '.') =~= chars@.subrange(0, stop as int));
    }
    Some(Record { word: string_of(&chars, bounds.0, bounds.1), year, matches, volumes })
}

/// Whether every code point of the word is a small Latin letter.
fn is_lowercase(word: &Vec<char>) -> (b: bool)
    ensures
        b == all_lowercase(word@),
{
    let mut i: usize = 0;
    while i < word.len()
        invariant
            i <= word.len(),
            forall|j: int| 0 <= j < i ==> 'a' <= #[trigger] word@[j] <= 'z',
        decreases word.len() - i,
    {
        if word[i] < 'a' || word[i] > 'z' {
            return false;
        }
        i = i + 1;
    }
    true
}

impl Record {
    /// Whether the record counts.
    pub fn counts(&self) -> (b: bool)
        ensures
            b == counts(self.word@, self.year),
    {
        let word = chars_of(self.word.as_str());
        is_lowercase(&word) && word.len() > SHORT_WORD && self.year >= FIRST_YEAR
    }
}

/// The counts of one word, as the contracts see them.
pub struct Tally {
    pub word: Seq<char>,
    pub matches: nat,
    pub volumes: nat,
}

/// The counts of one word.
pub struct Entry {
    pub word: String,
    pub matches: u64,
    pub volumes: u64,
}

impl View for Entry {
    type V = Tally;

    open spec fn view(&self) -> Tally {
        Tally { word: self.word@, matches: self.matches as nat, volumes: self.volumes as nat }
    }
}

impl View for WordCount {
    type V = (Seq<char>, u64);

    open spec fn view(&self) -> (Seq<char>, u64) {
        (self.word@, self.matches)
    }
}

/// The tallies that a vector of entries stands for.
pub open spec fn tallies(entries: Seq<Entry>) -> Seq<Tally> {
    entries.map_values(|e: Entry| e@)
}

/// The word has a tally.
pub open spec fn has_word(tallies: Seq<Tally>, word: Seq<char>) -> bool {
    exists|i: int| 0 <= i < tallies.len() && (#[trigger] tallies[i]).word == word
}

/// Where the tally of the word stands.
pub open spec fn index_of(tallies: Seq<Tally>, word: Seq<char>) -> int {
    choose|i: int| 0 <= i < tallies.len() && (#[trigger] tallies[i]).word == word
}

/// No two tallies are of the same word.
pub open spec fn distinct(tallies: Seq<Tally>) -> bool {
    forall|i: int, j: int|
        0 <= i < j < tallies.len() ==> (#[trigger] tallies[i]).word != (#[trigger] tallies[j]).word
}

/// The tallies after the counts of a word were added: to the tally of the
/// word where it has one, and as a new tally behind the others where not.
pub open spec fn added(tallies: Seq<Tally>, word: Seq<char>, matches: nat, volumes: nat) -> Seq<
    Tally,
> {
    if has_word(tallies, word) {
        let at = index_of(tallies, word);
        tallies.update(
            at,
            Tally {
                word,
                matches: tallies[at].matches + matches,
                volumes: tallies[at].volumes + volumes,
            },
        )
    } else {
        tallies.push(Tally { word, matches, volumes })
    }
}

/// The state of a count, as the contracts see it.
pub struct CountState {
    /// The tallies of the words that are done, in the order in which the
    /// words came first.
    pub tallies: Seq<Tally>,
    /// The word of the records that are being added up, and their counts so
    /// far. Before the first record that counts it is the empty word.
    pub current: Tally,
}

impl CountState {
    /// The start: nothing counted, and the empty word current.
    pub open spec fn start() -> CountState {
        CountState {
            tallies: Seq::empty(),
            current: Tally { word: Seq::empty(), matches: 0, volumes: 0 },
        }
    }

    /// The state after a record. A record that does not count changes
    /// nothing. A record of the current word adds to its counts. A record
    /// of another word puts the current counts with the tallies, and makes
    /// its own word current.
    pub open spec fn fed(self, word: Seq<char>, year: u64, matches: u64, volumes: u64)
        -> CountState {
        if !counts(word, year) {
            self
        } else if word == self.current.word {
            CountState {
                current: Tally {
                    word,
                    matches: self.current.matches + matches as nat,
                    volumes: self.current.volumes + volumes as nat,
                },
                ..self
            }
        } else {
            CountState {
                tallies: added(
                    self.tallies,
                    self.current.word,
                    self.current.matches,
                    self.current.volumes,
                ),
                current: Tally { word, matches: matches as nat, volumes: volumes as nat },
            }
        }
    }

    /// Every count fits in `u64`.
    pub open spec fn bounded(self) -> bool {
        &&& self.current.matches <= u64::MAX
        &&& self.current.volumes <= u64::MAX
        &&& forall|i: int|
            0 <= i < self.tallies.len() ==> (#[trigger] self.tallies[i]).matches <= u64::MAX
                && self.tallies[i].volumes <= u64::MAX
    }

    /// No word has two tallies.
    pub open spec fn wf(self) -> bool {
        distinct(self.tallies)
    }
}

/// The tallies of the words that were found in `MIN_VOLUMES` volumes or
/// more, in their old order.
pub open spec fn kept(tallies: Seq<Tally>) -> Seq<Tally>
    decreases tallies.len(),
{
    if tallies.len() == 0 {
        Seq::empty()
    } else if tallies.last().volumes >= MIN_VOLUMES {
        kept(tallies.drop_last()).push(tallies.last())
    } else {
        kept(tallies.drop_last())
    }
}

/// Adding counts keeps the tallies distinct.
pub proof fn lemma_added_distinct(tallies: Seq<Tally>, word: Seq<char>, matches: nat, volumes: nat)
    requires
        distinct(tallies),
    ensures
        distinct(added(tallies, word, matches, volumes)),
{
    let out = added(tallies, word, matches, volumes);
    if has_word(tallies, word) {
        let at = index_of(tallies, word);
        assert forall|i: int, j: int| 0 <= i < j < out.len() implies (#[trigger] out[i]).word != (
        #[trigger] out[j]).word by {
            assert(out[i].word == tallies[i].word);
            assert(out[j].word == tallies[j].word);
        }
    } else {
        assert forall|i: int, j: int| 0 <= i < j < out.len() implies (#[trigger] out[i]).word != (
        #[trigger] out[j]).word by {
            assert(out[i] == tallies[i]);
            if j < tallies.len() {
                assert(out[j] == tallies[j]);
            }
        }
    }
}

/// A count of the words of a run of records.
pub struct WordCounts {
    entries: Vec<Entry>,
    index: StringHashMap<usize>,
    current_1gram: String,
    current_matches: u64,
    current_vols: u64,
}

impl View for WordCounts {
    type V = CountState;

    closed spec fn view(&self) -> CountState {
        CountState {
            tallies: tallies(self.entries@),
            current: Tally {
                word: self.current_1gram@,
                matches: self.current_matches as nat,
                volumes: self.current_vols as nat,
            },
        }
    }
}

impl WordCounts {
    /// The index finds each entry by its word, and nothing else.
    pub closed spec fn indexed(&self) -> bool {
        &&& forall|i: int|
            0 <= i < self.entries@.len() ==> self.index@.contains_key(
                (#[trigger] self.entries@[i]).word@,
            ) && self.index@[self.entries@[i].word@] == i
        &&& forall|word: Seq<char>| #[trigger]
            self.index@.contains_key(word) ==> self.index@[word] < self.entries@.len()
                && self.entries@[self.index@[word] as int].word@ == word
    }

    /// The count is well formed.
    pub open spec fn wf(&self) -> bool {
        &&& self@.wf()
        &&& self@.bounded()
        &&& self.indexed()
    }

    /// A count of no records.
    pub fn new() -> (count: WordCounts)
        ensures
            count.wf(),
            count@ == CountState::start(),
    {
        let count = WordCounts {
            entries: Vec::new(),
            index: StringHashMap::new(),
            current_1gram: String::new(),
            current_matches: 0,
            current_vols: 0,
        };
        assert(count@.tallies =~= Seq::<Tally>::empty());
        count
    }

    /// Takes one record into the count. A record that would take a count
    /// past `u64` is left out, and the answer is `false`.
    pub fn feed(&mut self, record: &Record) -> (fed: bool)
        requires
            old(self).wf(),
        ensures
            final(self).wf(),
            fed <==> old(self)@.fed(
                record.word@,
                record.year,
                record.matches,
                record.volumes,
            ).bounded(),
            fed ==> final(self)@ == old(self)@.fed(
                record.word@,
                record.year,
                record.matches,
                record.volumes,
            ),
            !fed ==> final(self)@ == old(self)@,
    {
        let ghost before = self@;
        let ghost after = before.fed(record.word@, record.year, record.matches, record.volumes);
        if !record.counts() {
            return true;
        }
        if record.word == self.current_1gram {
            let matches = match self.current_matches.checked_add(record.matches) {
                Some(matches) => matches,
                None => {
                    return false;
                },
            };
            let volumes = match self.current_vols.checked_add(record.volumes) {
                Some(volumes) => volumes,
                None => {
                    return false;
                },
            };
            self.current_matches = matches;
            self.current_vols = volumes;
            assert(self@.current == after.current);
            return true;
        }
        // The current counts go to the tallies.

        proof {
            lemma_added_distinct(
                before.tallies,
                before.current.word,
                before.current.matches,
                before.current.volumes,
            );
        }
        let found: Option<usize> = match self.index.get(self.current_1gram.as_str()) {
            Some(at) => Some(*at),
            None => None,
        };
        match found {
            Some(at) => {
                proof {
                    assert(before.tallies[at as int].word == before.current.word);
                    assert(has_word(before.tallies, before.current.word));
                    let chosen = index_of(before.tallies, before.current.word);
                    assert(self.entries@[chosen].word@ == before.current.word);
                    assert(chosen == at);
                }
                let matches = match self.entries[at].matches.checked_add(self.current_matches) {
                    Some(matches) => matches,
                    None => {
                        proof {
                            assert(!after.bounded()) by {
                                assert(after.tallies[at as int].matches > u64::MAX);
                            }
                        }
                        return false;
                    },
                };
                let volumes = match self.entries[at].volumes.checked_add(self.current_vols) {
                    Some(volumes) => volumes,
                    None => {
                        proof {
                            assert(!after.bounded()) by {
                                assert(after.tallies[at as int].volumes > u64::MAX);
                            }
                        }
                        return false;
                    },
                };
                let word = self.current_1gram.clone();
                self.entries.set(at, Entry { word, matches, volumes });
                proof {
                    assert(tallies(self.entries@) =~= after.tallies);
                    assert forall|i: int|
                        0 <= i < self.entries@.len() implies self.index@.contains_key(
                        (#[trigger] self.entries@[i]).word@,
                    ) && self.index@[self.entries@[i].word@] == i by {
                        assert(self.entries@[i].word@ == old(self).entries@[i].word@);
                    }
                }
            },
            None => {
                proof {
                    if has_word(before.tallies, before.current.word) {
                        let chosen = index_of(before.tallies, before.current.word);
                        assert(self.entries@[chosen].word@ == before.current.word);
                    }
                }
                let word = self.current_1gram.clone();
                let key = self.current_1gram.clone();
                let at = self.entries.len();
                self.entries.push(
                    Entry { word, matches: self.current_matches, volumes: self.current_vols },
                );
                self.index.insert(key, at);
                proof {
                    assert(tallies(self.entries@) =~= after.tallies);
                    assert forall|i: int|
                        0 <= i < self.entries@.len() implies self.index@.contains_key(
                        (#[trigger] self.entries@[i]).word@,
                    ) && self.index@[self.entries@[i].word@] == i by {
                        if i < at {
                            assert(self.entries@[i] == old(self).entries@[i]);
                        }
                    }
                    assert forall|word: Seq<char>| #[trigger]
                        self.index@.contains_key(word) implies self.index@[word]
                        < self.entries@.len() && self.entries@[self.index@[word] as int].word@
                        == word by {
                        if word != before.current.word {
                            assert(old(self).index@.contains_key(word));
                            assert(self.entries@[self.index@[word] as int] == old(
                                self,
                            ).entries@[self.index@[word] as int]);
                        }
                    }
                }
            },
        }
        self.current_1gram = record.word.clone();
        self.current_matches = record.matches;
        self.current_vols = record.volumes;
        true
    }
}

/// The item at `x` comes before the item at `y` in the ranking: it was
/// found more often, or as often and stands earlier in the list.
pub open spec fn outranks(keys: Seq<u64>, x: int, y: int) -> bool {
    keys[x] > keys[y] || (keys[x] == keys[y] && x < y)
}

/// `order` ranks the items `lo..hi` of the list: it names each of them
/// once, in the order of their rank.
pub open spec fn is_ranking(order: Seq<usize>, keys: Seq<u64>, lo: int, hi: int) -> bool {
    &&& order.len() == hi - lo
    &&& forall|i: int| 0 <= i < order.len() ==> lo <= #[trigger] order[i] < hi
    &&& forall|i: int, j: int|
        0 <= i < j < order.len() ==> outranks(
            keys,
            #[trigger] order[i] as int,
            #[trigger] order[j] as int,
        )
}

/// Merges the rankings of two stretches of the list that follow one
/// another.
fn merge_rankings(
    keys: &Vec<u64>,
    first: &Vec<usize>,
    second: &Vec<usize>,
    Ghost(lo): Ghost<int>,
    Ghost(mid): Ghost<int>,
    Ghost(hi): Ghost<int>,
) -> (order: Vec<usize>)
    requires
        0 <= lo <= mid <= hi <= keys@.len(),
        is_ranking(first@, keys@, lo, mid),
        is_ranking(second@, keys@, mid, hi),
    ensures
        is_ranking(order@, keys@, lo, hi),
{
    let mut order: Vec<usize> = Vec::new();
    let mut i: usize = 0;
    let mut j: usize = 0;
    while i < first.len() || j < second.len()
        invariant
            0 <= lo <= mid <= hi <= keys@.len(),
            is_ranking(first@, keys@, lo, mid),
            is_ranking(second@, keys@, mid, hi),
            i <= first@.len(),
            j <= second@.len(),
            order@.len() == i + j,
            forall|p: int| 0 <= p < order@.len() ==> lo <= #[trigger] order@[p] < hi,
            forall|p: int, q: int|
                0 <= p < q < order@.len() ==> outranks(
                    keys@,
                    #[trigger] order@[p] as int,
                    #[trigger] order@[q] as int,
                ),
            forall|p: int|
                0 <= p < order@.len() && i < first@.len() ==> outranks(
                    keys@,
                    #[trigger] order@[p] as int,
                    first@[i as int] as int,
                ),
            forall|p: int|
                0 <= p < order@.len() && j < second@.len() ==> outranks(
                    keys@,
                    #[trigger] order@[p] as int,
                    second@[j as int] as int,
                ),
        decreases first@.len() - i + second@.len() - j,
    {
        let ghost old_order = order@;
        if j == second.len() || (i < first.len() && keys[first[i]] >= keys[second[j]]) {
            let x = first[i];
            order.push(x);
            i = i + 1;
            proof {
                assert forall|p: int| 0 <= p < order@.len() && i < first@.len() implies outranks(
                    keys@,
                    #[trigger] order@[p] as int,
                    first@[i as int] as int,
                ) by {
                    assert(outranks(keys@, first@[i - 1] as int, first@[i as int] as int));
                    if p < old_order.len() {
                        assert(order@[p] == old_order[p]);
                    }
                }
                assert forall|p: int|
                    0 <= p < order@.len() && j < second@.len() implies outranks(
                    keys@,
                    #[trigger] order@[p] as int,
                    second@[j as int] as int,
                ) by {
                    if p < old_order.len() {
                        assert(order@[p] == old_order[p]);
                    } else {
                        assert(lo <= first@[i - 1] < mid);
                        assert(mid <= second@[j as int] < hi);
                    }
                }
            }
        } else {
            let y = second[j];
            order.push(y);
            j = j + 1;
            proof {
                assert forall|p: int|
                    0 <= p < order@.len() && j < second@.len() implies outranks(
                    keys@,
                    #[trigger] order@[p] as int,
                    second@[j as int] as int,
                ) by {
                    assert(outranks(keys@, second@[j - 1] as int, second@[j as int] as int));
                    if p < old_order.len() {
                        assert(order@[p] == old_order[p]);
                    }
                }
                assert forall|p: int| 0 <= p < order@.len() && i < first@.len() implies outranks(
                    keys@,
                    #[trigger] order@[p] as int,
                    first@[i as int] as int,
                ) by {
                    if p < old_order.len() {
                        assert(order@[p] == old_order[p]);
                    }
                }
            }
        }
        proof {
            assert forall|p: int, q: int| 0 <= p < q < order@.len() implies outranks(
                keys@,
                #[trigger] order@[p] as int,
                #[trigger] order@[q] as int,
            ) by {
                assert(order@[p] == old_order[p]);
                if q < old_order.len() {
                    assert(order@[q] == old_order[q]);
                }
            }
        }
    }
    order
}

/// Ranks the items `lo..hi` of the list.
fn rank_range(keys: &Vec<u64>, lo: usize, hi: usize) -> (order: Vec<usize>)
    requires
        lo <= hi <= keys@.len(),
    ensures
        is_ranking(order@, keys@, lo as int, hi as int),
    decreases hi - lo,
{
    let mut order: Vec<usize> = Vec::new();
    if hi - lo == 0 {
        return order;
    }
    if hi - lo == 1 {
        order.push(lo);
        return order;
    }
    let mid = lo + (hi - lo) / 2;
    let first = rank_range(keys, lo, mid);
    let second = rank_range(keys, mid, hi);
    merge_rankings(keys, &first, &second, Ghost(lo as int), Ghost(mid as int), Ghost(hi as int))
}

/// The counts alone, in order.
pub open spec fn keys_of(list: Seq<(Seq<char>, u64)>) -> Seq<u64> {
    list.map_values(|w: (Seq<char>, u64)| w.1)
}

/// The items of `list` in the order that `order` names.
pub open spec fn in_order(list: Seq<(Seq<char>, u64)>, order: Seq<usize>) -> Seq<
    (Seq<char>, u64),
> {
    order.map_values(|at: usize| list[at as int])
}

/// `ranked` holds the items of `list` by rank: the words that were found
/// most often first, and of two words that were found as often the one
/// that stands earlier in `list`.
pub open spec fn is_ranked(ranked: Seq<(Seq<char>, u64)>, list: Seq<(Seq<char>, u64)>) -> bool {
    exists|order: Seq<usize>|
        {
            &&& #[trigger] is_ranking(order, keys_of(list), 0, list.len() as int)
            &&& ranked == in_order(list, order)
        }
}

/// What the word counts stand for.
pub open spec fn word_counts(list: Seq<WordCount>) -> Seq<(Seq<char>, u64)> {
    list.map_values(|w: WordCount| w@)
}

/// Ranks the words by how often they were found.
pub fn rank(list: &Vec<WordCount>) -> (ranked: Vec<WordCount>)
    ensures
        is_ranked(word_counts(ranked@), word_counts(list@)),
{
    let mut keys: Vec<u64> = Vec::new();
    let mut i: usize = 0;
    while i < list.len()
        invariant
            i <= list.len(),
            keys@.len() == i,
            forall|k: int| 0 <= k < i ==> #[trigger] keys@[k] == list@[k].matches,
        decreases list.len() - i,
    {
        keys.push(list[i].matches);
        i = i + 1;
    }
    let order = rank_range(&keys, 0, list.len());
    let mut ranked: Vec<WordCount> = Vec::new();
    let mut i: usize = 0;
    while i < order.len()
        invariant
            i <= order.len(),
            order@.len() == list@.len(),
            forall|k: int| 0 <= k < order@.len() ==> 0 <= #[trigger] order@[k] < list@.len(),
            ranked@.len() == i,
            forall|k: int| 0 <= k < i ==> (#[trigger] ranked@[k])@ == list@[order@[k] as int]@,
        decreases order.len() - i,
    {
        let item = &list[order[i]];
        ranked.push(WordCount { word: item.word.clone(), matches: item.matches });
        i = i + 1;
    }
    proof {
        let plain = word_counts(list@);
        assert(keys_of(plain) =~= keys@);
        assert(word_counts(ranked@) =~= in_order(plain, order@));
    }
    ranked
}

impl WordCounts {
    /// The words that were found in `MIN_VOLUMES` volumes or more, ranked
    /// by how often they were found. The counts of the current word are not
    /// among the tallies, and so the word of the last records is not among
    /// the words, unless it came before.
    pub fn finish(&self) -> (ranked: Vec<WordCount>)
        requires
            self.wf(),
        ensures
            is_ranked(
                word_counts(ranked@),
                kept(self@.tallies).map_values(|t: Tally| (t.word, t.matches as u64)),
            ),
    {
        let mut list: Vec<WordCount> = Vec::new();
        let mut i: usize = 0;
        let ghost all = tallies(self.entries@);
        assert(all.subrange(0, 0) =~= Seq::<Tally>::empty());
        while i < self.entries.len()
            invariant
                i <= self.entries.len(),
                all == tallies(self.entries@),
                word_counts(list@) == kept(all.subrange(0, i as int)).map_values(
                    |t: Tally| (t.word, t.matches as u64),
                ),
            decreases self.entries.len() - i,
        {
            let entry = &self.entries[i];
            let ghost before = word_counts(list@);
            proof {
                let upto = all.subrange(0, i + 1);
                assert(upto.drop_last() =~= all.subrange(0, i as int));
                assert(upto.last() == entry@);
            }
            if entry.volumes >= MIN_VOLUMES {
                list.push(WordCount { word: entry.word.clone(), matches: entry.matches });
                assert(word_counts(list@) =~= before.push((entry.word@, entry.matches)));
            }
            i = i + 1;
            assert(word_counts(list@) =~= kept(all.subrange(0, i as int)).map_values(
                |t: Tally| (t.word, t.matches as u64),
            ));
        }
        assert(all.subrange(0, i as int) =~= all);
        rank(&list)
    }
}

/// The first `count` items of the list, or all of them where it has fewer.
pub open spec fn first_of(list: Seq<(Seq<char>, u64)>, count: nat) -> Seq<(Seq<char>, u64)> {
    if list.len() <= count {
        list
    } else {
        list.take(count as int)
    }
}

/// The first `count` words of each file, one file after the other.
pub open spec fn pooled(files: Seq<Vec<WordCount>>, count: nat) -> Seq<(Seq<char>, u64)>
    decreases files.len(),
{
    if files.len() == 0 {
        Seq::empty()
    } else {
        pooled(files.drop_last(), count) + first_of(word_counts(files.last()@), count)
    }
}

/// The word list: of the first `count` words of each file the `count` that
/// were found most often, most often first.
pub fn word_list(files: &Vec<Vec<WordCount>>, count: usize) -> (words: Vec<String>)
    ensures
        exists|ranked: Seq<(Seq<char>, u64)>|
            {
                &&& #[trigger] is_ranked(ranked, pooled(files@, count as nat))
                &&& words@.len() == first_of(ranked, count as nat).len()
                &&& forall|i: int|
                    0 <= i < words@.len() ==> (#[trigger] words@[i])@ == ranked[i].0
            },
{
    let mut pool: Vec<WordCount> = Vec::new();
    let mut f: usize = 0;
    assert(files@.subrange(0, 0) =~= Seq::<Vec<WordCount>>::empty());
    while f < files.len()
        invariant
            f <= files.len(),
            word_counts(pool@) == pooled(files@.subrange(0, f as int), count as nat),
        decreases files.len() - f,
    {
        let file = &files[f];
        let ghost before = word_counts(pool@);
        let ghost list = word_counts(file@);
        let mut i: usize = 0;
        while i < file.len() && i < count
            invariant
                i <= file.len(),
                i <= count,
                list == word_counts(file@),
                word_counts(pool@) == before + list.take(i as int),
            decreases file.len() - i,
        {
            let ghost pooled_before = word_counts(pool@);
            pool.push(WordCount { word: file[i].word.clone(), matches: file[i].matches });
            proof {
                assert(list[i as int] == file@[i as int]@);
                assert(word_counts(pool@) =~= pooled_before.push(list[i as int]));
                assert(list.take(i + 1) =~= list.take(i as int).push(list[i as int]));
            }
            i = i + 1;
            assert(word_counts(pool@) =~= before + list.take(i as int));
        }
        proof {
            assert(files@.subrange(0, f + 1).drop_last() =~= files@.subrange(0, f as int));
            assert(files@.subrange(0, f + 1).last() == files@[f as int]);
            if i == file.len() {
                assert(list.take(i as int) =~= list);
            }
        }
        f = f + 1;
    }
    assert(files@.subrange(0, f as int) =~= files@);
    let ranked = rank(&pool);
    let mut words: Vec<String> = Vec::new();
    let mut i: usize = 0;
    while i < ranked.len() && i < count
        invariant
            i <= ranked.len(),
            i <= count,
            words@.len() == i,
            forall|k: int| 0 <= k < i ==> (#[trigger] words@[k])@ == ranked@[k].word@,
        decreases ranked.len() - i,
    {
        words.push(ranked[i].word.clone());
        i = i + 1;
    }
    proof {
        let plain = word_counts(ranked@);
        assert(is_ranked(plain, pooled(files@, count as nat)));
        assert forall|k: int| 0 <= k < words@.len() implies (#[trigger] words@[k])@
            == plain[k].0 by {
            assert(plain[k] == ranked@[k]@);
        }
    }
    words
}

} // verus!
