use steno::ngram::{
    field_end, parse_number, parse_record, rank, word_list, Record, WordCount, WordCounts,
};

fn chars(text: &str) -> Vec<char> {
    text.chars().collect()
}

fn number(text: &str) -> Option<u64> {
    let text = chars(text);
    parse_number(&text, 0, text.len())
}

fn record(word: &str, year: u64, matches: u64, volumes: u64) -> Record {
    Record { word: word.to_string(), year, matches, volumes }
}

fn count(word: &str, matches: u64) -> WordCount {
    WordCount { word: word.to_string(), matches }
}

fn pairs(list: &[WordCount]) -> Vec<(&str, u64)> {
    list.iter().map(|w| (w.word.as_str(), w.matches)).collect()
}

#[test]
fn numbers_are_the_numbers_of_std() {
    let samples = [
        "0", "7", "42", "007", "+5", "+", "", "-5", "-0", "5+", "1 ", " 1", "1_000", "12a", "a12",
        "١٢", "1980", "18446744073709551615", "18446744073709551616", "99999999999999999999",
        "+18446744073709551615", "000000000000000000000000000001", "1e3", "0x10", "++1", "+-1",
        "18446744073709551615x", "99999999999999999999x",
    ];
    for text in samples {
        assert_eq!(number(text), text.parse::<u64>().ok(), "{:?}", text);
    }
}

#[test]
fn number_is_read_from_a_stretch_of_the_text() {
    let text = chars("ab\t1980\t12");
    assert_eq!(parse_number(&text, 3, 7), Some(1980));
    assert_eq!(parse_number(&text, 8, 10), Some(12));
    assert_eq!(parse_number(&text, 2, 7), None);
    assert_eq!(parse_number(&text, 5, 5), None);
}

#[test]
fn field_ends_at_the_separator() {
    let text = chars("ab\tcd\t");
    assert_eq!(field_end(&text, '\t', 0, 6), 2);
    assert_eq!(field_end(&text, '\t', 3, 6), 5);
    assert_eq!(field_end(&text, '\t', 6, 6), 6);
    assert_eq!(field_end(&text, '\t', 3, 4), 4);
    assert_eq!(field_end(&text, 'x', 0, 6), 6);
}

fn std_record(line: &str) -> Option<(String, u64, u64, u64)> {
    let parts = line.split('\t').collect::<Vec<_>>();
    let year = parts.get(1)?.parse::<u64>().ok()?;
    let matches = parts.get(2)?.parse::<u64>().ok()?;
    let volumes = parts.get(3)?.parse::<u64>().ok()?;
    let word = parts[0].split('_').next().unwrap().split('.').next().unwrap().trim().to_string();
    Some((word, year, matches, volumes))
}

#[test]
fn records_are_read_as_std_reads_them() {
    let samples = [
        "hello\t1999\t120\t45",
        "hello_NOUN\t1999\t120\t45",
        "hello.1\t1999\t120\t45",
        "a.b_c\t1999\t120\t45",
        "a_b.c\t1999\t120\t45",
        " hello \t1999\t120\t45",
        "\u{a0}hello\u{2003}\t1999\t120\t45",
        "  \t1999\t120\t45",
        "\t1999\t120\t45",
        "_NOUN\t1999\t120\t45",
        "hello\t1999\t120\t45\textra",
        "hello\t1999\t120\t45\t",
        "hello\t1999\t120",
        "hello\t1999\t120\t",
        "hello\t1999\t\t45",
        "hello\t\t120\t45",
        "hello\tyear\t120\t45",
        "hello\t1999\t-1\t45",
        "hello\t1999\t120\t4 5",
        "hello\t+1999\t+120\t+45",
        "hello",
        "",
        "\t\t\t",
        "héllo wörld\t2000\t1\t1",
        "x\t18446744073709551615\t18446744073709551615\t18446744073709551616",
    ];
    for line in samples {
        let read =
            parse_record(line).map(|r| (r.word.clone(), r.year, r.matches, r.volumes));
        assert_eq!(read, std_record(line), "{:?}", line);
    }
}

#[test]
fn record_keeps_the_word_without_its_tags() {
    let read = parse_record("hello_NOUN\t1999\t120\t45").unwrap();
    assert_eq!(read.word, "hello");
    assert_eq!((read.year, read.matches, read.volumes), (1999, 120, 45));
    assert!(parse_record("hello\t1999\t120").is_none());
    assert!(parse_record("hello\t1999\tmany\t45").is_none());
}

#[test]
fn records_count_from_1980_for_lowercase_words_of_three_letters() {
    assert!(record("the", 1980, 1, 1).counts());
    assert!(record("zebra", 2008, 1, 1).counts());
    assert!(!record("the", 1979, 1, 1).counts());
    assert!(!record("of", 1999, 1, 1).counts());
    assert!(!record("", 1999, 1, 1).counts());
    assert!(!record("The", 1999, 1, 1).counts());
    assert!(!record("thé", 1999, 1, 1).counts());
    assert!(!record("th3", 1999, 1, 1).counts());
    assert!(!record("the end", 1999, 1, 1).counts());
    assert!(!record("aaß", 1999, 1, 1).counts());
}

#[test]
fn counts_of_a_word_are_added_up() {
    let mut counts = WordCounts::new();
    for r in [
        record("alpha", 1990, 10, 600),
        record("alpha", 1991, 20, 700),
        record("alpha", 1970, 1000, 9000),
        record("beta", 1990, 5, 1000),
        record("Gamma", 1990, 900, 9000),
        record("gamma", 1990, 30, 999),
        record("alpha", 1992, 1, 1),
        record("delta", 1990, 7, 2000),
        record("end", 1990, 1, 1),
    ] {
        assert!(counts.feed(&r));
    }
    // alpha: 10 + 20 + 1 in 1301 volumes; gamma was found in too few
    // volumes; the counts of `end` are still current.
    assert_eq!(pairs(&counts.finish()), vec![("alpha", 31), ("delta", 7), ("beta", 5)]);
}

#[test]
fn last_word_is_not_among_the_words() {
    let mut counts = WordCounts::new();
    assert!(counts.feed(&record("alpha", 1990, 10, 5000)));
    assert!(pairs(&counts.finish()).is_empty());
    assert!(counts.feed(&record("beta", 1990, 20, 5000)));
    assert_eq!(pairs(&counts.finish()), vec![("alpha", 10)]);
    assert!(counts.feed(&record("alpha", 1991, 5, 5000)));
    assert_eq!(pairs(&counts.finish()), vec![("beta", 20), ("alpha", 10)]);
    assert!(counts.feed(&record("beta", 1991, 1, 1)));
    assert_eq!(pairs(&counts.finish()), vec![("beta", 20), ("alpha", 15)]);
}

#[test]
fn empty_count_has_no_words() {
    assert!(WordCounts::new().finish().is_empty());
}

#[test]
fn count_past_u64_is_refused() {
    let mut counts = WordCounts::new();
    assert!(counts.feed(&record("alpha", 1990, u64::MAX, 5000)));
    assert!(!counts.feed(&record("alpha", 1991, 1, 1)));
    assert!(counts.feed(&record("alpha", 1991, 0, u64::MAX - 5000)));
    assert!(!counts.feed(&record("alpha", 1992, 0, 1)));
    assert!(counts.feed(&record("beta", 1990, 1, 1)));
    assert!(counts.feed(&record("alpha", 1990, 1, 1)));
    assert!(!counts.feed(&record("gamma", 1990, 1, 1)));
    assert_eq!(pairs(&counts.finish()), vec![("alpha", u64::MAX)]);
}

#[test]
fn words_are_ranked_by_count_and_ties_keep_their_order() {
    let list = vec![
        count("a", 5),
        count("b", 9),
        count("c", 5),
        count("d", 1),
        count("e", 9),
        count("f", 5),
        count("g", 0),
    ];
    assert_eq!(
        pairs(&rank(&list)),
        vec![("b", 9), ("e", 9), ("a", 5), ("c", 5), ("f", 5), ("d", 1), ("g", 0)]
    );
    assert!(rank(&vec![]).is_empty());
    assert_eq!(pairs(&rank(&vec![count("x", 3)])), vec![("x", 3)]);
}

#[test]
fn ranking_is_the_stable_sort_of_std() {
    let mut seed: u64 = 12345;
    for len in [2usize, 3, 10, 64, 257, 1000] {
        let list: Vec<WordCount> = (0..len)
            .map(|i| {
                seed = seed.wrapping_mul(6364136223846793005).wrapping_add(1442695040888963407);
                count(&format!("w{}", i), (seed >> 33) % 17)
            })
            .collect();
        let mut sorted: Vec<(String, u64)> =
            list.iter().map(|w| (w.word.clone(), w.matches)).collect();
        sorted.sort_by(|a, b| b.1.cmp(&a.1));
        let ranked: Vec<(String, u64)> =
            rank(&list).iter().map(|w| (w.word.clone(), w.matches)).collect();
        assert_eq!(ranked, sorted);
    }
}

#[test]
fn word_list_takes_the_most_frequent_words_of_all_files() {
    let files = vec![
        vec![count("alpha", 50), count("also", 40), count("and", 30)],
        vec![count("beta", 45), count("but", 44)],
        vec![],
        vec![count("cat", 50)],
    ];
    assert_eq!(word_list(&files, 2), vec!["alpha", "cat"]);
    assert_eq!(word_list(&files, 3), vec!["alpha", "cat", "beta"]);
    assert_eq!(
        word_list(&files, 10),
        vec!["alpha", "cat", "beta", "but", "also", "and"]
    );
    assert!(word_list(&files, 0).is_empty());
    assert!(word_list(&vec![], 5).is_empty());
    // Only the first word of each file is in the pool.
    assert_eq!(word_list(&files, 1), vec!["alpha"]);
}
