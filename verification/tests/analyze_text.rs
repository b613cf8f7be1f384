use text_analyzer::analyze_text;

#[test]
fn test_analyze_text() {
    let content = "Hello, world!";
    let (char_count, sorted_counts) = analyze_text(content);

    assert_eq!(char_count, 12);
    assert_eq!(sorted_counts.len(), 9);
    assert_eq!(sorted_counts[0].character, 'l');
    assert_eq!(sorted_counts[0].count, 3);
    assert_eq!((sorted_counts[0].count as f64 / char_count as f64) * 100.0, 25.0);
    assert_eq!(sorted_counts[1].character, 'o');
    assert_eq!(sorted_counts[1].count, 2);
    assert_eq!(
        (sorted_counts[1].count as f64 / char_count as f64) * 100.0,
        16.666666666666664
    );
}

#[test]
fn test_analyze_text_empty() {
    let content = "";
    let (char_count, sorted_counts) = analyze_text(content);

    assert_eq!(char_count, 0);
    assert_eq!(sorted_counts.len(), 0);
}

#[test]
fn test_analyze_text_with_whitespace() {
    let content = "  Test  ";
    let (char_count, sorted_counts) = analyze_text(content);

    assert_eq!(char_count, 4);
    assert_eq!(sorted_counts.len(), 3);
    assert_eq!(sorted_counts[0].character, 't');
    assert_eq!(sorted_counts[0].count, 2);
    assert_eq!((sorted_counts[0].count as f64 / char_count as f64) * 100.0, 50.0);
}

#[test]
fn whitespace_only_text_has_no_entries() {
    let (char_count, ranked) = analyze_text("   ");
    assert_eq!(char_count, 0);
    assert!(ranked.is_empty());

    let (char_count, ranked) = analyze_text(" \t\r\n\u{b}\u{c}\u{85}\u{a0}\u{1680}\u{2003}\u{2028}\u{3000}");
    assert_eq!(char_count, 0);
    assert!(ranked.is_empty());
}

#[test]
fn letter_case_is_folded() {
    let (char_count, ranked) = analyze_text("Aa");
    assert_eq!(char_count, 2);
    assert_eq!(ranked.len(), 1);
    assert_eq!(ranked[0].character, 'a');
    assert_eq!(ranked[0].count, 2);
    assert_eq!((ranked[0].count as f64 / char_count as f64) * 100.0, 100.0);
}

#[test]
fn hello_world_lists_every_distinct_character() {
    let (char_count, ranked) = analyze_text("Hello, world!");
    assert_eq!(char_count, 12);
    let mut characters: Vec<char> = ranked.iter().map(|entry| entry.character).collect();
    characters.sort();
    assert_eq!(characters, vec!['!', ',', 'd', 'e', 'h', 'l', 'o', 'r', 'w']);
    for entry in &ranked[2..] {
        assert_eq!(entry.count, 1);
    }
}

#[test]
fn test_text_lists_three_characters() {
    let (_, ranked) = analyze_text("  Test  ");
    let mut characters: Vec<char> = ranked.iter().map(|entry| entry.character).collect();
    characters.sort();
    assert_eq!(characters, vec!['e', 's', 't']);
}

#[test]
fn equal_counts_are_listed_by_scalar_value() {
    let (char_count, ranked) = analyze_text("cab bca");
    assert_eq!(char_count, 6);
    let listed: Vec<(char, usize)> =
        ranked.iter().map(|entry| (entry.character, entry.count)).collect();
    assert_eq!(listed, vec![('a', 2), ('b', 2), ('c', 2)]);

    let (_, ranked) = analyze_text("zz y xxx w");
    let listed: Vec<(char, usize)> =
        ranked.iter().map(|entry| (entry.character, entry.count)).collect();
    assert_eq!(listed, vec![('x', 3), ('z', 2), ('w', 1), ('y', 1)]);
}

#[test]
fn total_is_the_number_of_characters_that_are_not_whitespace() {
    let texts = [
        "",
        " ",
        "Hello, world!",
        "  Test  ",
        "a\tb\nc\r\nd",
        "Ünïcödé \u{2003} Ωmega \u{3000}終",
        "The quick brown fox jumps over the lazy dog",
    ];
    for text in texts {
        let (char_count, _) = analyze_text(text);
        let expected = text.chars().filter(|c| !c.is_whitespace()).count();
        assert_eq!(char_count, expected);
    }
}

#[test]
fn counts_add_up_to_the_total() {
    let texts = [
        "Hello, world!",
        "  Test  ",
        "Aa",
        "Mississippi River",
        "The quick brown fox jumps over the lazy dog",
        "ÀÉÎ àéî ΑΒΓ αβγ",
    ];
    for text in texts {
        let (char_count, ranked) = analyze_text(text);
        let sum: usize = ranked.iter().map(|entry| entry.count).sum();
        assert_eq!(sum, char_count);
    }
}

#[test]
fn counts_never_rise_along_the_ranking() {
    let texts = [
        "Hello, world!",
        "  Test  ",
        "Mississippi River",
        "The quick brown fox jumps over the lazy dog",
        "aaaa bbb cc d",
    ];
    for text in texts {
        let (_, ranked) = analyze_text(text);
        for i in 1..ranked.len() {
            assert!(ranked[i - 1].count >= ranked[i].count);
        }
    }
}

#[test]
fn every_entry_counts_one_distinct_character() {
    let text = "Mississippi River";
    let (_, ranked) = analyze_text(text);
    let listed: Vec<(char, usize)> =
        ranked.iter().map(|entry| (entry.character, entry.count)).collect();
    assert_eq!(
        listed,
        vec![('i', 5), ('s', 4), ('p', 2), ('r', 2), ('e', 1), ('m', 1), ('v', 1)]
    );
}

#[test]
fn punctuation_and_digits_are_counted() {
    let (char_count, ranked) = analyze_text("1, 2, 1!");
    assert_eq!(char_count, 6);
    let listed: Vec<(char, usize)> =
        ranked.iter().map(|entry| (entry.character, entry.count)).collect();
    assert_eq!(listed, vec![(',', 2), ('1', 2), ('!', 1), ('2', 1)]);
}

#[test]
fn only_the_first_scalar_of_an_expanding_lowercase_form_is_kept() {
    // U+0130 lowercases to 'i' followed by U+0307.
    let (char_count, ranked) = analyze_text("\u{130}i");
    assert_eq!(char_count, 2);
    assert_eq!(ranked.len(), 1);
    assert_eq!(ranked[0].character, 'i');
    assert_eq!(ranked[0].count, 2);
}

#[test]
fn folding_reaches_beyond_ascii() {
    let (char_count, ranked) = analyze_text("Ωω Éé é");
    assert_eq!(char_count, 5);
    let listed: Vec<(char, usize)> =
        ranked.iter().map(|entry| (entry.character, entry.count)).collect();
    assert_eq!(listed, vec![('é', 3), ('ω', 2)]);
}
