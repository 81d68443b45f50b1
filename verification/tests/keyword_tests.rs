use memory_layer::keywords::extract_keywords_simple;

#[test]
fn frequent_words_become_keywords() {
    assert_eq!(
        extract_keywords_simple("The quick brown fox, the QUICK fox! jumps over its shadow."),
        vec!["quick", "brown", "jumps", "over", "shadow"]
    );
}

#[test]
fn particles_and_short_words_are_left_out() {
    assert!(extract_keywords_simple("the and these those their fox cat").is_empty());
    assert!(extract_keywords_simple("").is_empty());
    assert_eq!(extract_keywords_simple("(with) \"rust\" ... !!!"), vec!["rust"]);
}

#[test]
fn at_most_ten_keywords() {
    let text = "alpha bravo charlie delta echo foxtrot golf hotel india juliet kilo lima lima";
    assert_eq!(
        extract_keywords_simple(text),
        vec![
            "lima", "alpha", "bravo", "charlie", "delta", "echo", "foxtrot", "golf", "hotel",
            "india"
        ]
    );
}
