use word_tally::report::word_report;
use word_tally::tally::{count_keys, count_text, count_tokens};

fn targets(words: &[&str]) -> Vec<String> {
    words.iter().map(|w| w.to_string()).collect()
}

#[test]
fn whale_sentence_counts_case_insensitively() {
    let r = word_report("The whale swims. The WHALE dives.", &targets(&["whale"]));
    assert_eq!(r.total, 6);
    assert_eq!(r.counts, vec![2]);
}

#[test]
fn repeated_letters_with_missing_target() {
    let r = word_report("a a a b", &targets(&["a", "c"]));
    assert_eq!(r.total, 4);
    assert_eq!(r.counts, vec![3, 0]);
}

#[test]
fn empty_text_counts_nothing() {
    let r = word_report("", &targets(&["whale", "a", ""]));
    assert_eq!(r.total, 0);
    assert_eq!(r.counts, vec![0, 0, 0]);
}

#[test]
fn separators_only_give_no_tokens() {
    let c = count_text(" ,.!?;'\":\t\n()-");
    assert_eq!(c.total(), 0);
}

#[test]
fn absent_word_counts_zero() {
    let c = count_text("call me Ishmael");
    assert_eq!(c.count_of("whale"), 0);
    assert_eq!(c.count_of(""), 0);
}

#[test]
fn query_case_does_not_matter() {
    let c = count_text("Whale");
    assert_eq!(c.count_of("whale"), 1);
    assert_eq!(c.count_of("WHALE"), 1);
    assert_eq!(c.count_of("Whale"), 1);
}

#[test]
fn non_ascii_words_fold_case() {
    let c = count_text("ÉCOLE école École");
    assert_eq!(c.total(), 3);
    assert_eq!(c.count_of("école"), 3);
}

#[test]
fn counts_of_distinct_words_add_up_to_total() {
    let text = "It was the best of times, it was the worst of times.";
    let c = count_text(text);
    let distinct = ["it", "was", "the", "best", "of", "times", "worst"];
    let sum: usize = distinct.iter().map(|w| c.count_of(w)).sum();
    assert_eq!(c.total(), 12);
    assert_eq!(sum, c.total());
}

#[test]
fn running_twice_gives_the_same_report() {
    let text = "Call me Ishmael. Some years ago - never mind how long precisely";
    let words = targets(&["me", "years", "whale"]);
    let first = word_report(text, &words);
    let second = word_report(text, &words);
    assert_eq!(first.total, second.total);
    assert_eq!(first.counts, second.counts);
    assert_eq!(first.total, 11);
    assert_eq!(first.counts, vec![1, 1, 0]);
}

#[test]
fn punctuation_splits_tokens() {
    let r = word_report("don't(stop)now", &targets(&["don't", "don", "t", "stop", "now"]));
    assert_eq!(r.total, 4);
    assert_eq!(r.counts, vec![0, 1, 1, 1, 1]);
}

#[test]
fn tokens_are_trimmed_before_counting() {
    let c = count_text("word\r\nword\u{a0}.word");
    assert_eq!(c.total(), 3);
    assert_eq!(c.count_of("word"), 3);
}

#[test]
fn count_tokens_trims_and_folds() {
    let tokens = vec!["  Sea ", "sea", "SEA", "land"];
    let c = count_tokens(&tokens);
    assert_eq!(c.total(), 4);
    assert_eq!(c.count_of("sea"), 3);
    assert_eq!(c.count_of("Land"), 1);
    assert_eq!(c.count_of("  sea "), 0);
}

#[test]
fn whitespace_only_token_counts_as_empty_word() {
    let tokens = vec!["\r", "a"];
    let c = count_tokens(&tokens);
    assert_eq!(c.total(), 2);
    assert_eq!(c.count_of(""), 1);
}

#[test]
fn count_keys_tallies_keys_as_given() {
    let keys = targets(&["sea", "sea", "Sea", " sea", "land"]);
    let c = count_keys(&keys);
    assert_eq!(c.total(), 5);
    assert_eq!(c.count_of_key("sea"), 2);
    assert_eq!(c.count_of_key("Sea"), 1);
    assert_eq!(c.count_of_key(" sea"), 1);
    assert_eq!(c.count_of_key("land"), 1);
    assert_eq!(c.count_of_key("whale"), 0);
}

#[test]
fn count_keys_of_nothing_is_empty() {
    let c = count_keys(&Vec::new());
    assert_eq!(c.total(), 0);
    assert_eq!(c.count_of_key(""), 0);
}

#[test]
fn count_of_folds_the_query_before_lookup() {
    let c = count_text("Whale whale");
    assert_eq!(c.count_of_key("Whale"), 0);
    assert_eq!(c.count_of_key("whale"), 2);
    assert_eq!(c.count_of("Whale"), 2);
}
