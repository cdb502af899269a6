use std::collections::HashSet;

use cwordle::words::{choose_word, word_isvalid, WordList};

const COMMON_WORDS: &[&str] = &[
    "about", "above", "actor", "adult", "after", "again", "agent", "alarm", "album", "alert",
    "alive", "allow", "alone", "among", "angle", "apple", "arena", "argue", "arise", "array",
    "assay", "beach", "bench", "birth", "black", "blade", "blame", "blind", "block", "board",
    "brain", "bread", "brick", "bring", "broad", "brown", "build", "cabin", "candy", "chain",
    "chair", "chart", "chase", "cheap", "check", "chest", "chief", "child", "civil", "claim",
    "class", "clean", "clear", "climb", "clock", "close", "cloud", "coach", "coast", "count",
    "crane", "dance", "death", "depth", "dream", "dress", "drink", "drive", "eagle", "earth",
    "eight", "empty", "enemy", "enjoy", "entry", "equal", "error", "event", "exact", "exist",
    "faith", "false", "fence", "field", "fight", "final", "flame", "floor", "focus", "force",
    "frame", "fresh", "front", "fruit", "glass", "glued", "grape", "great", "green", "group",
    "guard", "guess", "guide", "happy", "heart", "heavy", "horse", "hotel", "house", "human",
    "image", "index", "input", "issue", "judge", "juice", "knife", "label", "large", "laser",
    "later", "laugh", "layer", "learn", "lemon", "level", "light", "limit", "lodge", "lucky",
    "lunch", "magic", "major", "march", "match", "metal", "model", "money", "month", "motor",
    "mouse", "mouth", "music", "nerve", "night", "noise", "north", "novel", "nurse", "ocean",
    "offer", "order", "other", "owner", "paint", "panel", "paper", "party", "peace", "phase",
    "phone", "piano", "piece", "pilot", "pitch", "place", "plain", "plane", "plant", "plate",
    "point", "pound", "power", "press", "price", "pride", "prize", "proof", "queen", "quick",
    "quiet", "radio", "raise", "range", "ratio", "reach", "ready", "river", "robot", "round",
    "route", "royal", "rural", "salad", "sassy", "scale", "scene", "scope", "score", "sense",
    "shape", "share", "sheep", "shelf", "shell", "shift", "shirt", "shock", "shoot", "sight",
    "skill", "sleep", "slice", "smile", "smoke", "solid", "sound", "south", "space", "speed",
    "spend", "sport", "staff", "stage", "stand", "start", "state", "steam", "steel", "stick",
    "stone", "store", "storm", "story", "sugar", "table", "taste", "teach", "thank", "theme",
    "thing", "throw", "tiger", "title", "today", "topic", "total", "touch", "tower", "track",
    "trade", "train", "treat", "trend", "trial", "truck", "trust", "truth", "uncle", "union",
    "unity", "upper", "urban", "usual", "value", "video", "visit", "voice", "waste", "watch",
    "water", "wheel", "while", "white", "whole", "woman", "world", "worry", "write", "young",
];

fn word_list_text() -> String {
    let mut text = String::new();
    for w in COMMON_WORDS {
        text.push_str(w);
        text.push('\n');
    }
    text
}

fn word_list() -> WordList {
    WordList::new(&word_list_text()).expect("well-formed word list")
}

#[test]
fn test_choose_word_length() {
    let list = word_list();
    let word = choose_word(&list);
    assert_eq!(word.len(), 5);
}

#[test]
fn test_choose_word_lowercase() {
    let list = word_list();
    let word = choose_word(&list);
    assert!(word.chars().all(|c| c.is_ascii_lowercase()));
}

#[test]
fn test_choose_word_distribution() {
    // Test that we get different words
    let list = word_list();
    let mut words = HashSet::new();
    for _ in 0..100 {
        words.insert(choose_word(&list));
    }
    // We should get at least 50 different words in 100 tries
    assert!(words.len() > 50);
}

#[test]
fn test_word_validation() {
    let list = word_list();
    // Get a known valid word from the list
    let valid_word = choose_word(&list);
    assert!(word_isvalid(&list, &valid_word));

    // Test invalid words
    assert!(!word_isvalid(&list, ""));
    assert!(!word_isvalid(&list, "ab"));
    assert!(!word_isvalid(&list, "toolong"));
    assert!(!word_isvalid(&list, "12345"));
    assert!(!word_isvalid(&list, "UPPER"));
    assert!(!word_isvalid(&list, "mix@d"));
}

#[test]
fn test_word_boundaries() {
    let list = word_list();
    // Test that partial matches within other words don't count
    let word = choose_word(&list);
    let partial = &word[0..3];
    assert!(!word_isvalid(&list, partial));

    // Test that exact matches work
    assert!(word_isvalid(&list, &word));
}

#[test]
fn test_word_list_format() {
    // Verify word list format
    let list = word_list();
    assert_eq!(list.word_count(), COMMON_WORDS.len());
    for i in 0..list.word_count() {
        let line = list.word(i);
        assert_eq!(line.len(), 5);
        assert!(line.chars().all(|c| c.is_ascii_lowercase()));
        assert_eq!(line, COMMON_WORDS[i]);
    }
}

#[test]
fn words_spanning_two_records_are_not_valid() {
    // "bc\nde" style joins: the tail of one record and the head of the next
    let list = WordList::new("abcde\nfghij\n").unwrap();
    assert!(word_isvalid(&list, "abcde"));
    assert!(word_isvalid(&list, "fghij"));
    assert!(!word_isvalid(&list, "cdefg"));
    assert!(!word_isvalid(&list, "defgh"));
    assert!(!word_isvalid(&list, "bcdef"));
    assert!(!word_isvalid(&list, "abcdf"));
}

#[test]
fn rejects_malformed_candidates() {
    let list = word_list();
    assert!(!word_isvalid(&list, "appl"));
    assert!(!word_isvalid(&list, "apples"));
    assert!(!word_isvalid(&list, "Apple"));
    assert!(!word_isvalid(&list, "appl3"));
    assert!(!word_isvalid(&list, "app e"));
    assert!(!word_isvalid(&list, "appl\n"));
    assert!(!word_isvalid(&list, "applé"));
    assert!(!word_isvalid(&list, "zzzzz"));
    assert!(word_isvalid(&list, "apple"));
    assert!(!word_isvalid(&list, &"apple"[0..3]));
}

#[test]
fn word_list_rejects_empty_and_malformed_text() {
    assert!(WordList::new("").is_none());
    assert!(WordList::new("apple").is_none());
    assert!(WordList::new("apple\ngrape").is_none());
    assert!(WordList::new("Apple\n").is_none());
    assert!(WordList::new("app1e\n").is_none());
    assert!(WordList::new("apples\n").is_none());
    assert!(WordList::new("appl\ngrape\n").is_none());
    assert!(WordList::new("apple grape\n").is_none());
    assert!(WordList::new("applé\n").is_none());
    assert!(WordList::new("apple\r\n").is_none());
}

#[test]
fn word_list_reads_records_in_order() {
    let list = WordList::new("apple\ngrape\nlemon\n").unwrap();
    assert_eq!(list.word_count(), 3);
    assert_eq!(list.word(0), "apple");
    assert_eq!(list.word(1), "grape");
    assert_eq!(list.word(2), "lemon");
}

#[test]
fn choose_word_from_a_single_word_list() {
    let list = WordList::new("zebra\n").unwrap();
    for _ in 0..10 {
        assert_eq!(choose_word(&list), "zebra");
    }
}

#[test]
fn choose_word_stays_in_the_list() {
    let list = WordList::new("apple\ngrape\nlemon\n").unwrap();
    for _ in 0..50 {
        let w = choose_word(&list);
        assert!(["apple", "grape", "lemon"].contains(&w.as_str()));
        assert!(word_isvalid(&list, &w));
    }
}
