use highfleet::general::escadra_string::EscadraString;
use highfleet::general::lexical::{compare_bytes, Lexical};
use std::cmp::Ordering;
use std::collections::hash_map::DefaultHasher;
use std::collections::HashSet;
use std::hash::{Hash, Hasher};

fn inline(text: &str) -> EscadraString {
    let es = EscadraString::from(text);
    assert!(es.is_inline());
    es
}

fn in_buffer(text: &str) -> EscadraString {
    let mut es = EscadraString::from("Banana Banana Banana Banana");
    es.set_string(&text.to_string());
    assert!(!es.is_inline());
    es
}

fn hash_of(es: &EscadraString) -> u64 {
    let mut hasher = DefaultHasher::new();
    es.hash(&mut hasher);
    hasher.finish()
}

#[test]
fn equal_by_text_whatever_the_storage() {
    assert!(inline("Banana") == in_buffer("Banana"));
    assert!(in_buffer("Banana") == inline("Banana"));
    assert!(inline("") == in_buffer(""));
    assert!(inline("Banana") != in_buffer("Banan"));
    assert!(inline("Banana") != inline("Banane"));
    assert!(in_buffer("Banana Banana Banana") != in_buffer("Banana Banana Banan"));
}

#[test]
fn ordered_by_bytes_whatever_the_storage() {
    assert_eq!(inline("Apple").partial_cmp(&in_buffer("Banana")), Some(Ordering::Less));
    assert_eq!(in_buffer("Banana").partial_cmp(&inline("Apple")), Some(Ordering::Greater));
    assert_eq!(inline("Banana").partial_cmp(&in_buffer("Banana")), Some(Ordering::Equal));
    assert_eq!(inline("Ban").partial_cmp(&inline("Banana")), Some(Ordering::Less));
    assert_eq!(inline("Banana").partial_cmp(&inline("Ban")), Some(Ordering::Greater));
    assert_eq!(inline("").partial_cmp(&inline("a")), Some(Ordering::Less));
    assert!(inline("Z") < inline("a"));
    assert!(inline("z") < inline("ä"));
    assert!(in_buffer("b") > inline("a"));
    assert!(inline("a") <= in_buffer("a"));
    assert!(inline("a") >= in_buffer("a"));
}

#[test]
fn ordered_as_the_texts_are() {
    let texts = ["", "a", "ab", "b", "Banana", "Banana Banana Banana", "ä", "z", "Z", "\u{10348}"];
    for a in texts {
        for b in texts {
            assert_eq!(inline_or_buffer(a).partial_cmp(&inline_or_buffer(b)), Some(a.cmp(b)));
            assert_eq!(inline_or_buffer(a) == inline_or_buffer(b), a == b);
        }
    }
}

fn inline_or_buffer(text: &str) -> EscadraString {
    EscadraString::from(text)
}

#[test]
fn hashed_by_text_whatever_the_storage() {
    assert_eq!(hash_of(&inline("Banana")), hash_of(&in_buffer("Banana")));
    assert_eq!(hash_of(&inline("")), hash_of(&in_buffer("")));
    assert_ne!(hash_of(&inline("Banana")), hash_of(&inline("Banan")));

    let mut hasher = DefaultHasher::new();
    "Banana".hash(&mut hasher);
    assert_eq!(hash_of(&inline("Banana")), hasher.finish());
}

#[test]
fn equal_strings_are_one_key() {
    let mut set = HashSet::new();
    assert!(set.insert(inline("Banana")));
    assert!(!set.insert(in_buffer("Banana")));
    assert!(set.insert(in_buffer("Cherry")));
    assert_eq!(set.len(), 2);
    assert!(set.contains(&inline("Cherry")));
}

#[test]
fn compare_bytes_is_lexicographic() {
    assert_eq!(compare_bytes(b"", b""), Lexical::Equal);
    assert_eq!(compare_bytes(b"abc", b"abc"), Lexical::Equal);
    assert_eq!(compare_bytes(b"", b"a"), Lexical::Before);
    assert_eq!(compare_bytes(b"a", b""), Lexical::After);
    assert_eq!(compare_bytes(b"ab", b"abc"), Lexical::Before);
    assert_eq!(compare_bytes(b"abc", b"ab"), Lexical::After);
    assert_eq!(compare_bytes(b"abc", b"abd"), Lexical::Before);
    assert_eq!(compare_bytes(b"abd", b"abc"), Lexical::After);
    assert_eq!(compare_bytes(b"b", b"abc"), Lexical::After);
    assert_eq!(compare_bytes(&[0x7f], &[0x80]), Lexical::Before);
    assert_eq!(compare_bytes(&[0xff], &[0x00, 0xff]), Lexical::After);
}
