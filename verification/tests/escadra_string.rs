use highfleet::general::escadra_string::EscadraString;

#[test]
fn set_string_then_read_below_16_chars() {
    let mut es = EscadraString::new();

    let string = "Banana".to_string();

    es.set_string(&string);

    let result = es.get_string();

    assert_eq!(string, result);
}

#[test]
fn set_string_below_16_chars_twice() {
    let mut es = EscadraString::new();

    let string = "Banana".to_string();

    es.set_string(&string);
    let result = es.get_string();
    assert_eq!(string, result);

    es.set_string(&string);
    let result = es.get_string();
    assert_eq!(string, result);
}

#[test]
fn set_string_then_read_above_16_chars() {
    let mut es = EscadraString::new();

    let string = "Banana Banana Banana Banana".to_string();

    es.set_string(&string);

    let result = es.get_string();

    assert_eq!(string, result);
}

#[test]
fn set_string_above_16_chars_twice() {
    let mut es = EscadraString::new();

    let string = "Banana Banana Banana Banana".to_string();
    es.set_string(&string);
    let result = es.get_string();
    assert_eq!(string, result);

    es.set_string(&string);
    let result = es.get_string();
    assert_eq!(string, result);
}

#[test]
fn set_large_then_set_small_then_read() {
    let mut es = EscadraString::new();

    let long_string = "Banana Banana Banana Banana".to_string();
    let short_string = "Banana".to_string();

    es.set_string(&long_string);
    es.set_string(&short_string);

    let result = es.get_string();

    assert_eq!(short_string, result);
}

#[test]
fn set_16_len_string_then_read() {
    let mut es = EscadraString::new();

    let string = "BananBananBanana".to_string();

    es.set_string(&string);

    let result = es.get_string();

    assert_eq!(string, result);
}

#[test]
fn set_15_len_string_then_read() {
    let mut es = EscadraString::new();

    let string = "BananBananBanan".to_string();

    es.set_string(&string);

    let result = es.get_string();

    assert_eq!(string, result);
}

#[test]
fn pointer_is_null_terminated() {
    let mut es = EscadraString::new();

    let string = "Banana Banana Banana".to_string();
    es.set_string(&string);
    assert!(!es.is_inline());
    assert!(es.storage_bytes()[string.len()] == b'\0');

    let string = "Banana".to_string();
    es.set_string(&string);
    assert!(!es.is_inline());
    assert!(es.storage_bytes()[string.len()] == b'\0');
}

#[test]
fn char_array_is_null_terminated() {
    let mut es = EscadraString::new();

    let string = "Banana".to_string();
    es.set_string(&string);
    assert!(es.is_inline());
    assert!(es.storage_bytes()[string.len()] == b'\0');

    let string = "Ban".to_string();
    es.set_string(&string);
    assert!(es.is_inline());
    assert!(es.storage_bytes()[string.len()] == b'\0');
}

#[test]
fn new_is_empty_and_inline() {
    let es = EscadraString::new();
    assert_eq!(es.get_string(), "");
    assert_eq!(es.length(), 0);
    assert_eq!(es.max_length(), 15);
    assert!(es.is_inline());
    assert_eq!(es.storage_bytes(), [0u8; 16]);
    assert_eq!(es.as_bytes(), b"");
}

#[test]
fn default_is_new() {
    let es = EscadraString::default();
    assert_eq!(es.get_string(), "");
    assert_eq!(es.max_length(), 15);
    assert!(es.is_inline());
}

#[test]
fn short_text_is_held_inline() {
    for text in ["", "B", "Banana", "BananBananBana", "BananBananBanan"] {
        let mut es = EscadraString::new();
        es.set_string(&text.to_string());
        assert_eq!(es.get_string(), text);
        assert_eq!(es.length(), text.len() as u64);
        assert_eq!(es.max_length(), 15);
        assert!(es.is_inline());
        assert_eq!(es.storage_bytes().len(), 16);
    }
}

#[test]
fn long_text_is_held_in_a_buffer() {
    for (text, max_length) in [
        ("BananBananBanana", 31),
        ("Banana Banana Banana Banana", 31),
        ("Banana Banana Banana Banana Bana", 63),
        ("Banana Banana Banana Banana Banana Banana Banana Banana Banana B", 127),
    ] {
        let mut es = EscadraString::new();
        es.set_string(&text.to_string());
        assert_eq!(es.get_string(), text);
        assert_eq!(es.length(), text.len() as u64);
        assert_eq!(es.max_length(), max_length);
        assert!(es.max_length() >= text.len() as u64);
        assert!(!es.is_inline());
        assert_eq!(es.storage_bytes().len() as u64, max_length + 1);
    }
}

#[test]
fn inline_ends_at_15_bytes_of_text() {
    let mut es = EscadraString::new();
    es.set_string(&"BananBananBanan".to_string());
    assert!(es.is_inline());
    assert_eq!(es.max_length(), 15);

    let mut es = EscadraString::new();
    es.set_string(&"BananBananBanana".to_string());
    assert!(!es.is_inline());
    assert_eq!(es.max_length(), 31);
}

#[test]
fn inline_is_counted_in_bytes_not_in_chars() {
    let mut es = EscadraString::new();
    es.set_string(&"ääääääää".to_string());
    assert_eq!(es.get_string(), "ääääääää");
    assert_eq!(es.length(), 16);
    assert!(!es.is_inline());
    assert_eq!(es.max_length(), 31);

    let mut es = EscadraString::new();
    es.set_string(&"äääääää".to_string());
    assert_eq!(es.get_string(), "äääääää");
    assert_eq!(es.length(), 14);
    assert!(es.is_inline());
}

#[test]
fn buffer_doubles_from_the_size_it_has() {
    let mut es = EscadraString::new();
    es.set_string(&"x".repeat(16));
    assert_eq!(es.max_length(), 31);
    es.set_string(&"x".repeat(31));
    assert_eq!(es.max_length(), 31);
    es.set_string(&"x".repeat(32));
    assert_eq!(es.max_length(), 63);
    es.set_string(&"x".repeat(300));
    assert_eq!(es.max_length(), 511);
    es.set_string(&"x".repeat(20));
    assert_eq!(es.max_length(), 511);
    assert_eq!(es.get_string(), "x".repeat(20));
}

#[test]
fn second_set_string_changes_nothing() {
    for text in ["Banana", "Banana Banana Banana Banana"] {
        let mut es = EscadraString::new();
        es.set_string(&text.to_string());
        let once = (es.get_string().to_string(), es.max_length(), es.is_inline());
        let storage = es.storage_bytes().to_vec();
        es.set_string(&text.to_string());
        assert_eq!((es.get_string().to_string(), es.max_length(), es.is_inline()), once);
        assert_eq!(es.storage_bytes(), storage);
    }
}

#[test]
fn short_after_long_keeps_the_buffer() {
    let mut es = EscadraString::new();
    es.set_string(&"Banana Banana Banana Banana".to_string());
    es.set_string(&"Banana".to_string());
    assert_eq!(es.get_string(), "Banana");
    assert_eq!(es.length(), 6);
    assert!(!es.is_inline());
    assert_eq!(es.max_length(), 31);
    assert_eq!(es.storage_bytes().len(), 32);
}

#[test]
fn storage_is_the_content_and_then_zeros() {
    let mut es = EscadraString::new();
    es.set_string(&"Banana Banana Banana".to_string());
    assert_eq!(&es.storage_bytes()[..20], b"Banana Banana Banana");
    assert_eq!(&es.storage_bytes()[20..], [0u8; 12]);
    es.set_string(&"Ban".to_string());
    assert_eq!(&es.storage_bytes()[..3], b"Ban");
    assert_eq!(&es.storage_bytes()[3..], [0u8; 29]);

    let mut es = EscadraString::new();
    es.set_string(&"Banana".to_string());
    es.set_string(&"Ban".to_string());
    assert_eq!(es.storage_bytes(), b"Ban\0\0\0\0\0\0\0\0\0\0\0\0\0");
}

#[test]
fn try_set_string_writes_the_text() {
    let mut es = EscadraString::new();
    assert_eq!(es.try_set_string(&"Banana Banana Banana".to_string()), Ok(()));
    assert_eq!(es.get_string(), "Banana Banana Banana");
    assert_eq!(es.max_length(), 31);
    assert_eq!(es.try_set_string(&"Ban".to_string()), Ok(()));
    assert_eq!(es.get_string(), "Ban");
}

#[test]
fn copy_and_original_are_independent() {
    let mut original = EscadraString::new();
    original.set_string(&"Banana Banana Banana Banana".to_string());
    let mut copy = original.clone();
    assert_eq!(copy.get_string(), "Banana Banana Banana Banana");
    assert!(copy == original);

    copy.set_string(&"Cherry".to_string());
    assert_eq!(original.get_string(), "Banana Banana Banana Banana");
    assert_eq!(copy.get_string(), "Cherry");

    original.set_string(&"Apple Apple Apple Apple Apple Apple".to_string());
    assert_eq!(copy.get_string(), "Cherry");
    assert_eq!(original.get_string(), "Apple Apple Apple Apple Apple Apple");
}

#[test]
fn copy_is_made_of_the_text_alone() {
    let mut original = EscadraString::new();
    original.set_string(&"Banana Banana Banana Banana".to_string());
    original.set_string(&"Banana".to_string());
    assert!(!original.is_inline());

    let copy = original.clone();
    assert_eq!(copy.get_string(), "Banana");
    assert!(copy.is_inline());
    assert_eq!(copy.max_length(), 15);
    assert!(copy == original);
}

#[test]
fn text_round_trip() {
    for text in ["", "Banana", "BananBananBanan", "BananBananBanana", "Banana Banana Banana ä"] {
        let es = EscadraString::from(text.to_string());
        assert_eq!(es.get_string(), text);
        let encoded = String::from(es.clone());
        assert_eq!(encoded, text);
        let back = EscadraString::from(encoded);
        assert_eq!(back.get_string(), es.get_string());
        assert!(back == es);
    }
}

#[test]
fn round_trip_of_a_string_with_a_buffer_it_does_not_need() {
    let mut es = EscadraString::new();
    es.set_string(&"Banana Banana Banana Banana".to_string());
    es.set_string(&"Ban".to_string());
    let back = EscadraString::from(String::from(es.clone()));
    assert_eq!(back.get_string(), "Ban");
    assert!(back.is_inline());
    assert!(back == es);
}

#[test]
fn from_str_holds_the_text() {
    let es = EscadraString::from("Banana Banana Banana");
    assert_eq!(es.get_string(), "Banana Banana Banana");
    assert_eq!(es.max_length(), 31);
    let es = EscadraString::from("Ban");
    assert_eq!(es.get_string(), "Ban");
    assert!(es.is_inline());
}

#[test]
fn many_strings_grow_shrink_and_drop() {
    let mut held = Vec::new();
    for round in 0..200usize {
        let mut es = EscadraString::new();
        for step in 0..8usize {
            let text = "ab".repeat((round * 7 + step * 13) % 90);
            es.set_string(&text);
            assert_eq!(es.get_string(), text);
            assert_eq!(es.storage_bytes()[text.len()], 0);
            assert_eq!(es.storage_bytes().len() as u64, es.max_length() + 1);
        }
        let copy = es.clone();
        if round % 3 == 0 {
            held.push(copy);
        }
    }
    assert_eq!(held.len(), 67);
}

#[test]
fn debug_string_shows_text_length_and_max_length() {
    assert_eq!(
        EscadraString::new().debug_string(),
        "EscadraString { string: \"\", length: 0, max_length: 15 }"
    );
    assert_eq!(
        EscadraString::from("Banana").debug_string(),
        "EscadraString { string: \"Banana\", length: 6, max_length: 15 }"
    );
    let mut es = EscadraString::from("Banana Banana Banana Banana");
    assert_eq!(
        es.debug_string(),
        "EscadraString { string: \"Banana Banana Banana Banana\", length: 27, max_length: 31 }"
    );
    es.set_string(&"Ban".to_string());
    assert_eq!(es.debug_string(), "EscadraString { string: \"Ban\", length: 3, max_length: 31 }");
}

#[test]
fn debug_string_escapes_the_text_as_str_does() {
    let text = "say \"hi\"\\\n\tä\u{7f}";
    assert_eq!(
        EscadraString::from(text).debug_string(),
        format!("EscadraString {{ string: {:?}, length: 14, max_length: 15 }}", text)
    );
    assert_eq!(
        EscadraString::from("a\"b").debug_string(),
        "EscadraString { string: \"a\\\"b\", length: 3, max_length: 15 }"
    );
}

#[test]
fn debug_string_with_takes_the_quoted_text_as_it_is_given() {
    assert_eq!(
        EscadraString::from("Banana").debug_string_with("<quoted>"),
        "EscadraString { string: <quoted>, length: 6, max_length: 15 }"
    );
}
