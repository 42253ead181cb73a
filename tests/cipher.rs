use caesar_cipher::alphabet::shift_char;
use caesar_cipher::cipher::{auto_decrypt, decrypt, encrypt, find_output, is_passable, try_decrypt, Outcome};
use caesar_cipher::dictionary::Dictionary;
use caesar_cipher::text::{join_words, shift_text, shift_word, split_words};

fn dictionary(words: &[&str]) -> Dictionary {
    Dictionary::new(words.iter().map(|w| w.to_string()).collect())
}

fn letters() -> Vec<char> {
    ('a'..='z').chain('A'..='Z').collect()
}

#[test]
fn char_round_trip_for_every_letter_and_shift() {
    for c in letters() {
        for s in -200i64..200 {
            let e = shift_char(c, s, true);
            assert_eq!(shift_char(e, s, false), c);
        }
        for s in [i64::MIN, i64::MIN + 1, i64::MAX, i64::MAX - 1] {
            let e = shift_char(c, s, true);
            assert_eq!(shift_char(e, s, false), c);
        }
    }
}

#[test]
fn non_letters_pass_through() {
    for c in [' ', '.', ',', '!', '0', '9', '\t', '\n', '-', 'é', 'Ω', '中'] {
        for s in [-30i64, -1, 0, 1, 3, 25, 26, 100, i64::MIN, i64::MAX] {
            assert_eq!(shift_char(c, s, true), c);
            assert_eq!(shift_char(c, s, false), c);
        }
    }
}

#[test]
fn case_is_preserved() {
    for s in -60i64..60 {
        for c in 'A'..='Z' {
            assert!(shift_char(c, s, true).is_ascii_uppercase());
            assert!(shift_char(c, s, false).is_ascii_uppercase());
        }
        for c in 'a'..='z' {
            assert!(shift_char(c, s, true).is_ascii_lowercase());
            assert!(shift_char(c, s, false).is_ascii_lowercase());
        }
    }
}

#[test]
fn char_shift_values() {
    assert_eq!(shift_char('a', 1, true), 'b');
    assert_eq!(shift_char('z', 1, true), 'a');
    assert_eq!(shift_char('a', 1, false), 'z');
    assert_eq!(shift_char('A', 27, true), 'B');
    assert_eq!(shift_char('A', -1, true), 'Z');
    assert_eq!(shift_char('A', -27, true), 'Z');
    assert_eq!(shift_char('m', 0, true), 'm');
    assert_eq!(shift_char('m', 26, false), 'm');
    assert_eq!(shift_char('c', -3, false), 'f');
    // i64::MIN = -9223372036854775808, which is 18 modulo 26
    assert_eq!(shift_char('a', i64::MIN, true), 's');
    // i64::MAX = 9223372036854775807, which is 7 modulo 26
    assert_eq!(shift_char('a', i64::MAX, true), 'h');
    assert_eq!(shift_char('a', i64::MAX, false), 't');
}

#[test]
fn text_round_trip() {
    let texts = [
        "Attack at dawn",
        "Hello, World! 123",
        "",
        " ",
        "  leading and trailing  ",
        "tabs\tand\nnewlines stay",
        "The quick brown fox jumps over the lazy dog.",
        "~!@#$%^&*()_+{}|:<>?",
    ];
    for t in texts {
        for s in [-27i64, -1, 0, 1, 3, 13, 25, 26, 1000, i64::MIN, i64::MAX] {
            let e = encrypt(s, t);
            let (used, d) = decrypt(Some(s), &e);
            assert_eq!(used, s);
            assert_eq!(d, t);
        }
    }
}

#[test]
fn random_shift_stays_in_range() {
    let dict = dictionary(&["unused"]);
    let mut min = i64::MAX;
    let mut max = i64::MIN;
    for _ in 0..10_000 {
        match find_output(true, true, 0, "abc xyz", &dict) {
            Outcome::Encrypted { shift, ciphertext } => {
                assert_eq!(ciphertext, encrypt(shift, "abc xyz"));
                min = min.min(shift);
                max = max.max(shift);
            }
            _ => panic!("automatic encryption did not encrypt"),
        }
    }
    assert!(min >= 1);
    assert!(max <= 24);
}

#[test]
fn decrypt_without_shift_draws_one() {
    for _ in 0..1000 {
        let (shift, plaintext) = decrypt(None, "Khoor");
        assert!((1..=24).contains(&shift));
        assert_eq!(encrypt(shift, &plaintext), "Khoor");
    }
}

#[test]
fn auto_decrypt_finds_the_shift() {
    let dict = dictionary(&["the", "cat", "sat", "on", "mat"]);
    let ciphertext = encrypt(3, "the cat sat on the mat");
    assert_eq!(ciphertext, "wkh fdw vdw rq wkh pdw");
    assert_eq!(
        auto_decrypt(&ciphertext, &dict),
        Some((3, "the cat sat on the mat".to_string()))
    );
}

#[test]
fn auto_decrypt_prefers_the_smallest_shift() {
    // "b" decrypted by 1 is "a", by 2 is "z": both are known words
    let dict = dictionary(&["a", "z"]);
    assert_eq!(auto_decrypt("b", &dict), Some((1, "a".to_string())));
    assert_eq!(try_decrypt(2, "b", &dict), Some("z".to_string()));
}

#[test]
fn auto_decrypt_gibberish_fails() {
    let dict = dictionary(&["the", "cat", "sat", "on", "mat"]);
    assert_eq!(auto_decrypt("xqzv bkwp jjjf", &dict), None);
    match find_output(false, true, 0, "xqzv bkwp jjjf", &dict) {
        Outcome::NotDecrypted => {}
        _ => panic!("gibberish was decrypted"),
    }
}

#[test]
fn auto_decrypt_empty_and_punctuated_input() {
    let dict = dictionary(&["attack", "at", "dawn"]);
    assert_eq!(auto_decrypt("", &dict), None);
    // "dawn." is not a dictionary word, so only two words of three match
    assert_eq!(auto_decrypt("Dwwdfn dw gdzq.", &dict), None);
    assert_eq!(auto_decrypt("Dwwdfn dw gdzq", &dict), Some((3, "Attack at dawn".to_string())));
}

#[test]
fn auto_decrypt_lowercases_before_lookup() {
    let dict = dictionary(&["attack", "at", "dawn"]);
    assert_eq!(try_decrypt(3, "DWWDFN DW GDZQ", &dict), Some("ATTACK AT DAWN".to_string()));
    assert_eq!(try_decrypt(4, "DWWDFN DW GDZQ", &dict), None);
}

#[test]
fn passable_proportion() {
    let dict = dictionary(&["a"]);
    // nine known words of ten pass, eight of ten do not
    let nine = "b b b b b b b b b cc";
    let eight = "b b b b b b b b cc cc";
    assert_eq!(try_decrypt(1, nine, &dict), Some("a a a a a a a a a bb".to_string()));
    assert_eq!(try_decrypt(1, eight, &dict), None);
    assert!(is_passable(9, 10));
    assert!(!is_passable(8, 10));
    assert!(is_passable(1, 1));
    assert!(!is_passable(0, 1));
    assert!(is_passable(0, 0));
    assert!(is_passable(usize::MAX, usize::MAX));
    assert!(!is_passable(usize::MAX / 10 * 8, usize::MAX));
}

#[test]
fn single_word() {
    assert_eq!(encrypt(3, "hello"), "khoor");
    assert_eq!(decrypt(Some(3), "khoor"), (3, "hello".to_string()));
}

#[test]
fn attack_at_dawn() {
    assert_eq!(encrypt(3, "Attack at dawn"), "Dwwdfn dw gdzq");
    assert_eq!(decrypt(Some(3), "Dwwdfn dw gdzq").1, "Attack at dawn");
}

#[test]
fn dispatch_with_given_shift() {
    let dict = dictionary(&["hello"]);
    match find_output(true, false, 3, "hello", &dict) {
        Outcome::Encrypted { shift, ciphertext } => {
            assert_eq!(shift, 3);
            assert_eq!(ciphertext, "khoor");
        }
        _ => panic!("not encrypted"),
    }
    match find_output(false, false, 3, "khoor", &dict) {
        Outcome::Decrypted { shift, plaintext } => {
            assert_eq!(shift, 3);
            assert_eq!(plaintext, "hello");
        }
        _ => panic!("not decrypted"),
    }
    match find_output(false, true, 0, "khoor", &dict) {
        Outcome::Decrypted { shift, plaintext } => {
            assert_eq!(shift, 3);
            assert_eq!(plaintext, "hello");
        }
        _ => panic!("not decrypted"),
    }
}

#[test]
fn words_split_on_single_spaces() {
    assert_eq!(split_words("a  b"), vec!["a".to_string(), String::new(), "b".to_string()]);
    assert_eq!(split_words(""), vec![String::new()]);
    assert_eq!(split_words(" "), vec![String::new(), String::new()]);
    assert_eq!(split_words("x\ty z"), vec!["x\ty".to_string(), "z".to_string()]);
    let words = vec!["a".to_string(), String::new(), "b".to_string()];
    assert_eq!(join_words(&words), "a  b");
    assert_eq!(join_words(&vec![]), "");
    assert_eq!(shift_word("Zz9", 1, true), "Aa9");
    assert_eq!(shift_text("ab  cd", 1, true), "bc  de");
}

#[test]
fn dictionary_lookup() {
    let dict = dictionary(&["the", "cat", "on"]);
    assert!(dict.contains(&"cat".to_string()));
    assert!(!dict.contains(&"Cat".to_string()));
    assert!(!dict.contains(&String::new()));
    let words = vec!["the".to_string(), "the".to_string(), "dog".to_string(), "on".to_string()];
    assert_eq!(dict.count_known_words(&words), 3);
}
