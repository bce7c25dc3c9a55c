use is_anagram::{compare_words, ErrorKind, IsAnagram};

fn kind_of(r: Result<bool, is_anagram::Error>) -> ErrorKind {
    assert!(r.is_err(), "Expected error, got {:?}", r);
    *r.unwrap_err().kind()
}

#[test]
fn postive() {
    assert!("banana".is_anagram_of("nabana").unwrap());
}

#[test]
fn negative() {
    assert!(!"banana".is_anagram_of("pineap").unwrap());
    assert!(!"lorem".is_anagram_of("ipsum").unwrap());
}

#[test]
fn errors() {
    assert_eq!(kind_of("a".is_anagram_of("")), ErrorKind::DifferentLength);
    assert_eq!(kind_of("".is_anagram_of("a")), ErrorKind::DifferentLength);
    assert_eq!(
        kind_of("banana".is_anagram_of("pineapple")),
        ErrorKind::DifferentLength
    );
    assert_eq!(
        kind_of("foo bar".is_anagram_of("bar foo")),
        ErrorKind::NotOneWord
    );
}

#[test]
fn symmetric_on_words() {
    let pairs = [("banana", "nabana"), ("lorem", "ipsum"), ("Listen", "silent"), ("ab", "abc")];
    for (x, y) in pairs {
        assert_eq!(x.is_anagram_of(y), y.is_anagram_of(x));
    }
}

#[test]
fn reflexive_on_words() {
    for w in ["a", "banana", "Zebra", "conversationalists"] {
        assert_eq!(w.is_anagram_of(w), Ok(true));
    }
}

#[test]
fn length_checked_before_content() {
    assert_eq!(kind_of("a b".is_anagram_of("ab")), ErrorKind::DifferentLength);
    assert_eq!(kind_of("1".is_anagram_of("22")), ErrorKind::DifferentLength);
    assert_eq!(kind_of("é".is_anagram_of("e")), ErrorKind::DifferentLength);
}

#[test]
fn empty_words_are_not_one_word() {
    assert_eq!(kind_of("".is_anagram_of("")), ErrorKind::NotOneWord);
}

#[test]
fn spaces_are_not_one_word() {
    assert_eq!(kind_of("ab ".is_anagram_of("abc")), ErrorKind::NotOneWord);
    assert_eq!(kind_of("abc".is_anagram_of(" bc")), ErrorKind::NotOneWord);
    assert_eq!(kind_of("a1 ".is_anagram_of("abc")), ErrorKind::NotOneWord);
}

#[test]
fn non_letters_are_invalid_encoding() {
    assert_eq!(kind_of("ab1".is_anagram_of("abc")), ErrorKind::InvalidEncoding);
    assert_eq!(kind_of("abc".is_anagram_of("a-c")), ErrorKind::InvalidEncoding);
    assert_eq!(kind_of("a\tb".is_anagram_of("abc")), ErrorKind::InvalidEncoding);
    assert_eq!(kind_of("é".is_anagram_of("ab")), ErrorKind::InvalidEncoding);
    assert_eq!(kind_of("ab".is_anagram_of("é")), ErrorKind::InvalidEncoding);
}

#[test]
fn case_is_ignored() {
    assert_eq!("Banana".is_anagram_of("nabana"), Ok(true));
    assert_eq!("BANANA".is_anagram_of("nabana"), Ok(true));
    assert_eq!("AbC".is_anagram_of("cBa"), Ok(true));
}

#[test]
fn rearrangements_are_anagrams() {
    assert_eq!("listen".is_anagram_of("silent"), Ok(true));
    assert_eq!("triangle".is_anagram_of("integral"), Ok(true));
    assert_eq!("abcdefghijklmnopqrstuvwxyz".is_anagram_of("zyxwvutsrqponmlkjihgfedcba"), Ok(true));
}

#[test]
fn substitutions_are_not_anagrams() {
    assert_eq!("listen".is_anagram_of("listea"), Ok(false));
    assert_eq!("aab".is_anagram_of("abb"), Ok(false));
    assert_eq!("a".is_anagram_of("b"), Ok(false));
    assert_eq!("a".is_anagram_of("A"), Ok(true));
}

#[test]
fn long_words_beyond_sixty_four_bits() {
    assert_eq!("conversationalists".is_anagram_of("conservationalists"), Ok(true));
    assert_eq!("zzzzzzzzzz".is_anagram_of("zzzzzzzzzy"), Ok(false));
    assert_eq!("zzzzzzzzzz".is_anagram_of("zzzzzzzzzz"), Ok(true));
    assert_eq!("zzzzzzzzza".is_anagram_of("azzzzzzzzz"), Ok(true));
    assert_eq!("zzzzzzzzzz".is_anagram_of("aaaaaaaaaa"), Ok(false));
}

#[test]
fn free_function_agrees_with_trait() {
    assert_eq!(compare_words("banana", "nabana"), Ok(true));
    assert_eq!(compare_words("lorem", "ipsum"), Ok(false));
    assert_eq!(
        compare_words("banana", "pineapple").map_err(|e| *e.kind()),
        Err(ErrorKind::DifferentLength)
    );
}

#[test]
fn error_descriptions() {
    assert_eq!(ErrorKind::DifferentLength.description(), "Words have different lengths");
    assert_eq!(ErrorKind::NotOneWord.description(), "Input is not a single word");
    assert_eq!(
        ErrorKind::InvalidEncoding.description(),
        "Input is not made of ASCII letters"
    );
    let e = "a".is_anagram_of("").unwrap_err();
    assert_eq!(e.description(), "Words have different lengths");
    assert_eq!(e, is_anagram::Error::from_kind(ErrorKind::DifferentLength));
}
