use katas::pangram::is_pangram;

#[test]
fn pangram_classic() {
    assert!(is_pangram("thequickbrownfoxjumpsoverthelazydog"));
}

#[test]
fn pangram_missing_letters() {
    assert!(!is_pangram("whatdoesthefoxsay"));
}

#[test]
fn pangram_empty() {
    assert!(!is_pangram(""));
}

#[test]
fn pangram_case_invariance() {
    let lower = "the quick brown fox jumps over the lazy dog";
    let upper = "THE QUICK BROWN FOX JUMPS OVER THE LAZY DOG";
    let mixed = "The Quick Brown Fox Jumps Over The Lazy Dog";
    assert!(is_pangram(lower));
    assert_eq!(is_pangram(lower), is_pangram(upper));
    assert_eq!(is_pangram(lower), is_pangram(mixed));
}

#[test]
fn pangram_case_invariance_negative() {
    assert_eq!(
        is_pangram("whatdoesthefoxsay"),
        is_pangram("WHATDOESTHEFOXSAY")
    );
}

#[test]
fn pangram_appending_keeps_it() {
    assert!(is_pangram("thequickbrownfoxjumpsoverthelazydog 0123!?"));
    assert!(is_pangram(
        "the quick brown fox jumps over the lazy dog and naps"
    ));
}

#[test]
fn pangram_non_letters_never_count() {
    assert!(!is_pangram("0123456789 ,.!?-_"));
}

#[test]
fn pangram_one_letter_short() {
    // every letter but 'q'
    assert!(!is_pangram("the uick brown fox jumps over the lazy dog"));
}
