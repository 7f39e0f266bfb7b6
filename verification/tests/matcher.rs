use vanity_core::matcher::{PatternMatcher, ValidationError};

fn pats(ps: &[&str]) -> Vec<String> {
    ps.iter().map(|p| p.to_string()).collect()
}

#[test]
fn validate_empty_fails_no_patterns() {
    let m = PatternMatcher::new(Vec::new(), true, false, false);
    assert!(matches!(m.validate(), Err(ValidationError::NoPatterns)));
    let m = PatternMatcher::new(Vec::new(), false, true, false);
    assert!(matches!(m.validate(), Err(ValidationError::NoPatterns)));
}

#[test]
fn validate_prefix_start_char_rejected() {
    let m = PatternMatcher::new(pats(&["abc"]), true, true, false);
    match m.validate() {
        Err(ValidationError::InvalidStartPattern { pattern }) => {
            assert_eq!(pattern, "abc");
        }
        other => panic!("expected InvalidStartPattern, got {:?}", other.is_ok()),
    }
}

#[test]
fn validate_prefix_start_char_accepted() {
    for p in ["e1", "f1", "g1", "h1", "i1"] {
        let m = PatternMatcher::new(pats(&[p]), true, true, false);
        assert!(m.validate().is_ok());
    }
}

#[test]
fn validate_prefix_checked_before_base58() {
    // '0' is both an invalid start character and outside Base58; the start
    // check is reported first.
    let m = PatternMatcher::new(pats(&["0bc"]), true, true, false);
    assert!(matches!(
        m.validate(),
        Err(ValidationError::InvalidStartPattern { .. })
    ));
}

#[test]
fn validate_invalid_character_position() {
    let m = PatternMatcher::new(pats(&["ea0bc"]), true, false, false);
    match m.validate() {
        Err(ValidationError::InvalidCharacter { character, pattern, position }) => {
            assert_eq!(character, '0');
            assert_eq!(pattern, "ea0bc");
            assert_eq!(position, 3);
        }
        _ => panic!("expected InvalidCharacter"),
    }
}

#[test]
fn validate_each_excluded_character() {
    for (p, c, pos) in [("xO", 'O', 2), ("Ix", 'I', 1), ("ababl", 'l', 5), ("a0", '0', 2)] {
        let m = PatternMatcher::new(pats(&[p]), true, false, false);
        match m.validate() {
            Err(ValidationError::InvalidCharacter { character, pattern, position }) => {
                assert_eq!(character, c);
                assert_eq!(pattern, p);
                assert_eq!(position, pos);
            }
            _ => panic!("expected InvalidCharacter for {}", p),
        }
    }
}

#[test]
fn validate_full_base58_alphabet_accepted() {
    let alphabet = "123456789ABCDEFGHJKLMNPQRSTUVWXYZabcdefghijkmnopqrstuvwxyz";
    let m = PatternMatcher::new(pats(&[alphabet]), true, false, false);
    assert!(m.validate().is_ok());
}

#[test]
fn validate_reports_first_offending_pattern() {
    let m = PatternMatcher::new(pats(&["abc", "xOx", "0"]), true, false, false);
    match m.validate() {
        Err(ValidationError::InvalidCharacter { character, pattern, position }) => {
            assert_eq!(character, 'O');
            assert_eq!(pattern, "xOx");
            assert_eq!(position, 2);
        }
        _ => panic!("expected InvalidCharacter"),
    }
}

#[test]
fn case_insensitive_anywhere_matches() {
    let m = PatternMatcher::new(pats(&["AbC"]), false, false, false);
    assert_eq!(m.is_match("xyzABCxyz"), Some("abc".to_string()));
}

#[test]
fn case_insensitive_candidate_is_lowered() {
    let m = PatternMatcher::new(pats(&["abc"]), false, false, false);
    assert_eq!(m.is_match("XYZABCXYZ"), Some("abc".to_string()));
}

#[test]
fn case_sensitive_mismatch_is_none() {
    let m = PatternMatcher::new(pats(&["AbC"]), true, false, false);
    assert_eq!(m.is_match("xyzABCxyz"), None);
    assert_eq!(m.is_match("xyzAbCxyz"), Some("AbC".to_string()));
}

#[test]
fn prefix_short_candidates_never_match() {
    let m = PatternMatcher::new(pats(&["e"]), true, true, false);
    assert_eq!(m.is_match(""), None);
    assert_eq!(m.is_match("e"), None);
    let m = PatternMatcher::new(pats(&[""]), true, true, false);
    assert_eq!(m.is_match("x"), None);
}

#[test]
fn prefix_skips_leading_character() {
    let m = PatternMatcher::new(pats(&["abc"]), true, true, false);
    assert_eq!(m.is_match("9abc123"), Some("abc".to_string()));
    // The pattern is held against the candidate after its first character,
    // so a candidate that itself starts with the pattern does not match.
    assert_eq!(m.is_match("abc123"), None);
}

#[test]
fn first_pattern_wins() {
    let m = PatternMatcher::new(pats(&["xyz", "ab"]), true, false, false);
    assert_eq!(m.is_match("zzabxyz"), Some("xyz".to_string()));
    // Declared the other way round, the other pattern wins.
    let m = PatternMatcher::new(pats(&["ab", "xyz"]), true, false, false);
    assert_eq!(m.is_match("zzabxyz"), Some("ab".to_string()));
}

#[test]
fn suffix_matches_only_at_end() {
    let m = PatternMatcher::new(pats(&["xyz"]), true, false, true);
    assert_eq!(m.is_match("abcxyz"), Some("xyz".to_string()));
    assert_eq!(m.is_match("xyzabc"), None);
}

#[test]
fn anywhere_no_match_is_none() {
    let m = PatternMatcher::new(pats(&["qq"]), true, false, false);
    assert_eq!(m.is_match("abcdef"), None);
}

#[test]
fn empty_pattern_matches_anything_anywhere() {
    let m = PatternMatcher::new(pats(&[""]), true, false, false);
    assert_eq!(m.is_match("abc"), Some("".to_string()));
}

#[test]
fn has_multiple_patterns_query() {
    let one = PatternMatcher::new(pats(&["ab"]), true, false, false);
    assert!(!one.has_multiple_patterns());
    let two = PatternMatcher::new(pats(&["ab", "cd"]), true, false, false);
    assert!(two.has_multiple_patterns());
    let none = PatternMatcher::new(Vec::new(), true, false, false);
    assert!(!none.has_multiple_patterns());
}
