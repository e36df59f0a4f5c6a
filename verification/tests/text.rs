use paystubs::text::{chars_of, find_text, same_text, string_from_chars, trim};

#[test]
fn trim_matches_str_trim() {
    for s in ["  a b  ", "\t\n x\u{3000}", "", "   ", "\u{a0}é\u{2009}"] {
        assert_eq!(trim(s), s.trim());
    }
}

#[test]
fn chars_round_trip() {
    let s = "Août à 10€";
    assert_eq!(string_from_chars(&chars_of(s)), s);
}

#[test]
fn text_search_and_equality() {
    assert!(find_text("abcdef", "cde"));
    assert!(find_text("abc", ""));
    assert!(!find_text("abc", "abcd"));
    assert!(same_text("été", "été"));
    assert!(!same_text("été", "ete"));
}
