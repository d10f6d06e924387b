use cherenkov::ranking::rank;
use cherenkov::text::{
    chars_of, clean, common_tokens, decimal, decimal_wide, fixed, from_chars, parse_unsigned, same, to_lower, width,
};

#[test]
fn decimals_are_written_out() {
    for n in [0, 7, 10, 65536, u64::MAX] {
        assert_eq!(decimal(n), n.to_string());
    }
    assert_eq!(decimal_wide(u128::MAX), u128::MAX.to_string());
    assert_eq!(decimal_wide(0), "0");
}

#[test]
fn counts_are_read() {
    assert_eq!(parse_unsigned("0"), Some(0));
    assert_eq!(parse_unsigned("+12"), Some(12));
    assert_eq!(parse_unsigned("007"), Some(7));
    for wrong in ["", "+", "-1", "1 ", "12x", "++1", "99999999999999999999999"] {
        assert_eq!(parse_unsigned(wrong), None, "{wrong}");
        assert_eq!(wrong.parse::<usize>().ok(), None, "{wrong}");
    }
    assert_eq!(parse_unsigned(&usize::MAX.to_string()), Some(usize::MAX));
}

#[test]
fn quotients_round_half_to_even() {
    assert_eq!(fixed(1, 2, false), "0.5");
    assert_eq!(fixed(1, 3, true), "0.333");
    assert_eq!(fixed(2, 3, true), "0.667");
    assert_eq!(fixed(25, 100, false), "0.2");
    assert_eq!(fixed(35, 100, false), "0.4");
    assert_eq!(fixed(0, 9, false), "0.0");
    assert_eq!(fixed(1_234_567, 1000, true), "1234.567");
    for (a, b) in [(1u32, 7u32), (22, 7), (100, 3), (9, 8)] {
        assert_eq!(fixed(a.into(), b.into(), true), format!("{:.3}", f64::from(a) / f64::from(b)));
        assert_eq!(fixed(a.into(), b.into(), false), format!("{:.1}", f64::from(a) / f64::from(b)));
    }
}

#[test]
fn control_characters_are_cleaned() {
    assert_eq!(clean("plain text é"), "plain text é");
    assert_eq!(clean("a\tb"), "a b");
    assert!(!clean("a\x1b[31mb\u{85}").chars().any(char::is_control));
}

#[test]
fn characters_go_back_and_forth() {
    let text = "añ€😀";
    let chars = chars_of(text);
    assert_eq!(chars, vec!['a', 'ñ', '€', '😀']);
    assert_eq!(from_chars(&chars), text);
    assert_eq!(chars.iter().map(|c| width(*c)).collect::<Vec<_>>(), vec![1, 2, 3, 4]);
    assert!(same(text, &from_chars(&chars)));
    assert!(!same(text, "añ€"));
}

#[test]
fn letters_are_lowered() {
    assert_eq!(to_lower(&chars_of("Content-LENGTH 12 É")), "content-length 12 É");
}

#[test]
fn shared_tokens_are_counted() {
    assert_eq!(common_tokens(&[1, 2, 3], &[1, 2, 4, 5]), 2);
    assert_eq!(common_tokens(&[1, 2], &[1, 2, 4]), 2);
    assert_eq!(common_tokens(&[], &[1]), 0);
    assert_eq!(common_tokens(&[9], &[1]), 0);
}

#[test]
fn ranking_is_stable_within_groups() {
    let order = rank(&[true, false, true, false], &[5, 5, 1, 9]);
    assert_eq!(order, vec![3, 1, 0, 2]);
    let same = rank(&[true; 4], &[3, 3, 3, 3]);
    assert_eq!(same, vec![0, 1, 2, 3]);
}
