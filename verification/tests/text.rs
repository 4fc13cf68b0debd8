use openab::text::{
    blank, chars_of, clipped, decimal_of, lines_of, position_of, replaced, same, string_of,
    trimmed, trimmed_end, trimmed_start, u64_of, white_space,
};

const SAMPLES: [&str; 10] = [
    "",
    " ",
    "abc",
    "  a b  ",
    "\u{3000}x\u{85}",
    "a\nb\r\nc",
    "a\r\r\n\n",
    "\n",
    "żółw\n",
    "no end\r",
];

#[test]
fn white_space_is_that_of_unicode() {
    for u in 0..=0x10FFFFu32 {
        if let Some(c) = char::from_u32(u) {
            assert_eq!(white_space(c), c.is_whitespace(), "{u:x}");
        }
    }
}

#[test]
fn trimming_agrees_with_std() {
    for s in SAMPLES {
        let cs = chars_of(s);
        assert_eq!(string_of(trimmed(&cs)), s.trim());
        assert_eq!(string_of(trimmed_start(&cs)), s.trim_start());
        assert_eq!(string_of(trimmed_end(&cs)), s.trim_end());
        assert_eq!(blank(s), s.trim().is_empty());
    }
}

#[test]
fn lines_agree_with_std() {
    for s in SAMPLES {
        let cs = chars_of(s);
        let found: Vec<String> = lines_of(&cs).iter().map(|l| string_of(l)).collect();
        let expected: Vec<String> = s.lines().map(|l| l.to_string()).collect();
        assert_eq!(found, expected, "{s:?}");
    }
}

#[test]
fn searching() {
    let s = chars_of("abcabc");
    assert_eq!(position_of(&s, &chars_of("bc")), Some(1));
    assert_eq!(position_of(&s, &chars_of("")), Some(0));
    assert_eq!(position_of(&s, &chars_of("bca")), Some(1));
    assert_eq!(position_of(&s, &chars_of("x")), None);
    assert_eq!(position_of(&s, &chars_of("abcabcd")), None);
    assert!(same("ab", "ab"));
    assert!(!same("ab", "a"));
    assert!(!same("ab", "ac"));
}

#[test]
fn replacing_agrees_with_std() {
    for (s, p, w) in [("aaa", "aa", "b"), ("abab", "ab", ""), ("x", "y", "z"), ("", "y", "z")] {
        assert_eq!(replaced(&chars_of(s), &chars_of(p), w), s.replace(p, w));
    }
}

#[test]
fn clipping_keeps_whole_characters() {
    let cs = chars_of("aé€😀");
    let clip = |n: usize| string_of(clipped(&cs, n));
    assert_eq!(clip(0), "");
    assert_eq!(clip(2), "a");
    assert_eq!(clip(3), "aé");
    assert_eq!(clip(5), "aé");
    assert_eq!(clip(6), "aé€");
    assert_eq!(clip(9), "aé€");
    assert_eq!(clip(10), "aé€😀");
}

#[test]
fn decimal_numbers() {
    for n in [0u64, 9, 10, 123, u64::MAX] {
        assert_eq!(decimal_of(n), n.to_string());
        assert_eq!(u64_of(&n.to_string()), Some(n));
    }
    for s in ["", "+", "-1", "1x", " 1", "18446744073709551616", "+5", "007"] {
        assert_eq!(u64_of(s), s.parse::<u64>().ok(), "{s:?}");
    }
}
