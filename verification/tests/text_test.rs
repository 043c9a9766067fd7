use backend::text::{
    chars_of, decimal_string, is_white_space_char, split_chars, split_lines, string_of, trim_chars,
    strip_leading_chars,
};

fn s(v: &Vec<char>) -> String {
    v.iter().collect()
}

const SAMPLES: &[&str] = &[
    "",
    "a",
    "\n",
    "a\n",
    "a\nb",
    "a\r\nb\r\n",
    "a\r",
    "\r\n\r\n",
    "x\n\ny\n\n",
    "  padded \t",
    "\u{3000}\u{a0}wide\u{2003}\u{85}",
    "a,b,,c,",
    ",",
    "--- dashes -",
    "ünïcödé, 日本語\n第二行",
];

#[test]
fn whitespace_matches_std_for_every_char() {
    for u in 0u32..=0x10FFFF {
        if let Some(c) = char::from_u32(u) {
            assert_eq!(is_white_space_char(c), c.is_whitespace(), "char {:x}", u);
        }
    }
}

#[test]
fn trim_matches_std() {
    for t in SAMPLES {
        assert_eq!(s(&trim_chars(&chars_of(t))), t.trim());
    }
}

#[test]
fn lines_match_std() {
    for t in SAMPLES {
        let got: Vec<String> = split_lines(&chars_of(t)).iter().map(s).collect();
        let want: Vec<String> = t.lines().map(|l| l.to_string()).collect();
        assert_eq!(got, want, "input {:?}", t);
    }
}

#[test]
fn split_matches_std() {
    for t in SAMPLES {
        let got: Vec<String> = split_chars(&chars_of(t), ',').iter().map(s).collect();
        let want: Vec<String> = t.split(',').map(|l| l.to_string()).collect();
        assert_eq!(got, want, "input {:?}", t);
    }
}

#[test]
fn strip_leading_matches_std() {
    for t in SAMPLES {
        assert_eq!(s(&strip_leading_chars(&chars_of(t), '-')), t.trim_start_matches('-'));
    }
}

#[test]
fn chars_round_trip() {
    for t in SAMPLES {
        assert_eq!(string_of(&chars_of(t)), *t);
    }
}

#[test]
fn decimal_numerals() {
    for n in [0u64, 1, 9, 10, 11, 99, 100, 12345, u64::MAX] {
        assert_eq!(decimal_string(n), n.to_string());
    }
}
