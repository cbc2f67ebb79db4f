use launcher::text::{is_whitespace, chars_of, decimal_exec, parse_unsigned_exec, replace_all_exec, split_on_exec, string_of, trim_exec};

#[test]
fn trimming_agrees_with_str_trim() {
    let samples = ["", " ", "a", " a ", "\u{a0}x\u{2003}", "\t\n a b \r\n", "\u{85}y\u{200b}", "é "];
    for s in samples {
        let t = trim_exec(&chars_of(s));
        assert_eq!(string_of(&t), s.trim(), "on {:?}", s);
    }
}

#[test]
fn replacing_agrees_with_str_replace() {
    let samples = [("aaaa", "aa", "b"), ("abcabc", "bc", ""), ("$ii$i", "$i", "7"), ("", "x", "y"), ("xyz", "q", "r")];
    for (s, p, r) in samples {
        let out = replace_all_exec(&chars_of(s), &chars_of(p), &chars_of(r));
        assert_eq!(string_of(&out), s.replace(p, r), "on {:?}", s);
    }
}

#[test]
fn splitting_agrees_with_str_split() {
    for s in ["", ";", "a;b", ";a;;b;", "abc"] {
        let pieces: Vec<String> = split_on_exec(&chars_of(s), ';').iter().map(|p| string_of(p)).collect();
        let expected: Vec<String> = s.split(';').map(|p| p.to_string()).collect();
        assert_eq!(pieces, expected, "on {:?}", s);
    }
}

#[test]
fn numerals_agree_with_to_string_and_parse() {
    for n in [0u64, 7, 10, 99, 100, 463939057, u64::MAX] {
        assert_eq!(string_of(&decimal_exec(n)), n.to_string());
    }
    for s in ["0", "+1", "18446744073709551615", "18446744073709551616", "", "+", "-1", "1a", "00012"] {
        assert_eq!(parse_unsigned_exec(&chars_of(s), u64::MAX), s.parse::<u64>().ok(), "on {:?}", s);
    }
}

#[test]
fn whitespace_is_that_of_std_and_of_the_pattern() {
    let re = regex::Regex::new(r"^\s$").unwrap();
    let mut buf = [0u8; 4];
    for code in 0..=0x10ffffu32 {
        if let Some(c) = char::from_u32(code) {
            assert_eq!(is_whitespace(c), c.is_whitespace(), "on U+{:04X}", code);
            assert_eq!(is_whitespace(c), re.is_match(c.encode_utf8(&mut buf)), "on U+{:04X}", code);
        }
    }
}
