use sga::stdlib::{
    int_pow, parse_int, range_between, range_to, str_contains, str_ends_with, str_lower, str_replace, str_split,
    str_starts_with, str_trim, str_upper,
};

const TEXTS: [&str; 9] = ["", "a", "abc", "a,b,,c", "aaa", ",x,", "héllo wörld", "  ", "abab"];
const PATTERNS: [&str; 7] = ["", ",", "a", "aa", "b", "xyz", "ö"];

#[test]
fn split_agrees_with_str_split() {
    for s in TEXTS {
        for sep in PATTERNS {
            let expected: Vec<String> = s.split(sep).map(String::from).collect();
            assert_eq!(str_split(s, sep), expected, "split({:?}, {:?})", s, sep);
        }
    }
    assert_eq!(str_split("rust", ""), vec!["", "r", "u", "s", "t", ""]);
    assert_eq!(str_split("a,b,,c", ","), vec!["a", "b", "", "c"]);
}

#[test]
fn replace_agrees_with_str_replace() {
    for s in TEXTS {
        for from in PATTERNS {
            assert_eq!(str_replace(s, from, "<>"), s.replace(from, "<>"), "replace({:?}, {:?})", s, from);
        }
    }
    assert_eq!(str_replace("abc", "", "x"), "xaxbxcx");
    assert_eq!(str_replace("aaa", "aa", "b"), "ba");
}

#[test]
fn search_agrees_with_str_methods() {
    for s in TEXTS {
        for p in PATTERNS {
            assert_eq!(str_contains(s, p), s.contains(p), "contains({:?}, {:?})", s, p);
            assert_eq!(str_starts_with(s, p), s.starts_with(p), "starts_with({:?}, {:?})", s, p);
            assert_eq!(str_ends_with(s, p), s.ends_with(p), "ends_with({:?}, {:?})", s, p);
        }
    }
}

#[test]
fn trim_removes_unicode_whitespace() {
    for s in ["", "  ", " a b ", "\t\n x \r", "\u{3000}y\u{85}", "\u{a0}\u{2009}z\u{202f}", "\u{200b}w"] {
        assert_eq!(str_trim(s), s.trim(), "trim({:?})", s);
    }
}

#[test]
fn parse_int_agrees_with_i64_from_str() {
    for s in [
        "0", " 42 ", "+5", "-0", "-17", "9223372036854775807", "-9223372036854775808", "9223372036854775808",
        "-9223372036854775809", "", "+", "-", "1_0", "12a", " 1 2", "00012", "\u{3000}7\u{3000}",
    ] {
        assert_eq!(parse_int(s), s.trim().parse::<i64>().ok(), "parse_int({:?})", s);
    }
}

#[test]
fn int_pow_agrees_with_checked_pow() {
    for base in -6i64..=6 {
        for exp in 0i64..=70 {
            match base.checked_pow(exp as u32) {
                Some(v) => assert_eq!(int_pow(base, exp), Ok(v), "pow({}, {})", base, exp),
                None => assert_eq!(int_pow(base, exp), Err(format!("переполнение int в pow({}, {})", base, exp))),
            }
        }
    }
    assert_eq!(int_pow(-2, 63), Ok(i64::MIN));
    assert_eq!(int_pow(1, 4_000_000_000), Ok(1));
    assert_eq!(int_pow(-1, 4_000_000_001), Ok(-1));
    assert_eq!(
        int_pow(2, -1),
        Err("pow() с целым отрицательным экспонентом не поддерживается; используйте to_float() для обоих аргументов"
            .to_string())
    );
    assert_eq!(int_pow(2, 4_294_967_296), Err("pow() экспонента 4294967296 слишком велика".to_string()));
}

#[test]
fn ranges_and_their_limits() {
    assert_eq!(range_to(4), Ok(vec![0, 1, 2, 3]));
    assert_eq!(range_to(0), Ok(vec![]));
    assert_eq!(range_to(-3), Err("range() получил отрицательный конец: -3".to_string()));
    assert_eq!(range_to(10_000_001), Err("range(10000001) превышает максимальный размер 10000000".to_string()));
    assert_eq!(range_between(-2, 2), Ok(vec![-2, -1, 0, 1]));
    assert_eq!(range_between(5, 5), Ok(vec![]));
    assert_eq!(range_between(7, 3), Ok(vec![]));
    assert_eq!(
        range_between(-1, 10_000_000),
        Err("range(-1, 10000000) превышает максимальный размер 10000000".to_string())
    );
    assert_eq!(range_between(0, 10_000_000).map(|v| v.len()), Ok(10_000_000));
    assert_eq!(
        range_between(i64::MIN, i64::MAX),
        Err("range(-9223372036854775808, 9223372036854775807) превышает максимальный размер 10000000".to_string())
    );
}

#[test]
fn test_stdlib_range() {
    assert_eq!(range_to(3), Ok(vec![0, 1, 2]));
    assert_eq!(range_between(2, 5), Ok(vec![2, 3, 4]));
}

#[test]
fn test_stdlib_pow_checked() {
    assert_eq!(int_pow(2, 10), Ok(1024));
    assert!(int_pow(2, -1).is_err());
}

#[test]
fn test_stdlib_str_functions() {
    assert_eq!(str_upper("abc"), "ABC");
    assert_eq!(str_lower("ABC"), "abc");
    assert_eq!(str_trim("  hi  "), "hi");
    assert!(str_starts_with("hello", "he"));
    assert!(str_ends_with("hello", "lo"));
    assert_eq!(str_replace("foo bar", "bar", "baz"), "foo baz");
}

#[test]
fn test_stdlib_str_split_and_contains() {
    assert_eq!(str_split("a,b,c", ","), vec!["a", "b", "c"]);
    assert!(str_contains("hello world", "wor"));
}

#[test]
fn case_mapping_follows_unicode() {
    assert_eq!(str_upper("straße ǆ"), "STRASSE Ǆ");
    assert_eq!(str_lower("ΣΑΣ"), "σας");
}
