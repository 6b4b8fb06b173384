use sga::sga_alphabet::encode_word;
use sga::translit::translit;

#[test]
fn translit_replaces_keywords_in_any_case() {
    let out = translit("let x = 1; Fn f() { RETURN x; }");
    let expected = format!(
        "{} x = 1; {} f() {{ {} x; }}",
        encode_word("LET"),
        encode_word("FN"),
        encode_word("RETURN")
    );
    assert_eq!(out, expected);
}

#[test]
fn translit_keeps_strings_comments_and_other_words() {
    let src = "print(\"let \\\" if\"); // while let\nletter = x1let + _if;";
    let expected = format!(
        "{}(\"let \\\" if\"); // while let\nletter = x1let + _if;",
        encode_word("PRINT")
    );
    assert_eq!(translit(src), expected);
}

#[test]
fn translit_unclosed_string_and_trailing_backslash() {
    assert_eq!(translit("if \"abc\\"), format!("{} \"abc\\", encode_word("IF")));
    assert_eq!(translit("\"let"), "\"let");
}

#[test]
fn translit_words_next_to_digits_and_symbols() {
    let out = translit("1while(2)/x/ /y");
    assert_eq!(out, format!("1{}(2)/x/ /y", encode_word("WHILE")));
    assert_eq!(translit(""), "");
    assert_eq!(translit("match"), encode_word("MATCH"));
}
