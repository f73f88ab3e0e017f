use version_number::Tokens;

fn all_tokens(text: &str) -> Vec<String> {
    let mut tokens = Tokens::split(text);
    let mut out = Vec::new();
    loop {
        match tokens.next() {
            Some(token) => out.push(token.to_owned()),
            None => return out,
        }
    }
}

#[test]
fn tokens_of_a_dotted_text() {
    assert_eq!(all_tokens("1.2.3"), vec!["1", "2", "3"]);
    assert_eq!(all_tokens("10.20.30.40.50"), vec!["10", "20", "30", "40", "50"]);
}

#[test]
fn tokens_of_a_text_without_dots() {
    assert_eq!(all_tokens("123"), vec!["123"]);
}

#[test]
fn the_empty_text_has_one_empty_token() {
    assert_eq!(all_tokens(""), vec![""]);
    assert_eq!(Tokens::split("").count(), 1);
}

#[test]
fn neighbouring_dots_give_empty_tokens() {
    assert_eq!(all_tokens("1..2"), vec!["1", "", "2"]);
    assert_eq!(all_tokens("."), vec!["", ""]);
    assert_eq!(all_tokens(".1"), vec!["", "1"]);
    assert_eq!(all_tokens("1."), vec!["1", ""]);
    assert_eq!(all_tokens("..."), vec!["", "", "", ""]);
}

#[test]
fn tokens_keep_characters_of_several_bytes() {
    assert_eq!(all_tokens("é.ü.日本"), vec!["é", "ü", "日本"]);
    assert_eq!(Tokens::split("é.ü.日本").count(), 3);
}

#[test]
fn tokens_agree_with_the_standard_split() {
    let texts = ["", ".", "1", "1.2", "1.2.3", "1.2.3.4", "a..b", "..", "x.y.z.", ".x", "é.1.ü.2"];
    for text in texts {
        let expected: Vec<String> = text.split('.').map(|t| t.to_owned()).collect();
        assert_eq!(all_tokens(text), expected, "text {:?}", text);
        assert_eq!(Tokens::split(text).count(), text.split('.').count(), "text {:?}", text);
    }
}

#[test]
fn next_after_the_last_token_stays_none() {
    let mut tokens = Tokens::split("7");
    assert_eq!(tokens.next(), Some("7"));
    assert_eq!(tokens.next(), None);
    assert_eq!(tokens.next(), None);
    assert_eq!(tokens.count(), 0);
}

#[test]
fn count_tells_the_tokens_that_are_left() {
    let mut tokens = Tokens::split("1.2.3.4");
    assert_eq!(tokens.count(), 4);
    tokens.next();
    assert_eq!(tokens.count(), 3);
    tokens.next();
    tokens.next();
    assert_eq!(tokens.count(), 1);
    tokens.next();
    assert_eq!(tokens.count(), 0);
}
