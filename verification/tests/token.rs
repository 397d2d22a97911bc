use heraclitus_compiler::compiling::Token;

#[test]
fn token_display_token() {
    let mut token = Token { word: String::from("keyword"), pos: (1, 2), start: 0 };
    assert_eq!(token.format(), String::from("Tok[keyword 1:2]"));
    token.word = String::from("[");
    assert_eq!(token.format(), String::from("Tok[<symbol: [ > 1:2]"));
}

#[test]
fn token_format_spells_out_whitespace() {
    let mut token = Token { word: String::from("\n"), pos: (10, 215), start: 0 };
    assert_eq!(token.format(), "Tok[<new_line> 10:215]");
    token.word = String::from("\t");
    assert_eq!(token.format(), "Tok[<tab> 10:215]");
    token.word = String::from(" ");
    assert_eq!(token.format(), "Tok[<space> 10:215]");
    token.word = String::from(";");
    assert_eq!(token.format(), "Tok[<symbol: ; > 10:215]");
    token.word = String::from("+");
    token.pos = (0, 1000);
    assert_eq!(token.format(), "Tok[+ 0:1000]");
    token.word = String::from("[]");
    assert_eq!(token.format(), "Tok[[] 0:1000]");
    assert_eq!(token.clone(), token);
    assert_eq!(Token::default().word, "");
}

#[test]
fn display_token() {
    let mut token = Token { word: String::from("keyword"), pos: (1, 2), start: 0 };
    assert_eq!(format!("{}", token.format()), String::from("Tok[keyword 1:2]"));
    token.word = String::from("[");
    assert_eq!(format!("{}", token.format()), String::from("Tok[<symbol: [ > 1:2]"));
}
