use heraclitus_compiler::prelude::{Compiler, Region, Rules};

fn words_of(compiler: &Compiler) -> Vec<(String, usize, usize)> {
    let res = compiler.tokenize();
    assert!(res.is_ok());
    res.unwrap().into_iter().map(|lex| (lex.word, lex.pos.0, lex.pos.1)).collect()
}

#[test]
fn test_lexer_base() {
    let symbols = vec!['(', ')'];
    let regions = Region::new_global(vec![Region::new(
        "string",
        "String literal",
        "'",
        "'",
        vec![Region::new("array", "Array Literal", "[", "]", vec![], None)],
        None,
    )]);
    let expected = vec![
        ("let".to_string(), 1, 1),
        ("a".to_string(), 1, 5),
        ("=".to_string(), 1, 7),
        ("(".to_string(), 1, 9),
        ("12".to_string(), 1, 10),
        ("+".to_string(), 1, 13),
        ("32".to_string(), 1, 15),
        (")".to_string(), 1, 17),
    ];
    let rules = Rules::new(symbols, vec![], regions);
    let mut cc: Compiler = Compiler::new("TestScript", rules);
    cc.load("let a = (12 + 32)");
    assert_eq!(expected, words_of(&cc));
}

#[test]
fn test_lexer_string_interp() {
    let symbols = vec!['(', ')'];
    let mut interp = Region::new(
        "string_interp",
        "String interpolation",
        "{",
        "}",
        vec![],
        Some("global"),
    );
    interp.tokenize = true;
    let regions = Region::new_global(vec![Region::new(
        "string_literal",
        "String literal",
        "'",
        "'",
        vec![interp],
        None,
    )]);
    let expected = vec![
        ("let".to_string(), 1, 1),
        ("a".to_string(), 1, 5),
        ("=".to_string(), 1, 7),
        ("'this ".to_string(), 1, 9),
        ("{".to_string(), 1, 15),
        ("'is ".to_string(), 1, 16),
        ("{".to_string(), 1, 20),
        ("adjective".to_string(), 1, 21),
        ("}".to_string(), 1, 30),
        (" long'".to_string(), 1, 31),
        ("}".to_string(), 1, 37),
        (" text'".to_string(), 1, 38),
    ];
    let rules = Rules::new(symbols, vec![], regions);
    let mut cc: Compiler = Compiler::new("TestScript", rules);
    cc.load("let a = 'this {'is {adjective} long'} text'");
    assert_eq!(expected, words_of(&cc));
}

#[test]
fn test_lexer_indent_scoping_mode() {
    let symbols = vec![':'];
    let regions = Region::new_global(vec![]);
    let expected = vec![
        ("if".to_string(), 1, 1),
        ("condition".to_string(), 1, 4),
        (":".to_string(), 1, 13),
        ("\n    ".to_string(), 2, 1),
        ("if".to_string(), 2, 5),
        ("subcondition".to_string(), 2, 8),
        (":".to_string(), 2, 20),
        ("\n        ".to_string(), 3, 1),
        ("pass".to_string(), 3, 9),
    ];
    let rules = Rules::new(symbols, vec![], regions);
    let mut cc: Compiler = Compiler::new("Testhon", rules);
    cc.use_indents();
    cc.load(&vec!["if condition:", "    if subcondition:", "        pass"].join("\n"));
    assert_eq!(expected, words_of(&cc));
}

#[test]
fn test_lexer_manual_separator_mode() {
    let symbols = vec![';', '+', '='];
    let regions = Region::new_global(vec![]);
    let expected = vec![
        ("let".to_string(), 1, 1),
        ("age".to_string(), 1, 5),
        ("=".to_string(), 1, 9),
        ("12".to_string(), 1, 11),
        ("+".to_string(), 2, 1),
        ("12".to_string(), 3, 1),
        (";".to_string(), 3, 3),
    ];
    let rules = Rules::new(symbols, vec![], regions);
    let mut cc: Compiler = Compiler::new("Testhon", rules);
    cc.load(&vec!["let age = 12", "+", "12;"].join("\n"));
    assert_eq!(expected, words_of(&cc));
}
