use heraclitus_compiler::compiling::lexing::Lexer;
use heraclitus_compiler::compiling::lexing::LexerErrorType;
use heraclitus_compiler::compiling::failing::position_info::Position;
use heraclitus_compiler::compiling::{ScopingMode, SeparatorMode};
use heraclitus_compiler::compiling_rules::{Region, Rules};

fn region(id: &str, name: &str, begin: &str, end: &str, interp: Vec<Region>) -> Region {
    Region::new(id, name, begin, end, interp, None)
}

#[test]
fn lexer_test_lexer_base() {
    let symbols = vec!['(', ')'];
    let regions = Region::new_global(vec![region(
        "string",
        "String literal",
        "'",
        "'",
        vec![region("array", "Array Literal", "[", "]", vec![])],
    )]);
    let expected = vec![
        ("let".to_string(), 1, 1),
        ("a".to_string(), 1, 5),
        ("=".to_string(), 1, 7),
        ("(".to_string(), 1, 9),
        ("12".to_string(), 1, 10),
        ("+".to_string(), 1, 13),
        ("32".to_string(), 1, 15),
        (")".to_string(), 1, 17),
    ];
    let rules = Rules::new(symbols, vec![], regions);
    let lexer = Lexer::new(rules);
    let mut result = vec![];
    let res = lexer.tokenize("let a = (12 + 32)");
    assert!(res.is_ok());
    for lex in res.unwrap() {
        result.push((lex.word, lex.pos.0, lex.pos.1));
    }
    assert_eq!(expected, result);
}

#[test]
fn lexer_test_lexer_string_interp() {
    let symbols = vec!['(', ')'];
    let mut interp = Region::new(
        "string_interp",
        "String interpolation",
        "{",
        "}",
        vec![],
        Some("global"),
    );
    interp.tokenize = true;
    let regions = Region::new_global(vec![region(
        "string_literal",
        "String literal",
        "'",
        "'",
        vec![interp],
    )]);
    let expected = vec![
        ("let".to_string(), 1, 1),
        ("a".to_string(), 1, 5),
        ("=".to_string(), 1, 7),
        ("'this ".to_string(), 1, 9),
        ("{".to_string(), 1, 15),
        ("'is ".to_string(), 1, 16),
        ("{".to_string(), 1, 20),
        ("adjective".to_string(), 1, 21),
        ("}".to_string(), 1, 30),
        (" long'".to_string(), 1, 31),
        ("}".to_string(), 1, 37),
        (" 🎉 text'".to_string(), 1, 38),
    ];
    let rules = Rules::new(symbols, vec![], regions);
    let lexer = Lexer::new(rules);
    let mut result = vec![];
    let res = lexer.tokenize("let a = 'this {'is {adjective} long'} 🎉 text'");
    assert!(res.is_ok());
    for lex in res.unwrap() {
        result.push((lex.word, lex.pos.0, lex.pos.1));
    }
    assert_eq!(expected, result);
}

#[test]
fn lexer_test_lexer_indent_scoping_mode() {
    let symbols = vec![':'];
    let regions = Region::new_global(vec![]);
    let expected = vec![
        ("if".to_string(), (1, 1), 0),
        ("condition".to_string(), (1, 4), 3),
        (":".to_string(), (1, 13), 12),
        ("\n    ".to_string(), (2, 1), 13),
        ("if".to_string(), (2, 5), 18),
        ("subcondition".to_string(), (2, 8), 21),
        (":".to_string(), (2, 20), 33),
        ("\n        ".to_string(), (3, 1), 34),
        ("pass".to_string(), (3, 9), 43),
    ];
    let rules = Rules::new(symbols, vec![], regions);
    let mut lexer = Lexer::new(rules);
    lexer.scoping_mode = ScopingMode::Indent;
    let mut result = vec![];
    let res = lexer
        .tokenize(&vec!["if condition:", "    if subcondition:", "        pass"].join("\n"));
    assert!(res.is_ok());
    for lex in res.unwrap() {
        result.push((lex.word, (lex.pos.0, lex.pos.1), lex.start));
    }
    assert_eq!(expected, result);
}

#[test]
fn lexer_test_lexer_manual_separator_mode() {
    let symbols = vec![';', '+', '='];
    let regions = Region::new_global(vec![]);
    let expected = vec![
        ("let".to_string(), 1, 1),
        ("age".to_string(), 1, 5),
        ("=".to_string(), 1, 9),
        ("12".to_string(), 1, 11),
        ("+".to_string(), 2, 1),
        ("12".to_string(), 3, 1),
        (";".to_string(), 3, 3),
    ];
    let rules = Rules::new(symbols, vec![], regions);
    let lexer = Lexer::new(rules);
    let mut result = vec![];
    let res = lexer.tokenize(&vec!["let age = 12", "+", "12;"].join("\n"));
    assert!(res.is_ok());
    for lex in res.unwrap() {
        result.push((lex.word, lex.pos.0, lex.pos.1));
    }
    assert_eq!(expected, result);
}

#[test]
fn test_lexer_multiline_regions() {
    let symbols = vec![';', '+', '='];
    let regions = Region::new_global(vec![region("string", "String", "'", "'", vec![])]);
    let expected = vec![("'this\nis\na\nmultiline\nstring'".to_string(), 1, 1)];
    let rules = Rules::new(symbols, vec![], regions);
    let lexer = Lexer::new(rules);
    let mut result = vec![];
    let res = lexer.tokenize(&vec!["'this", "is", "a", "multiline", "string'"].join("\n"));
    assert!(res.is_ok());
    for lex in res.unwrap() {
        result.push((lex.word, lex.pos.0, lex.pos.1));
    }
    assert_eq!(expected, result);
}

#[test]
fn test_lexer_escaped_regions() {
    let symbols = vec![';', '+', '='];
    let regions = Region::new_global(vec![region("string", "String", "\"", "\"", vec![])]);
    let expected = vec![("\"this is \\\"escaped\\\" string\"".to_string(), 1, 1)];
    let rules = Rules::new(symbols, vec![], regions);
    let lexer = Lexer::new(rules);
    let mut result = vec![];
    let res = lexer.tokenize(&vec!["\"this is \\\"escaped\\\" string\""].join("\n"));
    assert!(res.is_ok());
    for lex in res.unwrap() {
        result.push((lex.word, lex.pos.0, lex.pos.1));
    }
    assert_eq!(expected, result);
}

#[test]
fn line_feed_closes_a_region_that_ends_with_it() {
    let mut comment = region("comment", "Comment", "//", "\n", vec![]);
    comment.singleline = true;
    let rules = Rules::new(vec![], vec![], Region::new_global(vec![comment]));
    let mut lexer = Lexer::new(rules);
    lexer.separator_mode = SeparatorMode::SemiAutomatic(";".to_string());
    let tokens = lexer.tokenize("// oops\nok").unwrap();
    let words: Vec<(String, usize)> = tokens.iter().map(|t| (t.word.clone(), t.start)).collect();
    assert_eq!(
        words,
        vec![("// oops\n".to_string(), 0), ("\n".to_string(), 7), ("ok".to_string(), 8)]
    );
}

#[test]
fn lexer_reports_singleline_violation() {
    let mut comment = region("comment", "Line comment", "//", "*/", vec![]);
    comment.singleline = true;
    let rules = Rules::new(vec![], vec![], Region::new_global(vec![comment]));
    let mut lexer = Lexer::new(rules);
    lexer.path = Some("file.txt".to_string());
    let (kind, info) = lexer.tokenize("x // oops\nok").unwrap_err();
    assert_eq!(kind, LexerErrorType::Singleline);
    assert_eq!(info.position, Position::Pos(1, 10));
    assert_eq!(info.len, 0);
    assert_eq!(info.data, Some("Line comment".to_string()));
    assert_eq!(info.path, Some("file.txt".to_string()));
}

#[test]
fn lexer_reports_unclosed_region() {
    let rules = Rules::new(
        vec![],
        vec![],
        Region::new_global(vec![region("string", "String", "'", "'", vec![])]),
    );
    let lexer = Lexer::new(rules);
    let (kind, info) = lexer.tokenize("'abc").unwrap_err();
    assert_eq!(kind, LexerErrorType::Unclosed);
    assert_eq!(info.position, Position::Pos(1, 5));
    assert_eq!(info.len, 0);
    assert_eq!(info.data, Some("String".to_string()));
    assert_eq!(info.path, None);
}

fn position_of(code: &str, index: usize) -> (usize, usize) {
    let mut row = 1;
    let mut col = 1;
    for letter in code.chars().take(index) {
        if letter == '\n' {
            row += 1;
            col = 1;
        } else {
            col += 1;
        }
    }
    (row, col)
}

fn sample_lexer() -> Lexer {
    let mut interp = Region::new("interp", "Interpolation", "{", "}", vec![], Some("global"));
    interp.tokenize = true;
    let string = region("string", "String", "'", "'", vec![interp]);
    let mut comment = region("comment", "Comment", "//", "\n", vec![]);
    comment.allow_unclosed = true;
    let rules = Rules::new(
        vec!['(', ')', '+', '=', '<', '>', ';'],
        vec![('<', '='), ('=', '>'), ('+', '+')],
        Region::new_global(vec![string, comment]),
    );
    Lexer::new(rules)
}

const SAMPLES: [&str; 6] = [
    "let a = (12 + 32)",
    "x <=> y ++ 'text {a + 'b'} more' ;",
    "a\n  b // note\n\tc\n",
    "  \n\n 'multi\nline' (ñandú)=>🎉",
    "one;two // rest",
    "",
];

#[test]
fn tokens_are_pieces_of_the_text_in_order() {
    for indent in [false, true] {
        for manual in [false, true] {
            let mut lexer = sample_lexer();
            if indent {
                lexer.scoping_mode = ScopingMode::Indent;
            }
            if !manual {
                lexer.separator_mode = SeparatorMode::Automatic("\\".to_string());
            }
            for code in SAMPLES {
                let letters: Vec<char> = code.chars().collect();
                let tokens = lexer.tokenize(code).unwrap();
                for token in tokens.iter() {
                    let word: Vec<char> = token.word.chars().collect();
                    assert!(!word.is_empty());
                    assert_eq!(word[..], letters[token.start..token.start + word.len()]);
                }
                for pair in tokens.windows(2) {
                    let end = pair[0].start + pair[0].word.chars().count();
                    let shared = pair[0].word.ends_with('\n') && pair[1].word.starts_with('\n');
                    if shared {
                        assert!(end <= pair[1].start + 1);
                    } else {
                        assert!(end <= pair[1].start);
                    }
                    assert!(pair[0].start <= pair[1].start);
                }
            }
        }
    }
}

#[test]
fn tokens_point_at_their_first_letter() {
    for indent in [false, true] {
        for manual in [false, true] {
            let mut lexer = sample_lexer();
            if indent {
                lexer.scoping_mode = ScopingMode::Indent;
            }
            if !manual {
                lexer.separator_mode = SeparatorMode::SemiAutomatic(";".to_string());
            }
            for code in SAMPLES {
                let tokens = lexer.tokenize(code).unwrap();
                for token in tokens.iter() {
                    let first = position_of(code, token.start);
                    let last = position_of(code, token.start + token.word.chars().count() - 1);
                    let indentation = indent && token.pos == (last.0, 1);
                    assert!(token.pos == first || indentation);
                    if !indent {
                        assert_eq!(token.pos, first);
                    }
                    assert!(token.pos.0 >= 1 && token.pos.1 >= 1);
                }
            }
        }
    }
}

#[test]
fn a_region_that_follows_a_word_points_at_its_first_letter() {
    let lexer = sample_lexer();
    let tokens = lexer.tokenize("abc'str'").unwrap();
    let result: Vec<(String, (usize, usize), usize)> =
        tokens.into_iter().map(|t| (t.word, t.pos, t.start)).collect();
    assert_eq!(
        result,
        vec![("abc".to_string(), (1, 1), 0), ("'str'".to_string(), (1, 4), 3)]
    );
}

#[test]
fn a_compound_that_follows_a_word_points_at_its_first_letter() {
    let rules = Rules::new(
        vec!['<', '=', '>'],
        vec![('<', '='), ('=', '>')],
        Region::new_global(vec![]),
    );
    let lexer = Lexer::new(rules);
    let result: Vec<(String, (usize, usize))> =
        lexer.tokenize("!<=><=").unwrap().into_iter().map(|t| (t.word, t.pos)).collect();
    assert_eq!(
        result,
        vec![
            ("!".to_string(), (1, 1)),
            ("<=>".to_string(), (1, 2)),
            ("<=".to_string(), (1, 5)),
        ]
    );
    let result: Vec<(String, (usize, usize))> =
        lexer.tokenize("a<=\nb=>c").unwrap().into_iter().map(|t| (t.word, t.pos)).collect();
    assert_eq!(
        result,
        vec![
            ("a".to_string(), (1, 1)),
            ("<=".to_string(), (1, 2)),
            ("b".to_string(), (2, 1)),
            ("=>".to_string(), (2, 2)),
            ("c".to_string(), (2, 4)),
        ]
    );
}

#[test]
fn a_line_feed_after_an_interpolation_points_at_itself() {
    let lexer = sample_lexer();
    let result: Vec<(String, (usize, usize))> =
        lexer.tokenize("'{a}\nrest'").unwrap().into_iter().map(|t| (t.word, t.pos)).collect();
    assert_eq!(
        result,
        vec![
            ("'".to_string(), (1, 1)),
            ("{".to_string(), (1, 2)),
            ("a".to_string(), (1, 3)),
            ("}".to_string(), (1, 4)),
            ("\nrest'".to_string(), (1, 5)),
        ]
    );
}

#[test]
fn a_global_root_passes_at_the_end() {
    let mut root = Region::new_global(vec![region("string", "String", "'", "'", vec![])]);
    root.allow_unclosed = false;
    let lexer = Lexer::new(Rules::new(vec![], vec![], root));
    assert_eq!(lexer.tokenize("").unwrap().len(), 0);
    assert_eq!(lexer.tokenize("a b").unwrap().len(), 2);
    let (kind, _) = lexer.tokenize("a 'b").unwrap_err();
    assert_eq!(kind, LexerErrorType::Unclosed);
}

#[test]
fn tokens_lie_apart_where_no_region_ends_at_a_line_feed() {
    let rules = Rules::new(
        vec!['(', ')'],
        vec![],
        Region::new_global(vec![region("string", "String", "'", "'", vec![])]),
    );
    let mut lexer = Lexer::new(rules);
    lexer.separator_mode = SeparatorMode::Automatic("\\".to_string());
    for code in ["a\n\nb", "(a)\n 'x\n\ny'\n\n", "\n"] {
        let tokens = lexer.tokenize(code).unwrap();
        for pair in tokens.windows(2) {
            assert!(pair[0].start + pair[0].word.chars().count() <= pair[1].start);
        }
    }
}

#[test]
fn an_escaped_escape_does_not_escape() {
    let rules = Rules::new(
        vec![],
        vec![],
        Region::new_global(vec![region("string", "String", "\"", "\"", vec![])]),
    );
    let lexer = Lexer::new(rules);
    let tokens = lexer.tokenize("\"a\\\\\" b").unwrap();
    let words: Vec<String> = tokens.into_iter().map(|t| t.word).collect();
    assert_eq!(words, vec!["\"a\\\\\"".to_string(), "b".to_string()]);
    // A single escape keeps the quote from closing the region.
    let (kind, _) = lexer.tokenize("\"a\\\" b").unwrap_err();
    assert_eq!(kind, LexerErrorType::Unclosed);
}

#[test]
fn the_configured_escape_is_used() {
    let rules = Rules::new(
        vec![],
        vec![],
        Region::new_global(vec![region("string", "String", "'", "'", vec![])]),
    )
    .set_escape('^');
    let lexer = Lexer::new(rules);
    assert_eq!(lexer.escape_symbol, '^');
    let words: Vec<String> =
        lexer.tokenize("'a^'b' c\\").unwrap().into_iter().map(|t| t.word).collect();
    assert_eq!(words, vec!["'a^'b'".to_string(), "c\\".to_string()]);
}

#[test]
fn a_region_left_open_by_permission() {
    let lexer = sample_lexer();
    let words: Vec<String> =
        lexer.tokenize("a // rest").unwrap().into_iter().map(|t| t.word).collect();
    assert_eq!(words, vec!["a".to_string(), "// rest".to_string()]);
}

#[test]
fn tabs_indent_too() {
    let mut lexer = sample_lexer();
    lexer.scoping_mode = ScopingMode::Indent;
    let result: Vec<(String, (usize, usize), usize)> = lexer
        .tokenize("a\n\t b\nc")
        .unwrap()
        .into_iter()
        .map(|t| (t.word, t.pos, t.start))
        .collect();
    assert_eq!(
        result,
        vec![
            ("a".to_string(), (1, 1), 0),
            ("\n\t ".to_string(), (2, 1), 1),
            ("b".to_string(), (2, 3), 4),
            ("\n".to_string(), (2, 1), 5),
            ("c".to_string(), (3, 1), 6),
        ]
    );
}

#[test]
fn a_region_that_begins_with_a_blank_cuts_indentation_short() {
    let mut block = region("block", "Block", " {", "}", vec![]);
    block.tokenize = true;
    block.allow_unclosed = true;
    let rules = Rules::new(vec![], vec![], Region::new_global(vec![block]));
    let mut lexer = Lexer::new(rules);
    lexer.scoping_mode = ScopingMode::Indent;
    let result: Vec<(String, (usize, usize), usize)> = lexer
        .tokenize("\n {y")
        .unwrap()
        .into_iter()
        .map(|t| (t.word, t.pos, t.start))
        .collect();
    // The brace is read as part of the run of indentation and dropped.
    assert_eq!(
        result,
        vec![
            ("\n".to_string(), (1, 1), 0),
            (" ".to_string(), (2, 1), 1),
            ("y".to_string(), (2, 3), 3),
        ]
    );
}

#[test]
fn nothing_but_white_space_is_dropped() {
    for indent in [false, true] {
        for manual in [false, true] {
            let mut lexer = sample_lexer();
            if indent {
                lexer.scoping_mode = ScopingMode::Indent;
            }
            if !manual {
                lexer.separator_mode = SeparatorMode::Automatic("\\".to_string());
            }
            for code in SAMPLES {
                let tokens = lexer.tokenize(code).unwrap();
                for (index, letter) in code.chars().enumerate() {
                    if letter == ' ' || letter == '\t' || letter == '\n' {
                        continue;
                    }
                    let covered = tokens
                        .iter()
                        .any(|t| t.start <= index && index < t.start + t.word.chars().count());
                    assert!(covered, "{:?} at {} of {:?}", letter, index, code);
                }
            }
        }
    }
}

#[test]
fn an_opaque_region_with_an_empty_begin_shares_a_line_feed() {
    let mut rest = region("rest", "Rest", "", "}", vec![]);
    rest.allow_unclosed = true;
    let rules = Rules::new(vec![], vec![], Region::new_global(vec![rest]));
    let lexer = Lexer::new(rules);
    let result: Vec<(String, (usize, usize), usize)> = lexer
        .tokenize("\nab")
        .unwrap()
        .into_iter()
        .map(|t| (t.word, t.pos, t.start))
        .collect();
    // The region opens at the line feed, which is a token of its own and
    // the first character of the region's token.
    assert_eq!(
        result,
        vec![("\n".to_string(), (1, 1), 0), ("\nab".to_string(), (1, 1), 0)]
    );
}
