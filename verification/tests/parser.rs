use std::cmp::Ordering;

use heraclitus_compiler::compiling::parser::preset::{
    classify, has_all_fit, has_float_shape, has_variable_shape, unsigned_chars, CharClass,
};
use heraclitus_compiler::prelude::{
    alphabetic, alphanumeric, float, indent, indent_with, integer, number, numeric, syntax, token,
    token_by, variable, DebugEvent, DebugRecord, DefaultMetadata, Failure, Metadata, Position,
    SyntaxModule, SyntaxResult, Token,
};

fn tok(word: &str) -> Token {
    Token { word: word.to_string(), pos: (0, 0), start: 0 }
}

fn meta_of(words: &[&str]) -> DefaultMetadata {
    let tokens = words.iter().map(|word| tok(word)).collect();
    DefaultMetadata::new(tokens, Some(format!("path/to/file")), None)
}

#[test]
fn pattern_indent_test() {
    let expr = vec![Token { word: format!("\n    "), pos: (0, 0), start: 0 }];
    let mut meta = DefaultMetadata::new(expr, Some(format!("path/to/file")), None);
    let res = indent(&mut meta);
    assert!(res.is_ok());
    assert_eq!(res.unwrap(), 4);
}

#[test]
fn pattern_indent_with_test() {
    let expr = vec![Token { word: format!("\n    "), pos: (0, 0), start: 0 }];
    let mut meta = DefaultMetadata::new(expr, Some(format!("path/to/file")), None);
    let res = indent_with(&mut meta, 4);
    assert!(res.is_ok());
}

struct Expression {}

impl SyntaxModule<DefaultMetadata> for Expression {
    fn name() -> &'static str {
        "Expression"
    }

    fn new() -> Self {
        Expression {}
    }

    fn parse(&mut self, meta: &mut DefaultMetadata) -> SyntaxResult {
        token(meta, "let")?;
        Ok(())
    }
}

#[test]
fn syntax_module_test_token_match() {
    let mut exp = Expression {};
    let dataset1 = vec![Token { word: format!("let"), pos: (0, 0), start: 0 }];
    let dataset2 = vec![Token { word: format!("tell"), pos: (0, 0), start: 0 }];
    let path = Some(format!("path/to/file"));
    let result1 = exp.parse(&mut DefaultMetadata::new(dataset1, path.clone(), None));
    let result2 = exp.parse(&mut DefaultMetadata::new(dataset2, path.clone(), None));
    assert!(result1.is_ok());
    assert!(result2.is_err());
}

struct Preset {}

impl SyntaxModule<DefaultMetadata> for Preset {
    fn name() -> &'static str {
        "Preset"
    }

    fn new() -> Self {
        Preset {}
    }

    fn parse(&mut self, meta: &mut DefaultMetadata) -> SyntaxResult {
        variable(meta, vec!['_'])?;
        numeric(meta, vec![])?;
        number(meta, vec![])?;
        integer(meta, vec![])?;
        float(meta, vec![])?;
        Ok(())
    }
}

#[test]
fn syntax_module_test_preset_match() {
    let mut exp = Preset {};
    let dataset = vec![
        // Variable
        Token { word: format!("_text"), pos: (0, 0), start: 0 },
        // Numeric
        Token { word: format!("12321"), pos: (0, 0), start: 0 },
        // Number
        Token { word: format!("-123.12"), pos: (0, 0), start: 0 },
        // Integer
        Token { word: format!("-12"), pos: (0, 0), start: 0 },
        // Float
        Token { word: format!("-.681"), pos: (0, 0), start: 0 },
    ];
    let path = Some(format!("path/to/file"));
    let result = exp.parse(&mut DefaultMetadata::new(dataset, path, None));
    assert!(result.is_ok());
}

struct PatternModule {}

impl SyntaxModule<DefaultMetadata> for PatternModule {
    fn name() -> &'static str {
        "Pattern Module"
    }

    fn new() -> Self {
        PatternModule {}
    }

    #[allow(unused_must_use)]
    fn parse(&mut self, meta: &mut DefaultMetadata) -> SyntaxResult {
        // Any
        if let Ok(_) = token(meta, "apple") {
        } else if let Ok(_) = token(meta, "orange") {
        } else if let Ok(_) = token(meta, "banana") {
        } else {
            if let Err(details) = token(meta, "banana") {
                return Err(details);
            }
        }
        // Optional
        token(meta, "optional");
        // Syntax
        syntax(meta, &mut Expression::new())?;
        // Repeat
        loop {
            if let Err(_) = token(meta, "test") {
                break;
            }
            if let Err(_) = token(meta, ",") {
                break;
            }
        }
        // End token
        token(meta, "end");
        Ok(())
    }
}

#[test]
fn syntax_module_rest_match() {
    let mut exp = PatternModule {};
    // Everything should pass
    let dataset1 = vec![
        tok("orange"), tok("optional"), tok("let"), tok("this"), tok(","), tok("this"), tok("end"),
    ];
    // Token should fail
    let dataset2 = vec![
        tok("kiwi"), tok("optional"), tok("let"), tok("this"), tok(","), tok("this"), tok("end"),
    ];
    // Syntax should fail
    let dataset3 = vec![
        tok("orange"), tok("tell"), tok("this"), tok(","), tok("this"), tok("end"),
    ];
    // Token should fail because of repeat matching (this , this) ,
    let dataset4 = vec![
        tok("orange"), tok("tell"), tok("this"), tok(","), tok("this"), tok("this"), tok("end"),
    ];
    let path = Some(format!("path/to/file"));
    let result1 = exp.parse(&mut DefaultMetadata::new(dataset1, path.clone(), None));
    let result2 = exp.parse(&mut DefaultMetadata::new(dataset2, path.clone(), None));
    let result3 = exp.parse(&mut DefaultMetadata::new(dataset3, path.clone(), None));
    let result4 = exp.parse(&mut DefaultMetadata::new(dataset4, path.clone(), None));
    assert!(result1.is_ok());
    assert!(result2.is_err());
    assert!(result3.is_err());
    assert!(result4.is_err());
}

struct Backtrack {}

impl SyntaxModule<DefaultMetadata> for Backtrack {
    fn name() -> &'static str {
        "Backtrack"
    }

    fn new() -> Self {
        Backtrack {}
    }

    fn parse(&mut self, meta: &mut DefaultMetadata) -> SyntaxResult {
        if token(meta, "apple").is_err() && token(meta, "orange").is_err() {
            token(meta, "banana")?;
        }
        let _ = token(meta, "optional");
        syntax(meta, &mut Expression::new())?;
        token(meta, "this")?;
        while token(meta, ",").is_ok() {
            token(meta, "this")?;
        }
        token(meta, "end")?;
        Ok(())
    }
}

#[test]
fn parser_backtracks_over_alternatives() {
    let mut meta = meta_of(&["orange", "optional", "let", "this", ",", "this", "end"]);
    assert!(syntax(&mut meta, &mut Backtrack::new()).is_ok());
    assert_eq!(meta.index, 7);

    let tokens = vec![
        Token { word: "kiwi".to_string(), pos: (1, 1), start: 0 },
        Token { word: "optional".to_string(), pos: (1, 6), start: 5 },
    ];
    let mut meta = DefaultMetadata::new(tokens, None, None);
    match syntax(&mut meta, &mut Backtrack::new()) {
        Err(Failure::Quiet(info)) => {
            assert_eq!(info.position, Position::Pos(1, 1));
            assert_eq!(info.len, 4);
        }
        _ => panic!("a quiet failure at the first token was expected"),
    }
    assert_eq!(meta.index, 0);
}

struct TwoThenFail {}

impl SyntaxModule<DefaultMetadata> for TwoThenFail {
    fn name() -> &'static str {
        "TwoThenFail"
    }

    fn new() -> Self {
        TwoThenFail {}
    }

    fn parse(&mut self, meta: &mut DefaultMetadata) -> SyntaxResult {
        token(meta, "a")?;
        token(meta, "b")?;
        token(meta, "c")?;
        Ok(())
    }
}

#[test]
fn failed_syntax_restores_the_cursor() {
    let mut meta = meta_of(&["x", "a", "b", "d"]);
    meta.set_index(1);
    let result = syntax(&mut meta, &mut TwoThenFail::new());
    assert!(result.unwrap_err().is_quiet());
    assert_eq!(meta.get_index(), 1);
    // Traced, the cursor is restored as well.
    meta.set_debug(0);
    let result = syntax(&mut meta, &mut TwoThenFail::new());
    assert!(result.is_err());
    assert_eq!(meta.get_index(), 1);
}

#[test]
fn token_is_idempotent_after_rewind() {
    let mut meta = meta_of(&["let", "x"]);
    let first = token(&mut meta, "let");
    assert_eq!(first, Ok("let".to_string()));
    assert_eq!(meta.get_index(), 1);
    meta.set_index(0);
    let second = token(&mut meta, "let");
    assert_eq!(first, second);
    assert_eq!(meta.get_index(), 1);
}

#[test]
fn token_failure_is_quiet_and_leaves_the_cursor() {
    let tokens = vec![Token { word: "tell".to_string(), pos: (3, 7), start: 20 }];
    let mut meta = DefaultMetadata::new(tokens, Some("file".to_string()), Some("a\nbc".to_string()));
    match token(&mut meta, "let") {
        Err(Failure::Quiet(info)) => {
            assert_eq!(info.position, Position::Pos(3, 7));
            assert_eq!(info.len, 4);
            assert_eq!(info.path, Some("file".to_string()));
            assert_eq!(info.data, None);
        }
        _ => panic!("a quiet failure was expected"),
    }
    assert_eq!(meta.get_index(), 0);
    meta.set_index(1);
    match token(&mut meta, "let") {
        Err(Failure::Quiet(info)) => {
            // The end of the file: line 2, one past its two letters.
            assert_eq!(info.position, Position::Pos(2, 3));
            assert_eq!(info.len, 0);
        }
        _ => panic!("a quiet failure was expected"),
    }
    assert_eq!(meta.get_index(), 1);
}

#[test]
fn token_by_matches_by_predicate() {
    let mut meta = meta_of(&["@home", "plain"]);
    assert_eq!(token_by(&mut meta, |word| word.starts_with('@')), Ok("@home".to_string()));
    assert_eq!(meta.get_index(), 1);
    assert!(token_by(&mut meta, |word| word.starts_with('@')).is_err());
    assert_eq!(meta.get_index(), 1);
}

#[test]
fn indent_counts_spaces_only() {
    let mut meta = meta_of(&["\n", "\n  ", "\n\t", " \n", "x"]);
    assert_eq!(indent(&mut meta), Ok(0));
    assert_eq!(indent(&mut meta), Ok(2));
    assert!(indent(&mut meta).is_err());
    meta.set_index(3);
    assert!(indent(&mut meta).is_err());
    meta.set_index(4);
    assert!(indent(&mut meta).is_err());
    meta.set_index(5);
    assert!(indent(&mut meta).is_err());
}

#[test]
fn indent_with_compares_sizes() {
    let mut meta = meta_of(&["\n    "]);
    assert_eq!(indent_with(&mut meta, 6), Ok(Ordering::Less));
    meta.set_index(0);
    assert_eq!(indent_with(&mut meta, 4), Ok(Ordering::Equal));
    meta.set_index(0);
    assert_eq!(indent_with(&mut meta, 2), Ok(Ordering::Greater));
    assert_eq!(meta.get_index(), 1);
    let mut meta = meta_of(&["word"]);
    assert!(indent_with(&mut meta, 0).is_err());
    assert_eq!(meta.get_index(), 0);
}

fn matches(f: fn(&mut DefaultMetadata, Vec<char>) -> Result<String, Failure>, word: &str) -> bool {
    let mut meta = meta_of(&[word]);
    let result = f(&mut meta, vec!['_']);
    match &result {
        Ok(found) => {
            assert_eq!(found, word);
            assert_eq!(meta.get_index(), 1);
        }
        Err(failure) => {
            assert!(failure.is_quiet());
            assert_eq!(meta.get_index(), 0);
        }
    }
    result.is_ok()
}

#[test]
fn preset_matchers_accept_and_reject() {
    assert!(matches(variable, "name_1"));
    assert!(matches(variable, "_x"));
    assert!(!matches(variable, "1abc"));
    assert!(!matches(variable, "a-b"));
    assert!(matches(alphabetic, "abc_"));
    assert!(!matches(alphabetic, "abc1"));
    assert!(matches(alphanumeric, "abc1"));
    assert!(!matches(alphanumeric, "abc 1"));
    assert!(matches(numeric, "123_4"));
    assert!(!matches(numeric, "-1"));
    assert!(matches(integer, "-12"));
    assert!(matches(integer, "12"));
    assert!(!matches(integer, "1-2"));
    assert!(!matches(integer, "1.2"));
    assert!(matches(float, "-.681"));
    assert!(matches(float, "12.5"));
    assert!(matches(float, "12."));
    assert!(!matches(float, "12"));
    assert!(!matches(float, "1.2.3"));
    assert!(!matches(float, "1.a"));
    assert!(matches(number, "12"));
    assert!(matches(number, "-12.5"));
    assert!(!matches(number, "1.2.3"));
    assert!(!matches(number, "x"));
}

#[test]
fn shapes_of_words_given_their_classes() {
    let word: Vec<char> = "-.6x".chars().collect();
    let body: Vec<char> = word[1..].to_vec();
    let none: Vec<char> = vec![];
    assert_eq!(unsigned_chars("-.6x"), body);
    assert_eq!(unsigned_chars(".6x"), body);
    assert_eq!(classify(CharClass::Numeric, &body), vec![false, true, false]);
    assert_eq!(classify(CharClass::Alphabetic, &body), vec![false, false, true]);
    assert_eq!(classify(CharClass::Alphanumeric, &body), vec![false, true, true]);
    assert!(has_float_shape(&body, &vec![false, true, true], &none));
    assert!(!has_float_shape(&body, &vec![false, true, false], &none));
    assert!(has_float_shape(&body, &vec![false, true, false], &vec!['x']));
    let dotted: Vec<char> = "1.2.3".chars().collect();
    assert!(!has_float_shape(&dotted, &vec![true, false, true, false, true], &none));
    // A dot counts as a dot even where it is allowed as an extra character.
    assert!(!has_float_shape(&dotted, &vec![true, true, true, true, true], &vec!['.']));
    assert!(has_all_fit(&body, &vec![true, true, true], &none));
    assert!(!has_all_fit(&body, &vec![true, false, true], &none));
    assert!(has_all_fit(&body, &vec![true, false, true], &vec!['6']));
    assert!(has_all_fit(&none, &vec![], &none));
    let letters = vec![true, false, false];
    let alnums = vec![false, true, true];
    assert!(has_variable_shape(&body, &letters, &alnums, &none));
    assert!(!has_variable_shape(&body, &alnums, &letters, &none));
    assert!(has_variable_shape(&body, &alnums, &alnums, &vec!['.']));
    assert!(has_variable_shape(&none, &vec![], &vec![], &none));
}

#[test]
fn preset_matchers_fail_quietly_at_the_end() {
    let mut meta = meta_of(&[]);
    assert!(variable(&mut meta, vec![]).unwrap_err().is_quiet());
    assert!(number(&mut meta, vec![]).unwrap_err().is_quiet());
    assert_eq!(meta.get_index(), 0);
}

struct Outer {}

impl SyntaxModule<DefaultMetadata> for Outer {
    fn name() -> &'static str {
        "Outer"
    }

    fn new() -> Self {
        Outer {}
    }

    fn parse(&mut self, meta: &mut DefaultMetadata) -> SyntaxResult {
        syntax(meta, &mut Expression::new())?;
        syntax(meta, &mut Expression::new())
    }
}

#[test]
fn parse_debug_keeps_a_trace() {
    let mut meta = meta_of(&["let", "x"]);
    let result = Outer::new().parse_debug(&mut meta);
    assert!(result.is_err());
    assert_eq!(meta.get_debug(), Some(0));
    let trace: Vec<(usize, DebugEvent, String)> = meta
        .debug_log
        .iter()
        .map(|record| (record.depth, record.event, record.name.clone()))
        .collect();
    assert_eq!(
        trace,
        vec![
            (0, DebugEvent::Entered, "Outer".to_string()),
            (1, DebugEvent::Entered, "Expression".to_string()),
            (1, DebugEvent::Left, "Expression".to_string()),
            (1, DebugEvent::Entered, "Expression".to_string()),
            (1, DebugEvent::Failed, "Expression".to_string()),
            (0, DebugEvent::Failed, "Outer".to_string()),
        ]
    );
}

#[test]
fn trace_lines_are_indented_by_depth() {
    let record = DebugRecord { depth: 2, event: DebugEvent::Entered, name: "If".to_string() };
    assert_eq!(record.line(false), "    [Entered] If");
    assert_eq!(record.line(true), "    [Entered] If");
    let record = DebugRecord { depth: 0, event: DebugEvent::Left, name: "Block".to_string() };
    assert_eq!(record.line(false), "[Left] Block");
    let record = DebugRecord { depth: 1, event: DebugEvent::Failed, name: "Expr".to_string() };
    assert_eq!(record.line(false), "  [Failed] Expr");
    colored::control::set_override(true);
    let painted = record.line(true);
    assert!(painted.starts_with("  \u{1b}["));
    assert!(painted.ends_with(" Expr"));
    assert!(painted.contains("[Failed]"));
}

#[test]
fn metadata_moves_its_cursor() {
    let mut meta = meta_of(&["a", "b", "c"]);
    assert_eq!(meta.get_current_token().unwrap().word, "a");
    meta.increment_index();
    assert_eq!(meta.get_current_token().unwrap().word, "b");
    meta.offset_index(2);
    assert_eq!(meta.get_index(), 3);
    assert_eq!(meta.get_current_token(), None);
    assert_eq!(meta.get_token_at(2).unwrap().word, "c");
    assert_eq!(meta.get_path(), Some("path/to/file".to_string()));
    assert_eq!(meta.get_code(), None);
    assert_eq!(meta.get_debug(), None);
    assert!(meta.get_trace().is_empty());
}

#[test]
fn indent_test() {
    let mut meta = meta_of(&["\n    "]);
    let res = indent(&mut meta);
    assert!(res.is_ok());
    assert_eq!(res.unwrap(), 4);
}

#[test]
fn indent_with_test() {
    let mut meta = meta_of(&["\n    "]);
    let res = indent_with(&mut meta, 4);
    assert!(res.is_ok());
}

#[test]
fn test_token_match() {
    let mut exp = Expression {};
    let result1 = exp.parse(&mut meta_of(&["let"]));
    let result2 = exp.parse(&mut meta_of(&["tell"]));
    assert!(result1.is_ok());
    assert!(result2.is_err());
}

#[test]
fn test_preset_match() {
    let mut exp = Preset {};
    let result = exp.parse(&mut meta_of(&["_text", "12321", "-123.12", "-12", "-.681"]));
    assert!(result.is_ok());
}

#[test]
fn rest_match() {
    let mut exp = PatternModule {};
    let result1 = exp.parse(&mut meta_of(&["orange", "optional", "let", "this", ",", "this", "end"]));
    let result2 = exp.parse(&mut meta_of(&["kiwi", "optional", "let", "this", ",", "this", "end"]));
    let result3 = exp.parse(&mut meta_of(&["orange", "tell", "this", ",", "this", "end"]));
    let result4 =
        exp.parse(&mut meta_of(&["orange", "tell", "this", ",", "this", "this", "end"]));
    assert!(result1.is_ok());
    assert!(result2.is_err());
    assert!(result3.is_err());
    assert!(result4.is_err());
}
