use heraclitus_compiler::compiling::lexing::{CompoundHandler, CompoundReaction, Reader};
use heraclitus_compiler::compiling::lexing::Lexer;
use heraclitus_compiler::compiling_rules::{Region, Rules};

#[test]
fn compound_handler_match_region() {
    let expected = vec![
        CompoundReaction::Pass,
        CompoundReaction::Begin,
        CompoundReaction::Keep,
        CompoundReaction::End,
        CompoundReaction::Begin,
        CompoundReaction::End,
    ];
    let code = format!("!<=><=");
    let mut reader = Reader::new(&code);
    let symbols = vec!['<', '=', '>'];
    let compounds = vec![('<', '='), ('=', '>')];
    let rules = Rules::new(symbols, compounds, Region::new_global(vec![]));
    let mut ch = CompoundHandler::new(&rules);
    let mut result = vec![];
    while let Some(letter) = reader.next_letter() {
        result.push(ch.handle_compound(letter, &reader, true));
    }
    assert_eq!(expected, result);
}

#[test]
fn compound_handler_passes_outside_tokenized_context() {
    let code = format!("<=");
    let mut reader = Reader::new(&code);
    let rules = Rules::new(vec![], vec![('<', '=')], Region::new_global(vec![]));
    let mut ch = CompoundHandler::new(&rules);
    let letter = reader.next_letter().unwrap();
    assert_eq!(ch.handle_compound(letter, &reader, false), CompoundReaction::Pass);
    assert_eq!(ch.handle_compound(letter, &reader, true), CompoundReaction::Begin);
    // Leaving tokenized context drops the compound in progress.
    assert_eq!(ch.handle_compound(letter, &reader, false), CompoundReaction::Pass);
    let letter = reader.next_letter().unwrap();
    assert_eq!(ch.handle_compound(letter, &reader, true), CompoundReaction::Pass);
}

#[test]
fn lexer_merges_compounds() {
    let symbols = vec!['<', '=', '>'];
    let compounds = vec![('<', '='), ('=', '>')];
    let rules = Rules::new(symbols, compounds, Region::new_global(vec![]));
    let lexer = Lexer::new(rules);
    let tokens = lexer.tokenize("!<=><=").unwrap();
    let result: Vec<(String, usize)> = tokens.iter().map(|t| (t.word.clone(), t.start)).collect();
    assert_eq!(
        result,
        vec![("!".to_string(), 0), ("<=>".to_string(), 1), ("<=".to_string(), 4)]
    );
}
