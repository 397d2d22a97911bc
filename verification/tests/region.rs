use heraclitus_compiler::compiling_rules::{Region, Rules};

fn sample_tree() -> Region {
    let mut interp = Region::new(
        "string_interp",
        "String Interpolation",
        "${",
        "}",
        vec![],
        Some("global"),
    );
    interp.tokenize = true;
    Region::new_global(vec![Region::new(
        "string",
        "String Literal",
        "'",
        "'",
        vec![interp],
        None,
    )])
}

fn expected_interp() -> Region {
    Region {
        id: format!("string_interp"),
        name: format!("String Interpolation"),
        begin: format!("${{"),
        end: format!("}}"),
        interp: vec![],
        tokenize: true,
        allow_unclosed: false,
        global: false,
        singleline: false,
        references: Some(format!("global")),
    }
}

fn expected_string() -> Region {
    Region {
        id: format!("string"),
        name: format!("String Literal"),
        begin: format!("'"),
        end: format!("'"),
        interp: vec![expected_interp()],
        tokenize: false,
        allow_unclosed: false,
        global: false,
        singleline: false,
        references: None,
    }
}

fn expected_global() -> Region {
    Region {
        id: format!("global"),
        name: format!("Global context"),
        begin: format!(""),
        end: format!(""),
        interp: vec![expected_string()],
        tokenize: true,
        allow_unclosed: true,
        global: true,
        singleline: false,
        references: None,
    }
}

#[test]
fn region_parses_correctly() {
    let expected = expected_global();
    let result = sample_tree();
    assert_eq!(expected, result);
}

#[test]
fn region_map_correctly() {
    let expected = vec![
        ("string_interp".to_string(), expected_interp()),
        ("global".to_string(), expected_global()),
        ("string".to_string(), expected_string()),
    ];
    let region = sample_tree();
    let result = region.generate_region_map();
    assert_eq!(result.len(), expected.len());
    for (id, entry) in expected.iter() {
        assert_eq!(result.get(id), Some(entry));
    }
    assert_eq!(result.get(&"missing".to_string()), None);
}

#[test]
fn region_map_lists_parents_first_and_later_entries_shadow() {
    let first = Region::new("twin", "First", "a", "b", vec![], None);
    let second = Region::new("twin", "Second", "c", "d", vec![], None);
    let tree = Region::new_global(vec![
        Region::new("outer", "Outer", "(", ")", vec![first], None),
        second,
    ]);
    let map = tree.generate_region_map();
    let ids: Vec<String> = (0..map.len()).map(|i| map.entry(i).name.clone()).collect();
    assert_eq!(ids, vec!["Global context", "Outer", "First", "Second"]);
    assert_eq!(map.get(&"twin".to_string()).unwrap().name, "Second");
}

#[test]
fn rules_defaults_and_well_formedness() {
    let rules = Rules::new(vec!['+'], vec![('+', '=')], sample_tree());
    assert_eq!(rules.escape_symbol, '\\');
    assert_eq!(rules.symbols, vec!['+']);
    assert_eq!(rules.compounds, vec![('+', '=')]);
    assert!(rules.is_well_formed());
    let rules = rules.set_escape('^');
    assert_eq!(rules.escape_symbol, '^');
    assert_eq!(rules.region_tree, sample_tree());

    let dangling = Region::new_global(vec![Region::new("a", "A", "(", ")", vec![], Some("nowhere"))]);
    assert!(!Rules::new(vec![], vec![], dangling).is_well_formed());
    let not_global = Region::new("root", "Root", "", "", vec![], None);
    assert!(!Rules::new(vec![], vec![], not_global).is_well_formed());
}

#[test]
fn clones_say_the_same() {
    let tree = sample_tree();
    assert_eq!(tree.clone(), tree);
    let rules = Rules::new(vec!['+'], vec![('+', '=')], sample_tree()).set_escape('^');
    assert_eq!(rules.clone(), rules);
}
