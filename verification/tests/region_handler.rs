use heraclitus_compiler::compiling::lexing::{ReadMode, Reader, RegionHandler, RegionReaction};
use heraclitus_compiler::compiling_rules::{Region, Rules};

#[test]
fn region_handler_match_region() {
    let lines = vec!["begin", "\\begin", "end"];
    let expected = vec![(0, String::from("begin")), (15, String::from("end"))];
    let code = lines.join(" ");
    let mut reader = Reader::new(&code);
    let region = Region::new_global(vec![Region::new(
        "module",
        "Module literal",
        "begin",
        "end",
        vec![],
        None,
    )]);
    let rules = Rules::new(vec![], vec![], region);
    assert!(rules.is_well_formed());
    let mut rh = RegionHandler::new(&rules);

    let mut result = vec![];
    let mut is_escaped = false;
    while let Some(letter) = reader.next_letter() {
        if let Some(begin) = rh.match_region_by_begin(&reader, is_escaped) {
            rh.open_region(begin);
            result.push((reader.get_index(), begin.begin.clone()));
        }
        if let Some(end) = rh.match_region_by_end(&reader, is_escaped) {
            result.push((reader.get_index(), end.end.clone()));
        }
        is_escaped = !is_escaped && letter == '\\';
    }
    assert_eq!(expected, result);
}

#[test]
fn region_handler_handle_region() {
    let lines = vec!["'My name is \\\\\\'{name}.\\\\'"];
    let expected = vec![0, 16, 21, 25];
    let code = lines.join("\n");
    let region = Region::new_global(vec![Region::new(
        "string",
        "String literal",
        "'",
        "'",
        vec![Region::new("interp", "Interpolation", "{", "}", vec![], None)],
        None,
    )]);
    let rules = Rules::new(vec![], vec![], region);
    assert!(rules.is_well_formed());
    let mut reader = Reader::new(&code);
    let mut rh = RegionHandler::new(&rules);
    let mut result = vec![];
    let mut is_escaped = false;
    while let Some(letter) = reader.next_letter() {
        let region_mutated = rh.handle_region(&reader, is_escaped);
        if let RegionReaction::Begin(_) | RegionReaction::End(_) = region_mutated {
            result.push(reader.get_index());
        }
        is_escaped = !is_escaped && letter == '\\';
    }
    assert_eq!(expected, result);
}

#[test]
fn handle_region_resolves_references_and_reports_flags() {
    let mut interp = Region::new("interp", "Interpolation", "{", "}", vec![], Some("global"));
    interp.tokenize = true;
    let region = Region::new_global(vec![Region::new(
        "string",
        "String literal",
        "'",
        "'",
        vec![interp],
        None,
    )]);
    let rules = Rules::new(vec![], vec![], region);
    assert!(rules.is_well_formed());
    let code = "'{'x'}'".to_string();
    let mut reader = Reader::new(&code);
    let mut rh = RegionHandler::new(&rules);
    let mut reactions = vec![];
    let mut depths = vec![];
    while let Some(_) = reader.next_letter() {
        reactions.push(rh.handle_region(&reader, false));
        depths.push(rh.get_region().unwrap().id.clone());
    }
    assert_eq!(
        reactions,
        vec![
            RegionReaction::Begin(false),
            RegionReaction::Begin(true),
            RegionReaction::Begin(false),
            RegionReaction::Pass,
            RegionReaction::End(false),
            RegionReaction::End(true),
            RegionReaction::End(false),
        ]
    );
    assert_eq!(
        depths,
        vec!["string", "interp", "string", "string", "interp", "string", "global"]
    );
    // The interpolation uses the list of the region that it references.
    assert!(rh.is_region_closed(&reader).is_ok());
}

#[test]
fn is_region_closed_names_the_open_region() {
    let region = Region::new_global(vec![Region::new("string", "String", "'", "'", vec![], None)]);
    let rules = Rules::new(vec![], vec![], region);
    let code = "'ab".to_string();
    let mut reader = Reader::new(&code);
    let mut rh = RegionHandler::new(&rules);
    while let Some(_) = reader.next_letter() {
        rh.handle_region(&reader, false);
    }
    let (pos, open) = rh.is_region_closed(&reader).unwrap_err();
    assert_eq!(pos, (1, 4));
    assert_eq!(open.name, "String");
    assert_eq!(rh.get_interp().unwrap().len(), 0);
}

#[test]
fn escaped_letter_opens_and_closes_nothing() {
    let region = Region::new_global(vec![Region::new("string", "String", "'", "'", vec![], None)]);
    let rules = Rules::new(vec![], vec![], region);
    let code = "''".to_string();
    let mut reader = Reader::new(&code);
    let mut rh = RegionHandler::new(&rules);
    reader.next_letter();
    assert_eq!(rh.handle_region(&reader, true), RegionReaction::Pass);
    assert_eq!(rh.handle_region(&reader, false), RegionReaction::Begin(false));
    reader.next_letter();
    assert_eq!(rh.handle_region(&reader, true), RegionReaction::Pass);
    assert_eq!(rh.handle_region(&reader, false), RegionReaction::End(false));
}

#[test]
fn begin_wins_over_end() {
    // The end of the outer region is also the begin of an inner one.
    let inner = Region::new("inner", "Inner", "|", ")", vec![], None);
    let outer = Region::new("outer", "Outer", "(", "|", vec![inner], None);
    let rules = Rules::new(vec![], vec![], Region::new_global(vec![outer]));
    let code = "(|)|".to_string();
    let mut reader = Reader::new(&code);
    let mut rh = RegionHandler::new(&rules);
    let mut reactions = vec![];
    while let Some(_) = reader.next_letter() {
        reactions.push(rh.handle_region(&reader, false));
    }
    assert_eq!(
        reactions,
        vec![
            RegionReaction::Begin(false),
            RegionReaction::Begin(false),
            RegionReaction::End(false),
            RegionReaction::Begin(false),
        ]
    );
}

#[test]
fn handle_region() {
    let lines = vec!["'My name is {name}.'"];
    let expected = vec![0, 12, 17, 19];
    let code = lines.join("\n");
    let region = Region::new_global(vec![Region::new(
        "string",
        "String literal",
        "'",
        "'",
        vec![Region::new("interp", "Interpolation", "{", "}", vec![], None)],
        None,
    )]);
    let rules = Rules::new(vec![], vec![], region);
    let mut reader = Reader::new(&code);
    let mut rh = RegionHandler::new(&rules);
    let mut result = vec![];
    while let Some(_) = reader.next_letter() {
        let region_mutated = rh.handle_region(&reader, false);
        if let RegionReaction::Begin(_) | RegionReaction::End(_) = region_mutated {
            result.push(reader.get_index());
        }
    }
    assert_eq!(expected, result);
}

#[test]
fn match_region() {
    let lines = vec!["begin", "\\begin", "end"];
    let expected = vec![(0, String::from("begin")), (15, String::from("end"))];
    let code = lines.join(" ");
    let mut reader = Reader::new(&code);
    let region = Region::new_global(vec![Region::new(
        "module",
        "Module literal",
        "begin",
        "end",
        vec![],
        None,
    )]);
    let rules = Rules::new(vec![], vec![], region);
    let mut rh = RegionHandler::new(&rules);
    let mut result = vec![];
    let mut is_escaped = false;
    while let Some(letter) = reader.next_letter() {
        let candidates = rh.get_interp().unwrap();
        if let Some(begin) = rh.match_region_by(&reader, candidates, ReadMode::Future, is_escaped) {
            rh.open_region(begin);
            result.push((reader.get_index(), begin.begin.clone()));
        }
        let top = rh.get_region().unwrap();
        if !top.global && RegionHandler::delimiter_found(&reader, top, &ReadMode::History, is_escaped) {
            result.push((reader.get_index(), top.end.clone()));
        }
        is_escaped = !is_escaped && letter == '\\';
    }
    assert_eq!(expected, result);
}
