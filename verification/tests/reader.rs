use heraclitus_compiler::compiling::lexing::{ReadMode, Reader};

fn positions_of(code: &String) -> Vec<(usize, usize)> {
    let mut reader = Reader::new(code);
    let mut result = vec![];
    while let Some(_) = reader.next_letter() {
        result.push(reader.get_position());
    }
    result
}

fn indices_of(code: &String) -> Vec<usize> {
    let mut reader = Reader::new(code);
    let mut result = vec![];
    while let Some(_) = reader.next_letter() {
        result.push(reader.get_index());
    }
    result
}

#[test]
fn letter_position() {
    let code = vec!["apple", "banana", "orange"].join("\n");
    let expected = vec![
        (1, 1), (1, 2), (1, 3), (1, 4), (1, 5), (1, 6),
        (2, 1), (2, 2), (2, 3), (2, 4), (2, 5), (2, 6), (2, 7),
        (3, 1), (3, 2), (3, 3), (3, 4), (3, 5), (3, 6),
    ];
    assert_eq!(expected, positions_of(&code));
}

#[test]
fn index_position() {
    let code = vec!["apple", "orange"].join("\n");
    let expected = vec![0, 1, 2, 3, 4, 5, 6, 7, 8, 9, 10, 11];
    assert_eq!(expected, indices_of(&code));
}

#[test]
fn correct_history_and_future() {
    const SIZE: usize = 5;
    let code = vec!["apple", "kiwi"].join("\n");
    let expected = vec!["apple", "pple\n", "ple\nk", "le\nki", "e\nkiw", "\nkiwi"];
    let mut reader = Reader::new(&code);
    let mut result_history = vec![];
    let mut result_future = vec![];
    while let Some(_) = reader.next_letter() {
        if let Some(history) = reader.get_history_or_future(SIZE, &ReadMode::History) {
            result_history.push(history);
        }
        if let Some(future) = reader.get_history_or_future(SIZE, &ReadMode::Future) {
            result_future.push(future);
        }
    }
    assert_eq!(expected, result_history);
    assert_eq!(expected, result_future);
}

#[test]
fn reader_letter_position() {
    let code = vec!["apple", "banana", "orange"].join("\n");
    let expected = vec![
        // a      p       p       l       e       \n
        (1, 1), (1, 2), (1, 3), (1, 4), (1, 5), (1, 6),
        // b      a       n       a       n       a       \n
        (2, 1), (2, 2), (2, 3), (2, 4), (2, 5), (2, 6), (2, 7),
        // o      r       a       n       g       e
        (3, 1), (3, 2), (3, 3), (3, 4), (3, 5), (3, 6),
    ];
    let mut reader = Reader::new(&code);
    let mut result = vec![];
    while let Some(_) = reader.next_letter() {
        let pos = reader.get_position();
        result.push(pos);
    }
    assert_eq!(expected, result);
}

#[test]
fn reader_index_position() {
    let code = vec!["apple", "orange"].join("\n");
    let expected = vec![0, 1, 2, 3, 4, 5, 6, 7, 8, 9, 10, 11];
    let mut reader = Reader::new(&code);
    let mut result = vec![];
    while let Some(_) = reader.next_letter() {
        let pos = reader.get_index();
        result.push(pos);
    }
    assert_eq!(expected, result);
}

#[test]
fn reader_correct_history_and_future() {
    const SIZE: usize = 5;
    let code = vec!["apple", "kiwi"].join("\n");
    let expected = vec!["apple", "pple\n", "ple\nk", "le\nki", "e\nkiw", "\nkiwi"];
    let mut reader = Reader::new(&code);
    let mut result_history = vec![];
    let mut result_future = vec![];
    while let Some(_) = reader.next_letter() {
        if let Some(history) = reader.get_history(SIZE) {
            result_history.push(history.clone());
        }
        if let Some(future) = reader.get_future(SIZE) {
            result_future.push(future.clone());
        }
    }
    assert_eq!(expected, result_history);
    assert_eq!(expected, result_future);
}

#[test]
fn reader_returns_every_letter_then_none() {
    let code = "añ\n🎉".to_string();
    let mut reader = Reader::new(&code);
    assert_eq!(reader.next_letter(), Some('a'));
    assert_eq!(reader.next_letter(), Some('ñ'));
    assert_eq!(reader.get_position(), (1, 2));
    assert_eq!(reader.peek(), Some('\n'));
    assert_eq!(reader.next_letter(), Some('\n'));
    assert_eq!(reader.get_position(), (1, 3));
    assert_eq!(reader.next_letter(), Some('🎉'));
    assert_eq!(reader.get_position(), (2, 1));
    assert_eq!(reader.get_index(), 3);
    assert_eq!(reader.peek(), None);
    assert_eq!(reader.get_history(2), Some("\n🎉".to_string()));
    assert_eq!(reader.get_future(1), Some("🎉".to_string()));
    assert_eq!(reader.get_future(2), None);
    assert_eq!(reader.get_history(5), None);
    assert_eq!(reader.next_letter(), None);
    assert_eq!(reader.get_index(), 4);
    assert_eq!(reader.get_position(), (2, 2));
    // At the end of the text the cursor rests.
    assert_eq!(reader.next_letter(), None);
    assert_eq!(reader.get_index(), 4);
    assert_eq!(reader.get_position(), (2, 2));
}

#[test]
fn reader_on_empty_text() {
    let code = String::new();
    let mut reader = Reader::new(&code);
    assert_eq!(reader.get_position(), (0, 1));
    assert_eq!(reader.next_letter(), None);
    assert_eq!(reader.get_position(), (1, 1));
    assert_eq!(reader.get_index(), 0);
    assert_eq!(reader.get_future(0), Some(String::new()));
    assert_eq!(reader.get_history(0), Some(String::new()));
    assert_eq!(reader.get_future(1), None);
}

#[test]
fn reader_word_position_and_modes() {
    let code = "let x".to_string();
    let mut reader = Reader::new(&code);
    for _ in 0..4 {
        reader.next_letter();
    }
    assert_eq!(reader.get_position(), (1, 4));
    assert_eq!(reader.get_word_position("let"), (1, 1));
    assert_eq!(reader.get_history_or_future(2, &ReadMode::History), Some("t ".to_string()));
    assert_eq!(reader.get_history_or_future(2, &ReadMode::Future), Some(" x".to_string()));
}
