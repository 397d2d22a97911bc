use heraclitus_compiler::prelude::{
    DefaultMetadata, Failure, Message, MessageType, Metadata, Position, PositionInfo, Token,
};

#[test]
fn test_position_info() {
    let pos = PositionInfo::at_pos(Some("test".to_string()), (1, 1), 1);
    assert_eq!(pos.get_path(), "test");
    assert_eq!(pos.get_pos_by_code("test"), (1, 1));
}

#[test]
fn test_position_info_between_tokens() {
    let begin = Token { word: "begin".to_string(), pos: (1, 1), start: 0 };
    let to = Token { word: "to".to_string(), pos: (1, 7), start: 6 };
    let end = Token { word: "end".to_string(), pos: (1, 10), start: 9 };
    let mut meta = DefaultMetadata::new(
        vec![begin.clone(), to.clone(), end.clone()],
        None,
        Some("begin to end".to_string()),
    );
    let pos = PositionInfo::from_between_tokens(&mut meta, Some(begin.clone()), Some(end.clone()));
    assert_eq!(pos.len, end.start - begin.start);
}

#[test]
fn message_test_logger() {
    let message = Message::new_err_msg("This is not a message").comment("Or is it?");
    assert_eq!(message.kind, MessageType::Error);
    assert_eq!(message.message, Some("This is not a message".to_string()));
    assert_eq!(message.comment, Some("Or is it?".to_string()));
    assert!(message.trace.is_empty());
    assert_eq!(message.code, None);
}

fn eof() -> PositionInfo {
    PositionInfo { path: None, position: Position::EOF, len: 0, data: None }
}

#[test]
fn end_of_text_is_after_the_last_line() {
    assert_eq!(eof().get_pos_by_code(""), (0, 0));
    assert_eq!(eof().get_pos_by_code("abc"), (1, 4));
    assert_eq!(eof().get_pos_by_code("abc\n"), (1, 4));
    assert_eq!(eof().get_pos_by_code("abc\r\n"), (1, 4));
    assert_eq!(eof().get_pos_by_code("abc\r"), (1, 5));
    assert_eq!(eof().get_pos_by_code("abc\nde"), (2, 3));
    assert_eq!(eof().get_pos_by_code("abc\n\n"), (2, 1));
    assert_eq!(eof().get_pos_by_code("\n"), (1, 1));
    assert_eq!(eof().get_pos_by_code("añ"), (1, 3));
    assert_eq!(eof().get_pos_by_file_or_code(Some(&"a\nb".to_string())), (2, 2));
    assert_eq!(eof().get_pos_by_file_or_code(None), (0, 0));
    let pos = PositionInfo::at_pos(None, (7, 9), 2);
    assert_eq!(pos.get_pos_by_file_or_code(None), (7, 9));
    assert_eq!(pos.get_path(), "[unknown]");
}

#[test]
fn position_info_from_metadata_and_tokens() {
    let token = Token { word: "wörd".to_string(), pos: (2, 3), start: 10 };
    let meta = DefaultMetadata::new(
        vec![token.clone()],
        Some("file".to_string()),
        Some("one\ntwo wörd".to_string()),
    );
    let info = PositionInfo::from_metadata(&meta);
    assert_eq!(info.position, Position::Pos(2, 3));
    assert_eq!(info.len, 4);
    assert_eq!(info.path, Some("file".to_string()));
    let info = PositionInfo::from_token(&meta, None);
    assert_eq!(info.position, Position::Pos(2, 9));
    assert_eq!(info.len, 0);
    let info = PositionInfo::at_eof(&meta);
    assert_eq!(info.position, Position::Pos(2, 9));
    let info = PositionInfo::new(&meta, Position::EOF, 3);
    assert_eq!(info.position, Position::Pos(2, 9));
    assert_eq!(info.len, 3);
    let info = PositionInfo::new(&meta, Position::Pos(1, 2), 3).data("note");
    assert_eq!(info.position, Position::Pos(1, 2));
    assert_eq!(info.data, Some("note".to_string()));
    let info = PositionInfo::from_between_tokens(&meta, Some(token.clone()), None);
    assert_eq!(info.len, usize::MAX - 10);
    let info = PositionInfo::from_between_tokens(&meta, None, Some(token.clone()));
    assert_eq!(info.position, Position::Pos(2, 3));
    assert_eq!(info.len, 4);

    let bare = DefaultMetadata::new(vec![], None, None);
    assert_eq!(PositionInfo::at_eof(&bare).position, Position::Pos(0, 0));
}

#[test]
fn messages_carry_their_trace_innermost_first() {
    let token = Token { word: "x".to_string(), pos: (1, 5), start: 4 };
    let mut meta = DefaultMetadata::new(vec![], Some("file".to_string()), Some("let x".to_string()));
    meta.trace.push(PositionInfo::at_pos(Some("outer".to_string()), (9, 9), 1));
    meta.trace.push(PositionInfo::at_pos(Some("inner".to_string()), (5, 5), 1));
    let message = Message::new_err_at_token(&meta, Some(token.clone())).message("Bad").comment("Hm");
    assert_eq!(message.kind, MessageType::Error);
    assert_eq!(message.code, Some("let x".to_string()));
    assert_eq!(message.message, Some("Bad".to_string()));
    assert_eq!(message.comment, Some("Hm".to_string()));
    let places: Vec<(String, Position)> =
        message.trace.iter().map(|p| (p.get_path(), p.position)).collect();
    assert_eq!(
        places,
        vec![
            ("file".to_string(), Position::Pos(1, 5)),
            ("inner".to_string(), Position::Pos(5, 5)),
            ("outer".to_string(), Position::Pos(9, 9)),
        ]
    );
    assert_eq!(Message::new_warn_at_token(&meta, None).kind, MessageType::Warning);
    assert_eq!(Message::new_warn_at_token(&meta, None).trace[0].position, Position::Pos(1, 6));
    assert_eq!(Message::new_info_at_token(&meta, None).kind, MessageType::Info);
    assert_eq!(Message::new_at_token(&meta, None, MessageType::Info).trace.len(), 3);
    let at = PositionInfo::at_pos(None, (3, 3), 3);
    assert_eq!(Message::new_err_at_position(&meta, at.clone()).trace[0], at);
    assert_eq!(Message::new_warn_at_position(&meta, at.clone()).kind, MessageType::Warning);
    assert_eq!(Message::new_info_at_position(&meta, at.clone()).kind, MessageType::Info);
    assert_eq!(Message::new_warn_msg("w").kind, MessageType::Warning);
    assert_eq!(Message::new_info_msg("i").kind, MessageType::Info);
    assert_eq!(Message::new_msg("m", MessageType::Info).message, Some("m".to_string()));
    let two = vec![at.clone(), PositionInfo::at_pos(None, (4, 4), 4)];
    let message = Message::new(None, &two, MessageType::Error);
    assert_eq!(message.trace[0].position, Position::Pos(4, 4));
    assert_eq!(message.trace[1].position, Position::Pos(3, 3));
    assert_eq!(message.clone(), message);
}

#[test]
fn failures_are_quiet_or_loud() {
    let quiet = Failure::Quiet(PositionInfo::at_pos(None, (1, 2), 3));
    assert!(quiet.is_quiet());
    assert!(!quiet.is_loud());
    assert_eq!(quiet.clone().unwrap_quiet().position, Position::Pos(1, 2));
    let loud = Failure::Loud(Message::new_err_msg("boom"));
    assert!(loud.is_loud());
    assert!(!loud.is_quiet());
    assert_eq!(loud.clone().unwrap_loud().message, Some("boom".to_string()));
}
