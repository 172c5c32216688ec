use cricket::ast::{PatternEvent, TopLevel};
use cricket::lexer::{self, Token};
use cricket::parser::{Context, ParseError, Parser};

fn parse_source(input: &str) -> Result<Vec<TopLevel>, ParseError> {
    let tokens = lexer::tokenize(input);
    let mut parser = Parser::new(tokens);
    parser.parse()
}

#[test]
fn test_parse_instrument() {
    let input = r#"
            Instrument piano:
                type: Strings
                midi_path: pianoxmid
        "#;

    let tokens = lexer::tokenize(input);
    let mut parser = Parser::new(tokens);
    let ast = parser.parse().unwrap();

    assert_eq!(ast.len(), 1);
    match &ast[0] {
        TopLevel::Instrument(instr) => {
            assert_eq!(instr.name, "piano");
            assert_eq!(instr.midi_path, "pianoxmid");
        }
        _ => panic!("Expected instrument node"),
    }
}

#[test]
fn test_parse_pattern() {
    let input = r#"
            Pattern intro():
                return [1:8] Note(C)
        "#;

    let tokens = lexer::tokenize(input);
    let mut parser = Parser::new(tokens);
    let ast = parser.parse().unwrap();

    assert_eq!(ast.len(), 1);
    match &ast[0] {
        TopLevel::Pattern(pat) => {
            assert_eq!(pat.name, "intro");
        }
        _ => panic!("Expected pattern node"),
    }
}

#[test]
fn test_full_song_flow() {
    let input = r#"
    Instrument instrument_xyz:
	type: Strings
	midi_path: xyz

    Pattern intro(): 
	return [1:8] Note(Am)

    Section Intro:
	Channel name_a:
		return intro()

    Song HotlineBling: 
	return Intro() + Intro()
    "#;

    let tokens = lexer::tokenize(&input);
    let mut parser = Parser::new(tokens);
    let ast = parser.parse().unwrap();

    assert_eq!(ast.len(), 4);
}

#[test]
fn instrument_fields_are_kept() {
    let ast = parse_source("Instrument n1: type: Brass midi_path: m_2").unwrap();
    match &ast[0] {
        TopLevel::Instrument(i) => {
            assert_eq!(i.name, "n1");
            assert_eq!(i.type_, "Brass");
            assert_eq!(i.midi_path, "m_2");
        }
        _ => panic!("Expected instrument node"),
    }
}

#[test]
fn pattern_events_and_plus() {
    let ast = parse_source("Pattern p(): return [1:8] Note(Cm) + [2:4] Wait() [0:1] Note(G)").unwrap();
    match &ast[0] {
        TopLevel::Pattern(p) => {
            assert_eq!(p.events.len(), 3);
            match &p.events[0] {
                PatternEvent::Note { chord, duration } => {
                    assert_eq!(chord, "Cm");
                    assert_eq!(*duration, (1, 8));
                }
                _ => panic!("Expected a note"),
            }
            match &p.events[1] {
                PatternEvent::Wait { duration } => assert_eq!(*duration, (2, 4)),
                _ => panic!("Expected a rest"),
            }
        }
        _ => panic!("Expected pattern node"),
    }
}

#[test]
fn section_and_song_calls() {
    let ast = parse_source(
        "Section S: Channel a: return p() + q() Channel b: return r() Song x: return S() + S() + T()",
    )
    .unwrap();
    assert_eq!(ast.len(), 2);
    match &ast[0] {
        TopLevel::Section(s) => {
            assert_eq!(s.name, "S");
            assert_eq!(s.channels.len(), 2);
            assert_eq!(s.channels[0].pattern_calls, vec!["p".to_string(), "q".to_string()]);
            assert_eq!(s.channels[1].name, "b");
        }
        _ => panic!("Expected section node"),
    }
    match &ast[1] {
        TopLevel::Song(s) => {
            assert_eq!(s.entry_sections, vec!["S".to_string(), "S".to_string(), "T".to_string()]);
        }
        _ => panic!("Expected song node"),
    }
}

#[test]
fn empty_input_parses_to_nothing() {
    assert_eq!(parse_source("  \n ").unwrap().len(), 0);
}

#[test]
fn unexpected_top_level_token() {
    assert_eq!(
        parse_source("Channel c").unwrap_err(),
        ParseError::UnexpectedTopLevel { found: Token::Channel }
    );
}

#[test]
fn expected_token_error() {
    assert_eq!(
        parse_source("Instrument piano type").unwrap_err(),
        ParseError::Expected {
            expected: Token::Colon,
            found: Some(Token::Type),
            context: Context::Instrument,
        }
    );
    assert_eq!(
        parse_source("Song s: return").unwrap_err(),
        ParseError::Expected { expected: Token::Identifier, found: None, context: Context::Song }
    );
    assert_eq!(
        parse_source("Section S: Channel c: p()").unwrap_err(),
        ParseError::Expected {
            expected: Token::Return,
            found: Some(Token::Identifier),
            context: Context::SectionChannel,
        }
    );
}

#[test]
fn invalid_chord_error() {
    assert_eq!(
        parse_source("Pattern p(): return [1:8] Note(Hm)").unwrap_err(),
        ParseError::InvalidChord { found: Some(Token::Identifier) }
    );
    assert_eq!(
        parse_source("Pattern p(): return [1:8] Note(4)").unwrap_err(),
        ParseError::InvalidChord { found: Some(Token::Number) }
    );
}

#[test]
fn unexpected_event_error() {
    assert_eq!(
        parse_source("Pattern p(): return [1:8] Rest()").unwrap_err(),
        ParseError::UnexpectedEvent { found: Some(Token::Identifier) }
    );
}

#[test]
fn invalid_number_error() {
    assert_eq!(
        parse_source("Pattern p(): return [1:256] Wait()").unwrap_err(),
        ParseError::InvalidNumber
    );
    assert!(parse_source("Pattern p(): return [0:255] Wait()").is_ok());
}

#[test]
fn chord_names() {
    let mut parser = Parser::new(Vec::new());
    assert!(parser.is_identifier_chord(&"Am".to_string()));
    assert!(parser.is_identifier_chord(&"G#m7".to_string()));
    assert!(parser.is_identifier_chord(&"Cmaj7".to_string()));
    assert!(!parser.is_identifier_chord(&"".to_string()));
    assert!(!parser.is_identifier_chord(&"Hm".to_string()));
    assert!(!parser.is_identifier_chord(&"am".to_string()));
    assert!(!parser.is_identifier_chord(&"C_".to_string()));
}
