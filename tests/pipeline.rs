use cricket::ast::{Channel, Instrument, Pattern, Section, Song, TopLevel};
use cricket::lexer::tokenize;
use cricket::midigen::{EventKind, MidiGen};
use cricket::parser::{ParseError, Parser};
use cricket::semantic::{Semantic, SemanticError};
use cricket::{compile, CompileError};

fn pattern(name: &str) -> TopLevel {
    TopLevel::Pattern(Pattern { name: name.to_string(), events: Vec::new() })
}

fn instrument(name: &str) -> TopLevel {
    TopLevel::Instrument(Instrument {
        name: name.to_string(),
        type_: "Strings".to_string(),
        midi_path: "x".to_string(),
    })
}

#[test]
fn duplicate_patterns_are_rejected() {
    match Semantic::new(vec![pattern("p"), pattern("q"), pattern("p")]) {
        Err(SemanticError::DuplicatePattern(n)) => assert_eq!(n, "p"),
        _ => panic!("Expected a duplicate pattern"),
    }
}

#[test]
fn distinct_instruments_are_accepted() {
    assert!(Semantic::new(vec![instrument("a"), instrument("b")]).is_ok());
    match Semantic::new(vec![instrument("a"), instrument("a")]) {
        Err(SemanticError::DuplicateInstrument(n)) => assert_eq!(n, "a"),
        _ => panic!("Expected a duplicate instrument"),
    }
}

#[test]
fn same_name_across_kinds_is_fine() {
    let song = TopLevel::Song(Song { name: "p".to_string(), entry_sections: Vec::new() });
    assert!(Semantic::new(vec![pattern("p"), instrument("p"), song]).is_ok());
}

#[test]
fn duplicate_sections_and_songs() {
    let section = |n: &str| TopLevel::Section(Section { name: n.to_string(), channels: Vec::new() });
    let song = |n: &str| TopLevel::Song(Song { name: n.to_string(), entry_sections: Vec::new() });
    assert!(matches!(
        Semantic::new(vec![section("s"), section("s")]),
        Err(SemanticError::DuplicateSection(_))
    ));
    assert!(matches!(
        Semantic::new(vec![song("s"), song("s")]),
        Err(SemanticError::DuplicateSong(_))
    ));
}

#[test]
fn duplicate_channels_are_rejected() {
    let chan = |n: &str| Channel { name: n.to_string(), pattern_calls: vec!["p".to_string()] };
    let section = TopLevel::Section(Section {
        name: "S".to_string(),
        channels: vec![chan("a"), chan("b"), chan("a")],
    });
    let mut s = Semantic::new(vec![section]).unwrap();
    match s.analyze() {
        Err(SemanticError::DuplicateChannel { section, channel }) => {
            assert_eq!(section, "S");
            assert_eq!(channel, "a");
        }
        _ => panic!("Expected a duplicate channel"),
    }
}

#[test]
fn undefined_section_fails_validation() {
    let source = "Section A: Channel c: return p() Song x: return A() + B()";
    let tokens = tokenize(source);
    let ast = Parser::new(tokens).parse().unwrap();
    let mut s = Semantic::new(ast).unwrap();
    match s.analyze() {
        Err(SemanticError::UndefinedSection { song, section }) => {
            assert_eq!(song, "x");
            assert_eq!(section, "B");
        }
        _ => panic!("Expected an undefined section"),
    }
    match compile(source) {
        Err(CompileError::Semantic(SemanticError::UndefinedSection { .. })) => {}
        _ => panic!("Expected validation to stop the compilation"),
    }
}

#[test]
fn undeclared_pattern_passes_validation() {
    let source = "Section A: Channel c: return nothing() Song x: return A()";
    let ast = Parser::new(tokenize(source)).parse().unwrap();
    let mut s = Semantic::new(ast).unwrap();
    assert!(s.analyze().is_ok());
    assert!(matches!(compile(source), Err(CompileError::Generation(_))));
}

#[test]
fn end_to_end_song() {
    let source = "Instrument i: type: Strings midi_path: x\nPattern p(): return [1:8] Note(Am)\nSection S: Channel c: return p()\nSong Sg: return S()";
    let files = compile(source).unwrap();
    assert_eq!(files.len(), 1);
    assert_eq!(files[0].file_name, "Sg.mid");
    assert_eq!(&files[0].bytes[0..4], b"MThd");

    let ast = Parser::new(tokenize(source)).parse().unwrap();
    let generator = MidiGen::new(&ast);
    let song = match &ast[3] {
        TopLevel::Song(s) => s.clone(),
        _ => panic!("Expected song node"),
    };
    let tracks = generator.generate_tracks(&song).unwrap();
    assert_eq!(tracks.len(), 16);
    for t in &tracks {
        assert_eq!(t.last().unwrap().kind, EventKind::EndOfTrack);
    }
    let ons: Vec<u8> = tracks[0]
        .iter()
        .filter_map(|e| match e.kind {
            EventKind::NoteOn { key, .. } => Some(key),
            _ => None,
        })
        .collect();
    let offs: Vec<u8> = tracks[0]
        .iter()
        .filter_map(|e| match e.kind {
            EventKind::NoteOff { key, .. } => Some(key),
            _ => None,
        })
        .collect();
    assert_eq!(ons, vec![69, 72, 76]);
    assert_eq!(offs, vec![69, 72, 76]);
    assert_eq!(tracks[0][1].delta, 1);
    assert_eq!(tracks[0][4].delta, 840);
}

#[test]
fn compile_reports_parse_errors() {
    assert_eq!(
        match compile("Song") {
            Err(CompileError::Parse(e)) => Some(e),
            _ => None,
        },
        Some(ParseError::Expected {
            expected: cricket::lexer::Token::Identifier,
            found: None,
            context: cricket::parser::Context::Song,
        })
    );
}

#[test]
fn compile_two_songs_in_order() {
    let source = "Pattern p(): return [0:1] Note(C)\nSection S: Channel c: return p()\nSong B: return S()\nSong A: return S() + S()";
    let files = compile(source).unwrap();
    let names: Vec<&str> = files.iter().map(|f| f.file_name.as_str()).collect();
    assert_eq!(names, vec!["B.mid", "A.mid"]);
}
