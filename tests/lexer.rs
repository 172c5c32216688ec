use cricket::lexer::{tokenize, Token};

#[test]
fn test_basic_tokenization() {
    let input = r#"
            Instrument guitar:
                type: Strings
                midi_path: guitar.mid
        "#;

    let tokens = tokenize(input);

    assert_eq!(tokens[0].0, Token::Instrument);
    assert_eq!(tokens[1].0, Token::Identifier); // guitar
    assert_eq!(tokens[2].0, Token::Colon);
    assert_eq!(tokens[3].0, Token::Type);
    assert_eq!(tokens[4].0, Token::Colon);
    assert_eq!(tokens[5].0, Token::Identifier); // Strings
    assert_eq!(tokens[6].0, Token::MidiPath);
    assert_eq!(tokens[7].0, Token::Colon);
    assert_eq!(tokens[8].0, Token::Identifier); // guitar.mid
}

#[test]
fn test_chord_token() {
    let input = "Note(Am)";
    let tokens = tokenize(input);
    let values: Vec<_> = tokens.iter().map(|(_, v)| v.as_str()).collect();

    assert!(values.contains(&"Am"));
}

#[test]
fn tokenize_drops_whitespace_and_unknown_characters() {
    let tokens = tokenize("  a\t$ 12\n[ % ] é");
    let kinds: Vec<Token> = tokens.iter().map(|t| t.0).collect();
    assert_eq!(
        kinds,
        vec![Token::Identifier, Token::Number, Token::LBracket, Token::RBracket]
    );
    let texts: Vec<&str> = tokens.iter().map(|t| t.1.as_str()).collect();
    assert_eq!(texts, vec!["a", "12", "[", "]"]);
    assert!(tokens.iter().all(|t| t.0 != Token::Error));
}

#[test]
fn tokenize_keywords_need_whole_words() {
    let tokens = tokenize("Song Songs types return_ midi_path 7x");
    let kinds: Vec<Token> = tokens.iter().map(|t| t.0).collect();
    assert_eq!(
        kinds,
        vec![
            Token::Song,
            Token::Identifier,
            Token::Identifier,
            Token::Identifier,
            Token::MidiPath,
            Token::Number,
            Token::Identifier,
        ]
    );
}

#[test]
fn tokenize_punctuation() {
    let tokens = tokenize(":()[]+=.,#");
    let kinds: Vec<Token> = tokens.iter().map(|t| t.0).collect();
    assert_eq!(
        kinds,
        vec![
            Token::Colon,
            Token::LParen,
            Token::RParen,
            Token::LBracket,
            Token::RBracket,
            Token::Plus,
            Token::Equals,
            Token::Dot,
            Token::Comma,
            Token::Hash,
        ]
    );
}

#[test]
fn retokenizing_joined_texts_keeps_kinds() {
    let source = "Pattern intro():\n\treturn [1:8] Note(Am) + [2:4] Wait()\nSong s: return A() + B()";
    let first = tokenize(source);
    let joined: Vec<&str> = first.iter().map(|t| t.1.as_str()).collect();
    let second = tokenize(&joined.join(" "));
    let k1: Vec<Token> = first.iter().map(|t| t.0).collect();
    let k2: Vec<Token> = second.iter().map(|t| t.0).collect();
    assert_eq!(k1, k2);
}
