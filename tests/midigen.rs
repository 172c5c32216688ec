use cricket::ast::{Channel, Instrument, Pattern, PatternEvent, Section, Song, TopLevel};
use cricket::midigen::{
    chord_to_midi_events, duration_ticks, encode_tracks, parse_chord, EventKind, GenerationError,
    MidiEvent, MidiGen, MAX_NUMBER_OF_CHANNELS, TEMPO,
};

fn create_test_ast() -> Vec<TopLevel> {
    vec![
        TopLevel::Instrument(Instrument {
            midi_path: "midipath".to_string(),
            type_: "guitar".to_string(),
            name: "Piano".to_string(),
        }),
        TopLevel::Pattern(Pattern {
            name: "Pattern1".to_string(),
            events: vec![
                PatternEvent::Note { chord: "C".to_string(), duration: (0, 1) },
                PatternEvent::Wait { duration: (1, 2) },
            ],
        }),
        TopLevel::Section(Section {
            name: "Section1".to_string(),
            channels: vec![Channel {
                name: "x".to_string(),
                pattern_calls: vec!["Pattern1".to_string()],
            }],
        }),
        TopLevel::Song(Song {
            name: "Song1".to_string(),
            entry_sections: vec!["Section1".to_string()],
        }),
    ]
}

fn single_song(events: Vec<PatternEvent>, channels: usize, call: &str) -> Vec<TopLevel> {
    let mut chans = Vec::new();
    for i in 0..channels {
        chans.push(Channel { name: format!("c{}", i), pattern_calls: vec![call.to_string()] });
    }
    vec![
        TopLevel::Pattern(Pattern { name: "p".to_string(), events }),
        TopLevel::Section(Section { name: "S".to_string(), channels: chans }),
        TopLevel::Song(Song { name: "Sg".to_string(), entry_sections: vec!["S".to_string()] }),
    ]
}

fn note(chord: &str, num: u8, den: u8) -> PatternEvent {
    PatternEvent::Note { chord: chord.to_string(), duration: (num, den) }
}

#[test]
fn test_chord_to_midi_events_major() {
    let events = chord_to_midi_events("C", 0, 480, 100, 0);
    assert_eq!(events.len(), 6); // 3 NoteOn + 3 NoteOff

    match events[0].kind {
        EventKind::NoteOn { channel, key, vel } => {
            assert_eq!(key, 60); // C note
            assert_eq!(vel, 100);
            assert_eq!(channel, 0);
        }
        _ => panic!("Expected NoteOn"),
    }
}

#[test]
fn test_chord_to_midi_events_minor() {
    let events = chord_to_midi_events("Am", 0, 480, 100, 0);
    assert_eq!(events.len(), 6); // 3 NoteOn + 3 NoteOff
    match events[0].kind {
        EventKind::NoteOn { key, .. } => {
            assert_eq!(key, 69); // A note
        }
        _ => panic!("Expected NoteOn"),
    }
}

#[test]
fn test_parse_chord_major() {
    let notes = parse_chord("C").unwrap();
    assert_eq!(notes, vec![60, 64, 67]);
}

#[test]
fn test_parse_chord_minor() {
    let notes = parse_chord("Am").unwrap();
    assert_eq!(notes, vec![69, 72, 76]);
}

#[test]
fn test_parse_chord_invalid() {
    let notes = parse_chord("H"); // H is not a valid note
    assert!(notes.is_none());
}

#[test]
fn test_midigen_new() {
    let ast = create_test_ast();
    let midigen = MidiGen::new(&ast);

    assert_eq!(midigen.song_count(), 1);
    assert_eq!(midigen.section_count(), 1);
    assert_eq!(midigen.instrument_count(), 1);
    assert_eq!(midigen.pattern_count(), 1);
}

#[test]
fn test_midigen_generate_song() {
    let ast = create_test_ast();
    let midigen = MidiGen::new(&ast);

    let result = midigen.generate_song(&"Song1".to_string());
    assert!(result.is_ok());

    let file = result.unwrap();
    assert!(file.file_name.ends_with(".mid"));
    assert_eq!(file.file_name, "Song1.mid");
}

#[test]
fn test_midigen_generate() {
    let ast = create_test_ast();
    let midigen = MidiGen::new(&ast);

    let songs = midigen.generate().unwrap();
    assert_eq!(songs.len(), 1);

    let file_name = &songs[0].file_name;
    assert!(file_name.ends_with(".mid"));
}

#[test]
fn parse_chord_table() {
    assert_eq!(parse_chord("C#").unwrap(), vec![61, 65, 68]);
    assert_eq!(parse_chord("Cm").unwrap(), vec![60, 63, 67]);
    assert_eq!(parse_chord("A#m").unwrap(), vec![70, 73, 77]);
    assert_eq!(parse_chord("B").unwrap(), vec![71, 75, 78]);
    assert!(parse_chord("E#").is_none());
    assert!(parse_chord("Bb").is_none());
    assert!(parse_chord("m").is_none());
    assert!(parse_chord("").is_none());
    assert!(chord_to_midi_events("H", 5, 5, 100, 0).is_empty());
}

#[test]
fn chord_events_exact() {
    let events = chord_to_midi_events("Am", 7, 840, 100, 3);
    let on = |key: u8, delta: u32| MidiEvent { delta, kind: EventKind::NoteOn { channel: 3, key, vel: 100 } };
    let off = |key: u8, delta: u32| MidiEvent { delta, kind: EventKind::NoteOff { channel: 3, key, vel: 0 } };
    assert_eq!(
        events,
        vec![on(69, 7), on(72, 0), on(76, 0), off(69, 840), off(72, 0), off(76, 0)]
    );
}

#[test]
fn duration_ticks_formula() {
    assert_eq!(duration_ticks(1, 8), 840);
    assert_eq!(duration_ticks(0, 1), 120);
    assert_eq!(duration_ticks(1, 1), 0);
    assert_eq!(duration_ticks(3, 1), -240);
    assert_eq!(duration_ticks(0, 255), 30600);
}

#[test]
fn tracks_of_a_song() {
    let ast = single_song(vec![note("C", 1, 8), PatternEvent::Wait { duration: (0, 2) }], 1, "p");
    let midigen = MidiGen::new(&ast);
    let tracks = midigen.generate_tracks(&match &ast[2] {
        TopLevel::Song(s) => s.clone(),
        _ => panic!("Expected song node"),
    })
    .unwrap();
    assert_eq!(tracks.len(), MAX_NUMBER_OF_CHANNELS);
    let tempo = MidiEvent { delta: 0, kind: EventKind::Tempo(TEMPO) };
    let end = MidiEvent { delta: 0, kind: EventKind::EndOfTrack };
    for t in tracks.iter().skip(1) {
        assert_eq!(t, &vec![tempo, end]);
    }
    // first note at 0 + 1, time becomes 0 + (0 + 8) = 8; the rest starts at 8 + 0
    let mut expected = vec![tempo];
    expected.extend(chord_to_midi_events("C", 1, 840, 100, 0));
    expected.extend(chord_to_midi_events("Am", 8, 240, 0, 0));
    expected.push(end);
    assert_eq!(tracks[0], expected);
}

#[test]
fn channels_follow_each_other() {
    let ast = single_song(vec![note("C", 0, 2)], 2, "p");
    let midigen = MidiGen::new(&ast);
    let song = Song { name: "Sg".to_string(), entry_sections: vec!["S".to_string()] };
    let tracks = midigen.generate_tracks(&song).unwrap();
    // channel 0 ends at 2; channel 1 starts its note at 2 + 0
    assert_eq!(tracks[1][1].delta, 2);
    assert_eq!(tracks[1][1].kind, EventKind::NoteOn { channel: 1, key: 60, vel: 100 });
}

#[test]
fn unknown_pattern_fails_generation() {
    let ast = single_song(vec![note("C", 0, 1)], 1, "missing");
    let midigen = MidiGen::new(&ast);
    assert_eq!(midigen.generate().err(), Some(GenerationError::UnknownPattern));
}

#[test]
fn unknown_section_and_song() {
    let ast = vec![TopLevel::Song(Song { name: "x".to_string(), entry_sections: vec!["nope".to_string()] })];
    let midigen = MidiGen::new(&ast);
    assert_eq!(midigen.generate().err(), Some(GenerationError::UnknownSection));
    assert_eq!(
        midigen.generate_song(&"other".to_string()).err(),
        Some(GenerationError::UnknownSong)
    );
}

#[test]
fn negative_duration_fails_generation() {
    let ast = single_song(vec![note("C", 3, 1)], 1, "p");
    let midigen = MidiGen::new(&ast);
    assert_eq!(midigen.generate().err(), Some(GenerationError::NegativeDuration));
}

#[test]
fn too_many_channels() {
    let ast = single_song(vec![note("C", 0, 1)], 17, "p");
    let midigen = MidiGen::new(&ast);
    assert_eq!(midigen.generate().err(), Some(GenerationError::TooManyChannels));
    let ok = single_song(vec![note("C", 0, 1)], 16, "p");
    assert!(MidiGen::new(&ok).generate().is_ok());
}

#[test]
fn time_overflow() {
    let events: Vec<PatternEvent> = (0..40).map(|_| note("C", 0, 1)).collect();
    let ast = single_song(events, 1, "p");
    let midigen = MidiGen::new(&ast);
    assert_eq!(midigen.generate().err(), Some(GenerationError::TimeOverflow));
}

#[test]
fn encoded_file_layout() {
    let ast = create_test_ast();
    let file = MidiGen::new(&ast).generate_song(&"Song1".to_string()).unwrap();
    let b = &file.bytes;
    assert_eq!(&b[0..4], b"MThd");
    // format 1 (parallel), 16 tracks, 480 ticks per quarter note
    assert_eq!(&b[8..14], &[0, 1, 0, 16, 0x01, 0xE0]);
    let chunks = b.windows(4).filter(|w| *w == b"MTrk").count();
    assert_eq!(chunks, 16);
}

#[test]
fn encoding_refuses_out_of_range_events() {
    let bad = vec![vec![MidiEvent { delta: 0, kind: EventKind::NoteOn { channel: 0, key: 200, vel: 1 } }]];
    assert!(encode_tracks(&bad).is_none());
    let good = vec![vec![MidiEvent { delta: 0, kind: EventKind::EndOfTrack }]];
    assert!(encode_tracks(&good).is_some());
}

#[test]
fn later_declaration_wins_in_lookup() {
    let mut ast = single_song(vec![note("C", 0, 1)], 1, "p");
    ast.push(TopLevel::Pattern(Pattern { name: "p".to_string(), events: vec![note("Am", 0, 1)] }));
    let midigen = MidiGen::new(&ast);
    let song = Song { name: "Sg".to_string(), entry_sections: vec!["S".to_string()] };
    let tracks = midigen.generate_tracks(&song).unwrap();
    assert_eq!(tracks[0][1].kind, EventKind::NoteOn { channel: 0, key: 69, vel: 100 });
}

#[test]
fn equal_bounds_give_zero_ticks() {
    let ast = single_song(vec![note("C", 1, 1)], 1, "p");
    let midigen = MidiGen::new(&ast);
    let song = Song { name: "Sg".to_string(), entry_sections: vec!["S".to_string()] };
    let tracks = midigen.generate_tracks(&song).unwrap();
    assert_eq!(tracks[0][1].delta, 1);
    assert_eq!(tracks[0][4], MidiEvent { delta: 0, kind: EventKind::NoteOff { channel: 0, key: 60, vel: 0 } });
}

#[test]
fn song_file_holds_its_tracks() {
    let ast = create_test_ast();
    let midigen = MidiGen::new(&ast);
    let song = match &ast[3] {
        TopLevel::Song(s) => s.clone(),
        _ => panic!("Expected song node"),
    };
    let tracks = midigen.generate_tracks(&song).unwrap();
    let file = midigen.generate_song(&"Song1".to_string()).unwrap();
    assert_eq!(file.bytes, encode_tracks(&tracks).unwrap());
    let files = midigen.generate().unwrap();
    assert_eq!(files[0].bytes, file.bytes);
}
