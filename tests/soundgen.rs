use cricket::soundgen::strip_mid_extension;

#[test]
fn strip_mid_extension_strips() {
    assert_eq!(strip_mid_extension("song.mid".into()), "song".to_string());
    assert_eq!(
        strip_mid_extension("long.name.with.dots.mid".into()),
        "long.name.with.dots".to_string()
    );
}

#[test]
fn strip_mid_extension_leaves_otherwise() {
    assert_eq!(strip_mid_extension("song.MID".into()), "song.MID".to_string());
    assert_eq!(strip_mid_extension("track.txt".into()), "track.txt".to_string());
    assert_eq!(strip_mid_extension("noextension".into()), "noextension".to_string());
}

#[test]
fn strip_mid_extension_edges() {
    assert_eq!(strip_mid_extension(".mid".into()), "".to_string());
    assert_eq!(strip_mid_extension("mid".into()), "mid".to_string());
    assert_eq!(strip_mid_extension("a.mid.mid".into()), "a.mid".to_string());
}
