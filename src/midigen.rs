use vstd::prelude::*;

use crate::ast::{
    Channel, ChannelV, Instrument, InstrumentV, Pattern, PatternEvent, PatternEventV, PatternV,
    Section, SectionV, Song, SongV, TopLevel, TopLevelV,
};
use crate::text::{chars_of, string_of};
use midly::{Format, Header, MetaMessage, MidiMessage, Smf, Timing, TrackEvent, TrackEventKind};

verus! {

/// How many channel tracks every song has.
pub const MAX_NUMBER_OF_CHANNELS: usize = 16;

/// Tempo of every track, in microseconds per quarter note (120 beats per minute).
pub const TEMPO: u32 = 500000;

/// Velocity of a sounding note; a rest is a chord of velocity zero.
pub const NOTE_VELOCITY: u8 = 100;

/// The largest time that an event can carry.
pub const MAX_TICK: u32 = 0x0fff_ffff;

/// What an event of a track does.
#[derive(Clone, Copy, Debug, PartialEq, Eq, Structural)]
pub enum EventKind {
    /// Sets the tempo, in microseconds per quarter note.
    Tempo(u32),
    NoteOn { channel: u8, key: u8, vel: u8 },
    NoteOff { channel: u8, key: u8, vel: u8 },
    EndOfTrack,
}

/// One event of a track, `delta` ticks after its predecessor.
#[derive(Clone, Copy, Debug, PartialEq, Eq, Structural)]
pub struct MidiEvent {
    pub delta: u32,
    pub kind: EventKind,
}

/// Why a song could not be generated.
#[derive(Clone, Copy, Debug, PartialEq, Eq, Structural)]
pub enum GenerationError {
    /// No song of that name is declared.
    UnknownSong,
    /// A song lists a section that is not declared.
    UnknownSection,
    /// A channel calls a pattern that is not declared.
    UnknownPattern,
    /// A section has more channels than there are tracks.
    TooManyChannels,
    /// A duration `[num:den]` with `den < num`.
    NegativeDuration,
    /// The running time would pass `MAX_TICK`.
    TimeOverflow,
    /// The encoder refused the tracks.
    Encoding,
}

/// The pitch of a root: `C` is 60, each semitone one more, `B` is 71.
pub open spec fn root_pitch(r: Seq<char>) -> Option<u8> {
    let natural = if r.len() > 0 {
        if r[0] == 'C' {
            Some(60u8)
        } else if r[0] == 'D' {
            Some(62u8)
        } else if r[0] == 'E' {
            Some(64u8)
        } else if r[0] == 'F' {
            Some(65u8)
        } else if r[0] == 'G' {
            Some(67u8)
        } else if r[0] == 'A' {
            Some(69u8)
        } else if r[0] == 'B' {
            Some(71u8)
        } else {
            None
        }
    } else {
        None
    };
    if r.len() == 1 {
        natural
    } else if r.len() == 2 && r[1] == '#' && r[0] != 'E' && r[0] != 'B' {
        match natural {
            Some(p) => Some((p + 1) as u8),
            None => None,
        }
    } else {
        None
    }
}

/// The pitches of a chord name, ascending: a trailing `m` (after a root) makes a
/// minor triad, otherwise a major one; an unknown root gives none.
pub open spec fn chord_pitches(name: Seq<char>) -> Option<Seq<u8>> {
    let minor = name.len() > 1 && name.last() == 'm';
    let root = if minor {
        name.drop_last()
    } else {
        name
    };
    match root_pitch(root) {
        Some(p) => Some(
            if minor {
                seq![p, (p + 3) as u8, (p + 7) as u8]
            } else {
                seq![p, (p + 4) as u8, (p + 7) as u8]
            },
        ),
        None => None,
    }
}

/// Note-on events for `pitches` (the first at `start`, the rest with it), then
/// note-off events (the first `duration` later, the rest with it).
pub open spec fn note_events(pitches: Seq<u8>, start: u32, duration: u32, vel: u8, ch: u8) -> Seq<
    MidiEvent,
> {
    Seq::new(
        pitches.len(),
        |i: int|
            MidiEvent {
                delta: if i == 0 {
                    start
                } else {
                    0
                },
                kind: EventKind::NoteOn { channel: ch, key: pitches[i], vel },
            },
    ) + Seq::new(
        pitches.len(),
        |i: int|
            MidiEvent {
                delta: if i == 0 {
                    duration
                } else {
                    0
                },
                kind: EventKind::NoteOff { channel: ch, key: pitches[i], vel: 0 },
            },
    )
}

pub open spec fn chord_events(chord: Seq<char>, start: u32, duration: u32, vel: u8, ch: u8) -> Seq<
    MidiEvent,
> {
    match chord_pitches(chord) {
        Some(ps) => note_events(ps, start, duration, vel, ch),
        None => seq![],
    }
}

fn natural_pitch(c: char) -> (r: Option<u8>)
    ensures
        r == root_pitch(seq![c]),
{
    if c == 'C' {
        Some(60)
    } else if c == 'D' {
        Some(62)
    } else if c == 'E' {
        Some(64)
    } else if c == 'F' {
        Some(65)
    } else if c == 'G' {
        Some(67)
    } else if c == 'A' {
        Some(69)
    } else if c == 'B' {
        Some(71)
    } else {
        None
    }
}

/// The pitches of a chord name, as `chord_pitches` gives them.
pub fn parse_chord(name: &str) -> (r: Option<Vec<u8>>)
    ensures
        match chord_pitches(name@) {
            Some(ps) => r matches Some(v) && v@ == ps,
            None => r is None,
        },
{
    let v = chars_of(name);
    let n = v.len();
    let minor = n > 1 && v[n - 1] == 'm';
    let root_len: usize = if minor {
        n - 1
    } else {
        n
    };
    let ghost root = if minor {
        name@.drop_last()
    } else {
        name@
    };
    assert(root =~= v@.subrange(0, root_len as int));
    let base = if root_len == 1 {
        natural_pitch(v[0])
    } else if root_len == 2 && v[1] == '#' && v[0] != 'E' && v[0] != 'B' {
        match natural_pitch(v[0]) {
            Some(p) => Some(p + 1),
            None => None,
        }
    } else {
        None
    };
    assert(base == root_pitch(root));
    match base {
        Some(p) => {
            if minor {
                Some(vec![p, p + 3, p + 7])
            } else {
                Some(vec![p, p + 4, p + 7])
            }
        },
        None => None,
    }
}

/// The track events that sound a chord.
pub fn chord_to_midi_events(
    chord: &str,
    start_time: u32,
    duration: u32,
    velocity: u8,
    channel: u8,
) -> (r: Vec<MidiEvent>)
    ensures
        r@ == chord_events(chord@, start_time, duration, velocity, channel),
{
    let notes = match parse_chord(chord) {
        Some(n) => n,
        None => {
            return Vec::new();
        },
    };
    let ghost ps = notes@;
    let mut events: Vec<MidiEvent> = Vec::new();
    let mut i: usize = 0;
    while i < notes.len()
        invariant
            notes@ == ps,
            i <= notes.len(),
            events@ =~= note_events(ps, start_time, duration, velocity, channel).subrange(0, i as int),
        decreases notes.len() - i,
    {
        let delta = if i == 0 {
            start_time
        } else {
            0
        };
        events.push(MidiEvent { delta, kind: EventKind::NoteOn { channel, key: notes[i], vel: velocity } });
        i = i + 1;
    }
    let mut j: usize = 0;
    while j < notes.len()
        invariant
            notes@ == ps,
            j <= notes.len(),
            events@ =~= note_events(ps, start_time, duration, velocity, channel).subrange(
                0,
                notes.len() + j,
            ),
        decreases notes.len() - j,
    {
        let delta = if j == 0 {
            duration
        } else {
            0
        };
        events.push(MidiEvent { delta, kind: EventKind::NoteOff { channel, key: notes[j], vel: 0 } });
        j = j + 1;
    }
    events
}

/// The duration of `[num:den]` in ticks: `120 * (den - num)`, negative when `den < num`.
pub fn duration_ticks(num: u8, den: u8) -> (r: i32)
    ensures
        r == 120 * (den - num),
{
    120 * (den as i32 - num as i32)
}

/// The chord, duration and velocity of a pattern event; a rest is the chord `Am` at velocity zero.
pub open spec fn event_parts(ev: PatternEventV) -> (Seq<char>, (u8, u8), u8) {
    match ev {
        PatternEventV::Note { chord, duration } => (chord, duration, NOTE_VELOCITY),
        PatternEventV::Wait { duration } => ("Am"@, duration, 0u8),
    }
}

/// The events of a pattern from event `i` on, played on `ch` from time `time`, and
/// the time after them. Event `[num:den]` starts at `time + num`, lasts
/// `120 * (den - num)` ticks and moves the time to `time + (time + den)`.
pub open spec fn pattern_from(evs: Seq<PatternEventV>, i: int, time: int, ch: u8) -> Result<
    (Seq<MidiEvent>, int),
    GenerationError,
>
    decreases evs.len() - i,
{
    if i < 0 || i >= evs.len() {
        Ok((seq![], time))
    } else {
        let (chord, (num, den), vel) = event_parts(evs[i]);
        if den < num {
            Err(GenerationError::NegativeDuration)
        } else if time + (time + den) > MAX_TICK {
            Err(GenerationError::TimeOverflow)
        } else {
            let here = chord_events(
                chord,
                (time + num) as u32,
                (120 * (den - num)) as u32,
                vel,
                ch,
            );
            match pattern_from(evs, i + 1, time + (time + den), ch) {
                Ok((rest, end)) => Ok((here + rest, end)),
                Err(e) => Err(e),
            }
        }
    }
}

/// Event `i` of a pattern `[num:den]`: with `den < num` generation fails with
/// `NegativeDuration`; otherwise, when generation succeeds, its output starts
/// with the event's chord, note-ons at `time + num` and the first note-off
/// `120 * (den - num)` ticks later, whatever the cursor `time`.
pub proof fn lemma_event_ticks(evs: Seq<PatternEventV>, i: int, time: int, ch: u8)
    requires
        0 <= i < evs.len(),
        0 <= time,
    ensures
        ({
            let (chord, (num, den), vel) = event_parts(evs[i]);
            &&& den < num ==> pattern_from(evs, i, time, ch) == Err::<(Seq<MidiEvent>, int), GenerationError>(
                GenerationError::NegativeDuration,
            )
            &&& (pattern_from(evs, i, time, ch) matches Ok((out, _)) ==> {
                let here = chord_events(chord, (time + num) as u32, (120 * (den - num)) as u32, vel, ch);
                &&& num <= den
                &&& out.subrange(0, here.len() as int) == here
                &&& (chord_pitches(chord) matches Some(ps) ==> here[ps.len() as int].delta == 120 * (den - num)
                    && here[0].delta == time + num)
            })
        }),
{
    let (chord, (num, den), vel) = event_parts(evs[i]);
    if den >= num && time + (time + den) <= MAX_TICK {
        let here = chord_events(chord, (time + num) as u32, (120 * (den - num)) as u32, vel, ch);
        if let Ok((rest, _)) = pattern_from(evs, i + 1, time + (time + den), ch) {
            assert((here + rest).subrange(0, here.len() as int) =~= here);
        }
    }
}

/// The index of the last name equal to `name`, or -1.
pub open spec fn last_index(names: Seq<Seq<char>>, name: Seq<char>) -> int
    decreases names.len(),
{
    if names.len() == 0 {
        -1
    } else if names.last() == name {
        names.len() - 1
    } else {
        last_index(names.drop_last(), name)
    }
}

/// The declarations of a program sorted by kind, each kind in declaration order.
pub struct MidiGen {
    songs: Vec<Song>,
    sections: Vec<Section>,
    instruments: Vec<Instrument>,
    patterns: Vec<Pattern>,
}

pub struct TablesV {
    pub songs: Seq<SongV>,
    pub sections: Seq<SectionV>,
    pub instruments: Seq<InstrumentV>,
    pub patterns: Seq<PatternV>,
}

/// The declarations of `ds`, sorted by kind.
pub open spec fn tables_of(ds: Seq<TopLevelV>) -> TablesV
    decreases ds.len(),
{
    if ds.len() == 0 {
        TablesV { songs: seq![], sections: seq![], instruments: seq![], patterns: seq![] }
    } else {
        let t = tables_of(ds.drop_last());
        match ds.last() {
            TopLevelV::Song(s) => TablesV { songs: t.songs.push(s), ..t },
            TopLevelV::Section(s) => TablesV { sections: t.sections.push(s), ..t },
            TopLevelV::Instrument(i) => TablesV { instruments: t.instruments.push(i), ..t },
            TopLevelV::Pattern(p) => TablesV { patterns: t.patterns.push(p), ..t },
        }
    }
}

/// The pattern that a name resolves to: the last one declared under it.
pub open spec fn find_pattern(tables: TablesV, name: Seq<char>) -> Option<PatternV> {
    let k = last_index(tables.patterns.map_values(|p: PatternV| p.name), name);
    if k >= 0 {
        Some(tables.patterns[k])
    } else {
        None
    }
}

/// The section that a name resolves to: the last one declared under it.
pub open spec fn find_section(tables: TablesV, name: Seq<char>) -> Option<SectionV> {
    let k = last_index(tables.sections.map_values(|s: SectionV| s.name), name);
    if k >= 0 {
        Some(tables.sections[k])
    } else {
        None
    }
}

/// The song that a name resolves to: the last one declared under it.
pub open spec fn find_song(tables: TablesV, name: Seq<char>) -> Option<SongV> {
    let k = last_index(tables.songs.map_values(|s: SongV| s.name), name);
    if k >= 0 {
        Some(tables.songs[k])
    } else {
        None
    }
}

/// A channel's pattern calls from call `j` on, each starting at `base`, appended
/// to `track`; the channel ends at the later of `base` and the last call's end
/// (`local` until a call has been made).
pub open spec fn calls_gen(
    tables: TablesV,
    calls: Seq<Seq<char>>,
    j: int,
    base: int,
    local: int,
    ch: u8,
    track: Seq<MidiEvent>,
) -> Result<(Seq<MidiEvent>, int), GenerationError>
    decreases calls.len() - j,
{
    if j < 0 || j >= calls.len() {
        Ok((track, local))
    } else {
        match find_pattern(tables, calls[j]) {
            None => Err(GenerationError::UnknownPattern),
            Some(p) => match pattern_from(p.events, 0, base, ch) {
                Err(e) => Err(e),
                Ok((evs, end)) => calls_gen(
                    tables,
                    calls,
                    j + 1,
                    base,
                    if base >= end {
                        base
                    } else {
                        end
                    },
                    ch,
                    track + evs,
                ),
            },
        }
    }
}

/// The channels of a section from channel `i` on: channel `i` plays on track `i`,
/// from the time at which the channel before it ended.
pub open spec fn channels_gen(
    tables: TablesV,
    chs: Seq<ChannelV>,
    i: int,
    time: int,
    tracks: Seq<Seq<MidiEvent>>,
) -> Result<(Seq<Seq<MidiEvent>>, int), GenerationError>
    decreases chs.len() - i,
{
    if i < 0 || i >= chs.len() {
        Ok((tracks, time))
    } else if i >= MAX_NUMBER_OF_CHANNELS {
        Err(GenerationError::TooManyChannels)
    } else {
        match calls_gen(tables, chs[i].pattern_calls, 0, time, 0, i as u8, tracks[i]) {
            Err(e) => Err(e),
            Ok((track, t2)) => channels_gen(tables, chs, i + 1, t2, tracks.update(i, track)),
        }
    }
}

/// A song's sections from section `k` on, one after the other.
pub open spec fn sections_gen(
    tables: TablesV,
    names: Seq<Seq<char>>,
    k: int,
    time: int,
    tracks: Seq<Seq<MidiEvent>>,
) -> Result<(Seq<Seq<MidiEvent>>, int), GenerationError>
    decreases names.len() - k,
{
    if k < 0 || k >= names.len() {
        Ok((tracks, time))
    } else {
        match find_section(tables, names[k]) {
            None => Err(GenerationError::UnknownSection),
            Some(s) => match channels_gen(tables, s.channels, 0, time, tracks) {
                Err(e) => Err(e),
                Ok((tracks2, t2)) => sections_gen(tables, names, k + 1, t2, tracks2),
            },
        }
    }
}

pub open spec fn tempo_event() -> MidiEvent {
    MidiEvent { delta: 0, kind: EventKind::Tempo(TEMPO) }
}

pub open spec fn end_event() -> MidiEvent {
    MidiEvent { delta: 0, kind: EventKind::EndOfTrack }
}

/// The tracks of a song: each starts with the tempo, gets its channel's events
/// and ends with an end-of-track marker.
pub open spec fn song_tracks(tables: TablesV, song: SongV) -> Result<Seq<Seq<MidiEvent>>, GenerationError> {
    match sections_gen(
        tables,
        song.entry_sections,
        0,
        0,
        Seq::new(MAX_NUMBER_OF_CHANNELS as nat, |i: int| seq![tempo_event()]),
    ) {
        Ok((tracks, _)) => Ok(tracks.map_values(|t: Seq<MidiEvent>| t.push(end_event()))),
        Err(e) => Err(e),
    }
}

pub open spec fn tracks_view(v: Seq<Vec<MidiEvent>>) -> Seq<Seq<MidiEvent>> {
    v.map_values(|t: Vec<MidiEvent>| t@)
}

pub proof fn lemma_last_index_step(names: Seq<Seq<char>>, k: int, name: Seq<char>)
    requires
        0 < k <= names.len(),
    ensures
        last_index(names.subrange(0, k), name) == if names[k - 1] == name {
            k - 1
        } else {
            last_index(names.subrange(0, k - 1), name)
        },
{
    assert(names.subrange(0, k).drop_last() =~= names.subrange(0, k - 1));
}

pub proof fn lemma_pattern_end(evs: Seq<PatternEventV>, i: int, time: int, ch: u8)
    requires
        0 <= time <= MAX_TICK,
    ensures
        pattern_from(evs, i, time, ch) matches Ok((_, end)) ==> time <= end <= MAX_TICK,
    decreases evs.len() - i,
{
    if 0 <= i < evs.len() {
        let (chord, (num, den), vel) = event_parts(evs[i]);
        if den >= num && time + (time + den) <= MAX_TICK {
            lemma_pattern_end(evs, i + 1, time + (time + den), ch);
        }
    }
}

pub proof fn lemma_calls_end(
    tables: TablesV,
    calls: Seq<Seq<char>>,
    j: int,
    base: int,
    local: int,
    ch: u8,
    track: Seq<MidiEvent>,
)
    requires
        0 <= base <= MAX_TICK,
        0 <= local <= MAX_TICK,
    ensures
        calls_gen(tables, calls, j, base, local, ch, track) matches Ok((_, end)) ==> 0 <= end
            <= MAX_TICK,
    decreases calls.len() - j,
{
    if 0 <= j < calls.len() {
        if let Some(p) = find_pattern(tables, calls[j]) {
            lemma_pattern_end(p.events, 0, base, ch);
            if let Ok((evs, end)) = pattern_from(p.events, 0, base, ch) {
                let l2 = if base >= end {
                    base
                } else {
                    end
                };
                lemma_calls_end(tables, calls, j + 1, base, l2, ch, track + evs);
            }
        }
    }
}

pub proof fn lemma_channels_end(
    tables: TablesV,
    chs: Seq<ChannelV>,
    i: int,
    time: int,
    tracks: Seq<Seq<MidiEvent>>,
)
    requires
        0 <= time <= MAX_TICK,
        tracks.len() == MAX_NUMBER_OF_CHANNELS,
    ensures
        channels_gen(tables, chs, i, time, tracks) matches Ok((ts, end)) ==> 0 <= end <= MAX_TICK
            && ts.len() == tracks.len(),
    decreases chs.len() - i,
{
    if 0 <= i < chs.len() && i < MAX_NUMBER_OF_CHANNELS {
        lemma_calls_end(tables, chs[i].pattern_calls, 0, time, 0, i as u8, tracks[i]);
        if let Ok((track, t2)) = calls_gen(
            tables,
            chs[i].pattern_calls,
            0,
            time,
            0,
            i as u8,
            tracks[i],
        ) {
            lemma_channels_end(tables, chs, i + 1, t2, tracks.update(i, track));
        }
    }
}

proof fn lemma_concat_encodable(a: Seq<MidiEvent>, b: Seq<MidiEvent>)
    requires
        all_encodable(a),
        all_encodable(b),
    ensures
        all_encodable(a + b),
{
    assert forall|j: int| 0 <= j < (a + b).len() implies encodable(#[trigger] (a + b)[j]) by {
        if j >= a.len() {
            assert((a + b)[j] == b[j - a.len()]);
        }
    }
}

proof fn lemma_chord_encodable(chord: Seq<char>, start: u32, duration: u32, vel: u8, ch: u8)
    requires
        start <= MAX_TICK,
        duration <= MAX_TICK,
        ch < 16,
        vel < 128,
    ensures
        all_encodable(chord_events(chord, start, duration, vel, ch)),
{
    if let Some(ps) = chord_pitches(chord) {
        assert(forall|i: int| 0 <= i < ps.len() ==> #[trigger] ps[i] < 128);
        let evs = note_events(ps, start, duration, vel, ch);
        assert forall|j: int| 0 <= j < evs.len() implies encodable(#[trigger] evs[j]) by {
            if j < ps.len() {
                assert(evs[j].kind == EventKind::NoteOn { channel: ch, key: ps[j], vel });
            } else {
                assert(evs[j].kind == EventKind::NoteOff { channel: ch, key: ps[j - ps.len()], vel: 0 });
            }
        }
    }
}

proof fn lemma_pattern_encodable(evs: Seq<PatternEventV>, i: int, time: int, ch: u8)
    requires
        0 <= time <= MAX_TICK,
        ch < 16,
    ensures
        pattern_from(evs, i, time, ch) matches Ok((out, _)) ==> all_encodable(out),
    decreases evs.len() - i,
{
    if 0 <= i < evs.len() {
        let (chord, (num, den), vel) = event_parts(evs[i]);
        if den >= num && time + (time + den) <= MAX_TICK {
            lemma_chord_encodable(chord, (time + num) as u32, (120 * (den - num)) as u32, vel, ch);
            lemma_pattern_encodable(evs, i + 1, time + (time + den), ch);
            if let Ok((rest, _)) = pattern_from(evs, i + 1, time + (time + den), ch) {
                lemma_concat_encodable(
                    chord_events(chord, (time + num) as u32, (120 * (den - num)) as u32, vel, ch),
                    rest,
                );
            }
        }
    } else {
        assert(all_encodable(seq![]));
    }
}

proof fn lemma_calls_encodable(
    tables: TablesV,
    calls: Seq<Seq<char>>,
    j: int,
    base: int,
    local: int,
    ch: u8,
    track: Seq<MidiEvent>,
)
    requires
        0 <= base <= MAX_TICK,
        ch < 16,
        all_encodable(track),
    ensures
        calls_gen(tables, calls, j, base, local, ch, track) matches Ok((out, _)) ==> all_encodable(out),
    decreases calls.len() - j,
{
    if 0 <= j < calls.len() {
        if let Some(p) = find_pattern(tables, calls[j]) {
            lemma_pattern_encodable(p.events, 0, base, ch);
            if let Ok((evs, end)) = pattern_from(p.events, 0, base, ch) {
                lemma_concat_encodable(track, evs);
                let l2 = if base >= end {
                    base
                } else {
                    end
                };
                lemma_calls_encodable(tables, calls, j + 1, base, l2, ch, track + evs);
            }
        }
    }
}

pub open spec fn tracks_encodable(ts: Seq<Seq<MidiEvent>>) -> bool {
    ts.len() == MAX_NUMBER_OF_CHANNELS && forall|i: int| 0 <= i < ts.len() ==> all_encodable(#[trigger] ts[i])
}

proof fn lemma_channels_encodable(
    tables: TablesV,
    chs: Seq<ChannelV>,
    i: int,
    time: int,
    tracks: Seq<Seq<MidiEvent>>,
)
    requires
        0 <= time <= MAX_TICK,
        tracks_encodable(tracks),
    ensures
        channels_gen(tables, chs, i, time, tracks) matches Ok((ts, _)) ==> tracks_encodable(ts),
    decreases chs.len() - i,
{
    if 0 <= i < chs.len() && i < MAX_NUMBER_OF_CHANNELS {
        lemma_calls_end(tables, chs[i].pattern_calls, 0, time, 0, i as u8, tracks[i]);
        lemma_calls_encodable(tables, chs[i].pattern_calls, 0, time, 0, i as u8, tracks[i]);
        if let Ok((track, t2)) = calls_gen(tables, chs[i].pattern_calls, 0, time, 0, i as u8, tracks[i]) {
            let next = tracks.update(i, track);
            assert forall|k: int| 0 <= k < next.len() implies all_encodable(#[trigger] next[k]) by {
                if k != i {
                    assert(next[k] == tracks[k]);
                }
            }
            lemma_channels_encodable(tables, chs, i + 1, t2, next);
        }
    }
}

proof fn lemma_sections_encodable(
    tables: TablesV,
    names: Seq<Seq<char>>,
    k: int,
    time: int,
    tracks: Seq<Seq<MidiEvent>>,
)
    requires
        0 <= time <= MAX_TICK,
        tracks_encodable(tracks),
    ensures
        sections_gen(tables, names, k, time, tracks) matches Ok((ts, _)) ==> tracks_encodable(ts),
    decreases names.len() - k,
{
    if 0 <= k < names.len() {
        if let Some(s) = find_section(tables, names[k]) {
            lemma_channels_end(tables, s.channels, 0, time, tracks);
            lemma_channels_encodable(tables, s.channels, 0, time, tracks);
            if let Ok((tracks2, t2)) = channels_gen(tables, s.channels, 0, time, tracks) {
                lemma_sections_encodable(tables, names, k + 1, t2, tracks2);
            }
        }
    }
}

/// Every event of a song's tracks can be carried by the file format: a song
/// that generates fits a file as soon as its tracks are short enough.
pub proof fn lemma_song_tracks_encodable(tables: TablesV, song: SongV)
    ensures
        song_tracks(tables, song) matches Ok(ts) ==> tracks_encodable(ts) && (tracks_fit(ts)
            <==> short_tracks(ts)),
{
    let start = Seq::new(MAX_NUMBER_OF_CHANNELS as nat, |i: int| seq![tempo_event()]);
    assert forall|i: int| 0 <= i < start.len() implies all_encodable(#[trigger] start[i]) by {
        assert(start[i] == seq![tempo_event()]);
    }
    lemma_sections_encodable(tables, song.entry_sections, 0, 0, start);
    if let Ok((ts, _)) = sections_gen(tables, song.entry_sections, 0, 0, start) {
        let fin = ts.map_values(|t: Seq<MidiEvent>| t.push(end_event()));
        assert forall|i: int| 0 <= i < fin.len() implies all_encodable(#[trigger] fin[i]) by {
            assert(fin[i] == ts[i].push(end_event()));
            lemma_concat_encodable(ts[i], seq![end_event()]);
            assert(ts[i].push(end_event()) =~= ts[i] + seq![end_event()]);
        }
        assert(fin.len() == MAX_NUMBER_OF_CHANNELS);
    }
}

/// Every track is shorter than `MAX_TRACK_EVENTS`.
pub open spec fn short_tracks(ts: Seq<Seq<MidiEvent>>) -> bool {
    forall|i: int| 0 <= i < ts.len() ==> (#[trigger] ts[i]).len() < MAX_TRACK_EVENTS
}

/// The file of the song that a name resolves to: its tracks encoded at
/// `TICKS_PER_QUARTER` ticks per quarter note.
pub open spec fn song_file(tables: TablesV, name: Seq<char>) -> Result<Seq<u8>, GenerationError> {
    match find_song(tables, name) {
        None => Err(GenerationError::UnknownSong),
        Some(s) => match song_tracks(tables, s) {
            Err(e) => Err(e),
            Ok(ts) => if tracks_fit(ts) {
                Ok(smf_bytes(ts, TICKS_PER_QUARTER))
            } else {
                Err(GenerationError::Encoding)
            },
        },
    }
}

/// The file of the `k`-th declared song.
pub open spec fn song_result_file(tables: TablesV, k: int) -> Result<Seq<u8>, GenerationError> {
    song_file(tables, tables.songs[k].name)
}

/// The name followed by `.mid`.
fn with_mid_extension(name: &str) -> (r: String)
    ensures
        r@ == name@ + ".mid"@,
{
    let mut v = chars_of(name);
    v.push('.');
    v.push('m');
    v.push('i');
    v.push('d');
    proof {
        reveal_strlit(".mid");
        assert(v@ =~= name@ + ".mid"@);
    }
    string_of(v.as_slice())
}

/// The name of the file that holds a song.
pub open spec fn song_file_name(name: Seq<char>) -> Seq<char> {
    name + ".mid"@
}

/// A generated song: the file name and the encoded file.
pub struct SongFile {
    pub file_name: String,
    pub bytes: Vec<u8>,
}

impl View for MidiGen {
    type V = TablesV;

    closed spec fn view(&self) -> TablesV {
        TablesV {
            songs: self.songs@.map_values(|s: Song| s@),
            sections: self.sections@.map_values(|s: Section| s@),
            instruments: self.instruments@.map_values(|i: Instrument| i@),
            patterns: self.patterns@.map_values(|p: Pattern| p@),
        }
    }
}

impl MidiGen {
    /// Sorts the declarations by kind.
    pub fn new(ast: &[TopLevel]) -> (r: MidiGen)
        ensures
            r@ == tables_of(ast@.map_values(|d: TopLevel| d@)),
    {
        let ghost ds = ast@.map_values(|d: TopLevel| d@);
        let mut r = MidiGen {
            songs: Vec::new(),
            sections: Vec::new(),
            instruments: Vec::new(),
            patterns: Vec::new(),
        };
        assert(ds.subrange(0, 0).len() == 0);
        assert(r@.songs =~= seq![]);
        assert(r@.sections =~= seq![]);
        assert(r@.instruments =~= seq![]);
        assert(r@.patterns =~= seq![]);
        let mut i: usize = 0;
        while i < ast.len()
            invariant
                i <= ast.len(),
                ds == ast@.map_values(|d: TopLevel| d@),
                r@ == tables_of(ds.subrange(0, i as int)),
            decreases ast.len() - i,
        {
            let ghost before = r@;
            match &ast[i] {
                TopLevel::Song(song) => {
                    r.songs.push(song.copy());
                    assert(r@.songs =~= before.songs.push(song@));
                },
                TopLevel::Pattern(pattern) => {
                    r.patterns.push(pattern.copy());
                    assert(r@.patterns =~= before.patterns.push(pattern@));
                },
                TopLevel::Section(section) => {
                    r.sections.push(section.copy());
                    assert(r@.sections =~= before.sections.push(section@));
                },
                TopLevel::Instrument(instrument) => {
                    r.instruments.push(instrument.copy());
                    assert(r@.instruments =~= before.instruments.push(instrument@));
                },
            }
            assert(ds.subrange(0, i + 1).drop_last() =~= ds.subrange(0, i as int));
            i = i + 1;
        }
        assert(ds.subrange(0, i as int) =~= ds);
        r
    }

    pub fn song_count(&self) -> (r: usize)
        ensures
            r == self@.songs.len(),
    {
        self.songs.len()
    }

    pub fn section_count(&self) -> (r: usize)
        ensures
            r == self@.sections.len(),
    {
        self.sections.len()
    }

    pub fn instrument_count(&self) -> (r: usize)
        ensures
            r == self@.instruments.len(),
    {
        self.instruments.len()
    }

    pub fn pattern_count(&self) -> (r: usize)
        ensures
            r == self@.patterns.len(),
    {
        self.patterns.len()
    }

    fn find_pattern(&self, name: &String) -> (r: Option<&Pattern>)
        ensures
            match find_pattern(self@, name@) {
                Some(p) => r matches Some(q) && q@ == p,
                None => r is None,
            },
    {
        let ghost names = self@.patterns.map_values(|p: PatternV| p.name);
        let mut k: usize = self.patterns.len();
        assert(names.subrange(0, k as int) =~= names);
        while k > 0
            invariant
                k <= self.patterns.len(),
                names == self@.patterns.map_values(|p: PatternV| p.name),
                last_index(names, name@) == last_index(names.subrange(0, k as int), name@),
            decreases k,
        {
            proof {
                lemma_last_index_step(names, k as int, name@);
            }
            if self.patterns[k - 1].name == *name {
                return Some(&self.patterns[k - 1]);
            }
            k = k - 1;
        }
        None
    }

    fn find_section(&self, name: &String) -> (r: Option<&Section>)
        ensures
            match find_section(self@, name@) {
                Some(s) => r matches Some(q) && q@ == s,
                None => r is None,
            },
    {
        let ghost names = self@.sections.map_values(|s: SectionV| s.name);
        let mut k: usize = self.sections.len();
        assert(names.subrange(0, k as int) =~= names);
        while k > 0
            invariant
                k <= self.sections.len(),
                names == self@.sections.map_values(|s: SectionV| s.name),
                last_index(names, name@) == last_index(names.subrange(0, k as int), name@),
            decreases k,
        {
            proof {
                lemma_last_index_step(names, k as int, name@);
            }
            if self.sections[k - 1].name == *name {
                return Some(&self.sections[k - 1]);
            }
            k = k - 1;
        }
        None
    }

    fn find_song(&self, name: &String) -> (r: Option<&Song>)
        ensures
            match find_song(self@, name@) {
                Some(s) => r matches Some(q) && q@ == s,
                None => r is None,
            },
    {
        let ghost names = self@.songs.map_values(|s: SongV| s.name);
        let mut k: usize = self.songs.len();
        assert(names.subrange(0, k as int) =~= names);
        while k > 0
            invariant
                k <= self.songs.len(),
                names == self@.songs.map_values(|s: SongV| s.name),
                last_index(names, name@) == last_index(names.subrange(0, k as int), name@),
            decreases k,
        {
            proof {
                lemma_last_index_step(names, k as int, name@);
            }
            if self.songs[k - 1].name == *name {
                return Some(&self.songs[k - 1]);
            }
            k = k - 1;
        }
        None
    }

    /// Plays a pattern on a channel from `time`, appending its events to `track`.
    fn generate_pattern(&self, pattern: &Pattern, channel: u8, time: u32, track: &mut Vec<MidiEvent>) -> (r: Result<u32, GenerationError>)
        requires
            time <= MAX_TICK,
        ensures
            match pattern_from(pattern@.events, 0, time as int, channel) {
                Ok((evs, end)) => r == Ok::<u32, GenerationError>(end as u32) && final(track)@ == old(track)@ + evs,
                Err(e) => r == Err::<u32, GenerationError>(e),
            },
    {
        let ghost evs = pattern@.events;
        let ghost t0 = time as int;
        let mut t: u32 = time;
        let mut i: usize = 0;
        while i < pattern.events.len()
            invariant
                evs == pattern@.events,
                t0 == time as int,
                i <= pattern.events.len(),
                t <= MAX_TICK,
                pattern_from(evs, 0, t0, channel) == match pattern_from(evs, i as int, t as int, channel) {
                    Ok((rest, end)) => Ok((track@.subrange(old(track)@.len() as int, track@.len() as int) + rest, end)),
                    Err(e) => Err(e),
                },
                track@.len() >= old(track)@.len(),
                track@.subrange(0, old(track)@.len() as int) == old(track)@,
            decreases pattern.events.len() - i,
        {
            let ghost before = track@;
            let (chord, duration, vel) = match &pattern.events[i] {
                PatternEvent::Note { chord, duration } => (chord.as_str(), *duration, NOTE_VELOCITY),
                PatternEvent::Wait { duration } => ("Am", *duration, 0u8),
            };
            assert((chord@, duration, vel) == event_parts(evs[i as int]));
            let (num, den) = duration;
            if den < num {
                assert(pattern_from(evs, i as int, t as int, channel) == Err::<(Seq<MidiEvent>, int), GenerationError>(GenerationError::NegativeDuration));
                assert(pattern_from(evs, 0, t0, channel) == Err::<(Seq<MidiEvent>, int), GenerationError>(GenerationError::NegativeDuration));
                return Err(GenerationError::NegativeDuration);
            }
            if t as u64 + (t as u64 + den as u64) > MAX_TICK as u64 {
                assert(pattern_from(evs, i as int, t as int, channel) == Err::<(Seq<MidiEvent>, int), GenerationError>(GenerationError::TimeOverflow));
                assert(pattern_from(evs, 0, t0, channel) == Err::<(Seq<MidiEvent>, int), GenerationError>(GenerationError::TimeOverflow));
                return Err(GenerationError::TimeOverflow);
            }
            let mut here = chord_to_midi_events(chord, t + num as u32, 120 * (den as u32 - num as u32), vel, channel);
            let ghost herev = here@;
            track.append(&mut here);
            t = t + (t + den as u32);
            i = i + 1;
            proof {
                let n0 = old(track)@.len() as int;
                assert(track@.subrange(n0, track@.len() as int) =~= before.subrange(n0, before.len() as int) + herev);
                assert(track@.subrange(0, n0) =~= before.subrange(0, n0));
                match pattern_from(evs, i as int, t as int, channel) {
                    Ok((rest, end)) => {
                        assert(before.subrange(n0, before.len() as int) + herev + rest =~= before.subrange(n0, before.len() as int) + (herev + rest));
                    },
                    Err(e) => {},
                }
            }
        }
        proof {
            let n0 = old(track)@.len() as int;
            assert(track@ =~= old(track)@ + track@.subrange(n0, track@.len() as int));
            assert(track@.subrange(n0, track@.len() as int) + seq![] =~= track@.subrange(n0, track@.len() as int));
        }
        Ok(t)
    }

    /// Plays a channel's pattern calls, each from `base`, appending to `track`.
    fn generate_channel(&self, channel: &Channel, index: u8, base: u32, track: &mut Vec<MidiEvent>) -> (r: Result<u32, GenerationError>)
        requires
            base <= MAX_TICK,
        ensures
            match calls_gen(self@, channel@.pattern_calls, 0, base as int, 0, index, old(track)@) {
                Ok((tr, end)) => r == Ok::<u32, GenerationError>(end as u32) && final(track)@ == tr,
                Err(e) => r == Err::<u32, GenerationError>(e),
            },
    {
        let ghost calls = channel@.pattern_calls;
        let mut local: u32 = 0;
        let mut j: usize = 0;
        while j < channel.pattern_calls.len()
            invariant
                calls == channel@.pattern_calls,
                base <= MAX_TICK,
                local <= MAX_TICK,
                j <= channel.pattern_calls.len(),
                calls_gen(self@, calls, 0, base as int, 0, index, old(track)@) == calls_gen(self@, calls, j as int, base as int, local as int, index, track@),
            decreases channel.pattern_calls.len() - j,
        {
            let pattern = match self.find_pattern(&channel.pattern_calls[j]) {
                Some(p) => p,
                None => {
                    return Err(GenerationError::UnknownPattern);
                },
            };
            proof {
                lemma_pattern_end(pattern@.events, 0, base as int, index);
            }
            let end = match self.generate_pattern(pattern, index, base, track) {
                Ok(end) => end,
                Err(e) => {
                    return Err(e);
                },
            };
            local = if base >= end {
                base
            } else {
                end
            };
            j = j + 1;
        }
        Ok(local)
    }

    /// Plays a section's channels, channel `i` on track `i`, from `time`.
    fn generate_section(&self, section: &Section, time: u32, tracks: &mut Vec<Vec<MidiEvent>>) -> (r: Result<u32, GenerationError>)
        requires
            time <= MAX_TICK,
            old(tracks)@.len() == MAX_NUMBER_OF_CHANNELS,
        ensures
            final(tracks)@.len() == MAX_NUMBER_OF_CHANNELS,
            match channels_gen(self@, section@.channels, 0, time as int, tracks_view(old(tracks)@)) {
                Ok((ts, end)) => r == Ok::<u32, GenerationError>(end as u32) && tracks_view(final(tracks)@) == ts,
                Err(e) => r == Err::<u32, GenerationError>(e),
            },
    {
        let ghost chs = section@.channels;
        let mut t: u32 = time;
        let mut i: usize = 0;
        while i < section.channels.len()
            invariant
                chs == section@.channels,
                t <= MAX_TICK,
                i <= section.channels.len(),
                tracks@.len() == MAX_NUMBER_OF_CHANNELS,
                channels_gen(self@, chs, 0, time as int, tracks_view(old(tracks)@)) == channels_gen(self@, chs, i as int, t as int, tracks_view(tracks@)),
            decreases section.channels.len() - i,
        {
            if i >= MAX_NUMBER_OF_CHANNELS {
                return Err(GenerationError::TooManyChannels);
            }
            let ghost before = tracks_view(tracks@);
            let mut track: Vec<MidiEvent> = Vec::new();
            tracks.set_and_swap(i, &mut track);
            proof {
                lemma_calls_end(self@, chs[i as int].pattern_calls, 0, t as int, 0, i as u8, track@);
            }
            let res = self.generate_channel(&section.channels[i], i as u8, t, &mut track);
            tracks.set_and_swap(i, &mut track);
            match res {
                Ok(end) => {
                    t = end;
                },
                Err(e) => {
                    return Err(e);
                },
            }
            proof {
                assert(tracks_view(tracks@) =~= before.update(i as int, tracks@[i as int]@));
            }
            i = i + 1;
        }
        Ok(t)
    }

    /// The tracks of a song.
    pub fn generate_tracks(&self, song: &Song) -> (r: Result<Vec<Vec<MidiEvent>>, GenerationError>)
        ensures
            match song_tracks(self@, song@) {
                Ok(ts) => r matches Ok(v) && tracks_view(v@) == ts,
                Err(e) => r == Err::<Vec<Vec<MidiEvent>>, GenerationError>(e),
            },
    {
        let mut tracks: Vec<Vec<MidiEvent>> = Vec::new();
        let mut c: usize = 0;
        while c < MAX_NUMBER_OF_CHANNELS
            invariant
                c <= MAX_NUMBER_OF_CHANNELS,
                tracks@.len() == c,
                forall|i: int| 0 <= i < c ==> #[trigger] tracks@[i]@ == seq![tempo_event()],
            decreases MAX_NUMBER_OF_CHANNELS - c,
        {
            let mut track: Vec<MidiEvent> = Vec::new();
            track.push(MidiEvent { delta: 0, kind: EventKind::Tempo(TEMPO) });
            assert(track@ =~= seq![tempo_event()]);
            tracks.push(track);
            c = c + 1;
        }
        assert(tracks_view(tracks@) =~= Seq::new(
            MAX_NUMBER_OF_CHANNELS as nat,
            |i: int| seq![tempo_event()],
        ));
        let ghost names = song@.entry_sections;
        let ghost start = tracks_view(tracks@);
        let mut t: u32 = 0;
        let mut k: usize = 0;
        while k < song.entry_sections.len()
            invariant
                names == song@.entry_sections,
                start == Seq::new(MAX_NUMBER_OF_CHANNELS as nat, |i: int| seq![tempo_event()]),
                t <= MAX_TICK,
                k <= song.entry_sections.len(),
                tracks@.len() == MAX_NUMBER_OF_CHANNELS,
                sections_gen(self@, names, 0, 0, start) == sections_gen(self@, names, k as int, t as int, tracks_view(tracks@)),
            decreases song.entry_sections.len() - k,
        {
            let section = match self.find_section(&song.entry_sections[k]) {
                Some(s) => s,
                None => {
                    return Err(GenerationError::UnknownSection);
                },
            };
            proof {
                lemma_channels_end(self@, section@.channels, 0, t as int, tracks_view(tracks@));
            }
            match self.generate_section(section, t, &mut tracks) {
                Ok(end) => {
                    t = end;
                },
                Err(e) => {
                    return Err(e);
                },
            }
            k = k + 1;
        }
        let ghost full = tracks_view(tracks@);
        let mut c: usize = 0;
        while c < MAX_NUMBER_OF_CHANNELS
            invariant
                c <= MAX_NUMBER_OF_CHANNELS,
                tracks@.len() == MAX_NUMBER_OF_CHANNELS,
                full.len() == MAX_NUMBER_OF_CHANNELS,
                forall|i: int| 0 <= i < c ==> #[trigger] tracks@[i]@ == full[i].push(end_event()),
                forall|i: int| c <= i < MAX_NUMBER_OF_CHANNELS ==> #[trigger] tracks@[i]@ == full[i],
            decreases MAX_NUMBER_OF_CHANNELS - c,
        {
            let mut track: Vec<MidiEvent> = Vec::new();
            tracks.set_and_swap(c, &mut track);
            track.push(MidiEvent { delta: 0, kind: EventKind::EndOfTrack });
            tracks.set_and_swap(c, &mut track);
            c = c + 1;
        }
        assert(tracks_view(tracks@) =~= full.map_values(|t: Seq<MidiEvent>| t.push(end_event())));
        Ok(tracks)
    }

    /// Generates the named song (its last declaration) and encodes it.
    pub fn generate_song(&self, song_name: &String) -> (r: Result<SongFile, GenerationError>)
        ensures
            match song_file(self@, song_name@) {
                Ok(b) => r matches Ok(f) && f.file_name@ == song_file_name(song_name@) && f.bytes@ == b,
                Err(e) => r == Err::<SongFile, GenerationError>(e),
            },
            find_song(self@, song_name@) matches Some(s) && song_tracks(self@, s) matches Ok(ts)
                && short_tracks(ts) ==> r is Ok,
    {
        let song = match self.find_song(song_name) {
            Some(s) => s,
            None => {
                return Err(GenerationError::UnknownSong);
            },
        };
        proof {
            lemma_song_tracks_encodable(self@, song@);
        }
        let tracks = match self.generate_tracks(song) {
            Ok(t) => t,
            Err(e) => {
                return Err(e);
            },
        };
        let bytes = match encode_tracks(&tracks) {
            Some(b) => b,
            None => {
                return Err(GenerationError::Encoding);
            },
        };
        Ok(SongFile { file_name: with_mid_extension(song_name.as_str()), bytes })
    }

    /// Generates every declared song, in declaration order, stopping at the first failure.
    pub fn generate(&self) -> (r: Result<Vec<SongFile>, GenerationError>)
        ensures
            r is Ok <==> forall|k: int| 0 <= k < self@.songs.len() ==> #[trigger] song_result_file(self@, k) is Ok,
            r matches Ok(v) ==> v@.len() == self@.songs.len() && forall|k: int|
                0 <= k < v@.len() ==> #[trigger] v@[k].file_name@ == song_file_name(self@.songs[k].name)
                    && Ok::<Seq<u8>, GenerationError>(v@[k].bytes@) == song_result_file(self@, k),
            r matches Err(e) ==> exists|k: int|
                0 <= k < self@.songs.len() && #[trigger] song_result_file(self@, k) == Err::<Seq<u8>, GenerationError>(e)
                    && forall|j: int| 0 <= j < k ==> song_result_file(self@, j) is Ok,
    {
        let mut out: Vec<SongFile> = Vec::new();
        let mut k: usize = 0;
        while k < self.songs.len()
            invariant
                k <= self.songs.len(),
                out@.len() == k,
                forall|j: int| 0 <= j < k ==> #[trigger] out@[j].file_name@ == song_file_name(self@.songs[j].name),
                forall|j: int| 0 <= j < k ==> Ok::<Seq<u8>, GenerationError>((#[trigger] out@[j]).bytes@) == song_result_file(self@, j),
                forall|j: int| 0 <= j < k ==> #[trigger] song_result_file(self@, j) is Ok,
            decreases self.songs.len() - k,
        {
            let name = &self.songs[k].name;
            assert(name@ == self@.songs[k as int].name);
            match self.generate_song(name) {
                Ok(f) => {
                    out.push(f);
                },
                Err(e) => {
                    assert(song_result_file(self@, k as int) == Err::<Seq<u8>, GenerationError>(e));
                    return Err(e);
                },
            }
            k = k + 1;
        }
        Ok(out)
    }
}


/// Ticks per quarter note of every file.
pub const TICKS_PER_QUARTER: u16 = 480;

/// Fewer events than this keep a track's chunk (at most ten bytes an event)
/// within the 32-bit length that the file format allows.
pub const MAX_TRACK_EVENTS: usize = 0x1000_0000;

/// The bytes of a parallel (multi-track) file with `ticks` ticks per quarter
/// note holding `tracks`, as midly writes them.
pub uninterp spec fn smf_bytes(tracks: Seq<Seq<MidiEvent>>, ticks: u16) -> Seq<u8>;

/// Whether midly can carry an event: times below 2^28, tempos below 2^24,
/// channels below 16, keys and velocities below 128.
pub open spec fn encodable(e: MidiEvent) -> bool {
    e.delta <= MAX_TICK && match e.kind {
        EventKind::Tempo(t) => t < 0x0100_0000,
        EventKind::NoteOn { channel, key, vel } => channel < 16 && key < 128 && vel < 128,
        EventKind::NoteOff { channel, key, vel } => channel < 16 && key < 128 && vel < 128,
        EventKind::EndOfTrack => true,
    }
}

pub open spec fn all_encodable(evs: Seq<MidiEvent>) -> bool {
    forall|j: int| 0 <= j < evs.len() ==> encodable(#[trigger] evs[j])
}

/// Whether tracks fit a file: at most 65535 tracks, each shorter than
/// `MAX_TRACK_EVENTS`, every event encodable.
pub open spec fn tracks_fit(ts: Seq<Seq<MidiEvent>>) -> bool {
    &&& ts.len() <= 0xffff
    &&& forall|i: int| 0 <= i < ts.len() ==> (#[trigger] ts[i]).len() < MAX_TRACK_EVENTS
    &&& forall|i: int| 0 <= i < ts.len() ==> all_encodable(#[trigger] ts[i])
}

#[verifier::external_type_specification]
#[verifier::external_body]
pub struct ExTrackEvent<'a>(TrackEvent<'a>);

/// Relies on midly's `TrackEvent`: the event field for field, in midly's
/// `u28`, `u4`, `u7` and `u24`, which mask nothing within `encodable`.
#[verifier::external_body]
fn midly_event(e: &MidiEvent) -> TrackEvent<'static>
    requires
        encodable(*e),
{
    let kind = match e.kind {
        EventKind::Tempo(t) => TrackEventKind::Meta(MetaMessage::Tempo(t.into())),
        EventKind::NoteOn { channel, key, vel } => TrackEventKind::Midi { channel: channel.into(), message: MidiMessage::NoteOn { key: key.into(), vel: vel.into() } },
        EventKind::NoteOff { channel, key, vel } => TrackEventKind::Midi { channel: channel.into(), message: MidiMessage::NoteOff { key: key.into(), vel: vel.into() } },
        EventKind::EndOfTrack => TrackEventKind::Meta(MetaMessage::EndOfTrack),
    };
    TrackEvent { delta: e.delta.into(), kind }
}

/// Relies on midly's `Smf::write` into a `Vec<u8>`, of a parallel file with
/// `ticks` ticks per quarter note (midly's `u15`), each event converted by
/// `midly_event`; `write` fails only on more than 65535 tracks or a chunk over 4 GiB.
#[verifier::external_body]
fn midly_encode(tracks: &Vec<Vec<MidiEvent>>, ticks: u16) -> (r: Option<Vec<u8>>)
    requires
        tracks_fit(tracks_view(tracks@)),
        ticks < 0x8000,
    ensures
        r is Some,
        r->Some_0@ == smf_bytes(tracks_view(tracks@), ticks),
{
    let tracks = tracks.iter().map(|t| t.iter().map(midly_event).collect()).collect();
    let smf = Smf { header: Header { format: Format::Parallel, timing: Timing::Metrical(ticks.into()) }, tracks };
    let mut out = Vec::new();
    smf.write(&mut out).ok().map(|()| out)
}

fn event_encodable(e: &MidiEvent) -> (r: bool)
    ensures
        r == encodable(*e),
{
    e.delta <= MAX_TICK && match e.kind {
        EventKind::Tempo(t) => t < 0x0100_0000,
        EventKind::NoteOn { channel, key, vel } => channel < 16 && key < 128 && vel < 128,
        EventKind::NoteOff { channel, key, vel } => channel < 16 && key < 128 && vel < 128,
        EventKind::EndOfTrack => true,
    }
}

/// Encodes tracks as a parallel file at `TICKS_PER_QUARTER` ticks per quarter
/// note; `None` exactly where they do not fit a file.
pub fn encode_tracks(tracks: &Vec<Vec<MidiEvent>>) -> (r: Option<Vec<u8>>)
    ensures
        r is Some <==> tracks_fit(tracks_view(tracks@)),
        r matches Some(b) ==> b@ == smf_bytes(tracks_view(tracks@), TICKS_PER_QUARTER),
{
    let ghost ts = tracks_view(tracks@);
    if tracks.len() > 0xffff {
        return None;
    }
    let mut i: usize = 0;
    while i < tracks.len()
        invariant
            i <= tracks.len() <= 0xffff,
            ts == tracks_view(tracks@),
            forall|a: int| 0 <= a < i ==> (#[trigger] ts[a]).len() < MAX_TRACK_EVENTS,
            forall|a: int| 0 <= a < i ==> all_encodable(#[trigger] ts[a]),
        decreases tracks.len() - i,
    {
        if tracks[i].len() >= MAX_TRACK_EVENTS {
            assert(ts[i as int].len() >= MAX_TRACK_EVENTS);
            return None;
        }
        let mut j: usize = 0;
        while j < tracks[i].len()
            invariant
                i < tracks.len(),
                ts == tracks_view(tracks@),
                j <= ts[i as int].len(),
                forall|b: int| 0 <= b < j ==> encodable(#[trigger] ts[i as int][b]),
            decreases ts[i as int].len() - j,
        {
            if !event_encodable(&tracks[i][j]) {
                assert(!all_encodable(ts[i as int]));
                return None;
            }
            j = j + 1;
        }
        i = i + 1;
    }
    midly_encode(tracks, TICKS_PER_QUARTER)
}

} // verus!
