use vstd::prelude::*;

verus! {

/// A named timbre declaration.
#[derive(Clone, Debug)]
pub struct Instrument {
    pub name: String,
    pub type_: String,
    pub midi_path: String,
}

/// One event of a pattern; a duration is the pair `(num, den)` as written in `[num:den]`.
#[derive(Debug)]
pub enum PatternEvent {
    Note { chord: String, duration: (u8, u8) },
    Wait { duration: (u8, u8) },
}

/// A named sequence of events.
#[derive(Clone, Debug)]
pub struct Pattern {
    pub name: String,
    pub events: Vec<PatternEvent>,
}

/// A named lane of a section, calling patterns by name.
#[derive(Clone, Debug)]
pub struct Channel {
    pub name: String,
    pub pattern_calls: Vec<String>,
}

/// A named group of channels.
#[derive(Clone, Debug)]
pub struct Section {
    pub name: String,
    pub channels: Vec<Channel>,
}

/// A named composition, listing sections by name.
#[derive(Clone, Debug)]
pub struct Song {
    pub name: String,
    pub entry_sections: Vec<String>,
}

/// A top-level declaration.
#[derive(Clone, Debug)]
pub enum TopLevel {
    Instrument(Instrument),
    Pattern(Pattern),
    Section(Section),
    Song(Song),
}

pub struct InstrumentV {
    pub name: Seq<char>,
    pub type_: Seq<char>,
    pub midi_path: Seq<char>,
}

pub enum PatternEventV {
    Note { chord: Seq<char>, duration: (u8, u8) },
    Wait { duration: (u8, u8) },
}

pub struct PatternV {
    pub name: Seq<char>,
    pub events: Seq<PatternEventV>,
}

pub struct ChannelV {
    pub name: Seq<char>,
    pub pattern_calls: Seq<Seq<char>>,
}

pub struct SectionV {
    pub name: Seq<char>,
    pub channels: Seq<ChannelV>,
}

pub struct SongV {
    pub name: Seq<char>,
    pub entry_sections: Seq<Seq<char>>,
}

pub enum TopLevelV {
    Instrument(InstrumentV),
    Pattern(PatternV),
    Section(SectionV),
    Song(SongV),
}

/// A list of names, each seen as its characters.
pub open spec fn names_view(v: Seq<String>) -> Seq<Seq<char>> {
    v.map_values(|s: String| s@)
}

impl View for Instrument {
    type V = InstrumentV;

    open spec fn view(&self) -> InstrumentV {
        InstrumentV { name: self.name@, type_: self.type_@, midi_path: self.midi_path@ }
    }
}

impl View for PatternEvent {
    type V = PatternEventV;

    open spec fn view(&self) -> PatternEventV {
        match self {
            PatternEvent::Note { chord, duration } => PatternEventV::Note {
                chord: chord@,
                duration: *duration,
            },
            PatternEvent::Wait { duration } => PatternEventV::Wait { duration: *duration },
        }
    }
}

impl View for Pattern {
    type V = PatternV;

    open spec fn view(&self) -> PatternV {
        PatternV { name: self.name@, events: self.events@.map_values(|e: PatternEvent| e@) }
    }
}

impl View for Channel {
    type V = ChannelV;

    open spec fn view(&self) -> ChannelV {
        ChannelV { name: self.name@, pattern_calls: names_view(self.pattern_calls@) }
    }
}

impl View for Section {
    type V = SectionV;

    open spec fn view(&self) -> SectionV {
        SectionV { name: self.name@, channels: self.channels@.map_values(|c: Channel| c@) }
    }
}

impl View for Song {
    type V = SongV;

    open spec fn view(&self) -> SongV {
        SongV { name: self.name@, entry_sections: names_view(self.entry_sections@) }
    }
}

impl View for TopLevel {
    type V = TopLevelV;

    open spec fn view(&self) -> TopLevelV {
        match self {
            TopLevel::Instrument(i) => TopLevelV::Instrument(i@),
            TopLevel::Pattern(p) => TopLevelV::Pattern(p@),
            TopLevel::Section(s) => TopLevelV::Section(s@),
            TopLevel::Song(s) => TopLevelV::Song(s@),
        }
    }
}

/// A list of declarations, each seen through its view.
pub open spec fn decls_view(v: Seq<TopLevel>) -> Seq<TopLevelV> {
    v.map_values(|d: TopLevel| d@)
}

pub(crate) fn copy_names(v: &Vec<String>) -> (r: Vec<String>)
    ensures
        names_view(r@) == names_view(v@),
{
    let mut r: Vec<String> = Vec::new();
    let mut i: usize = 0;
    while i < v.len()
        invariant
            i <= v.len(),
            r@.len() == i,
            forall|k: int| 0 <= k < i ==> #[trigger] r@[k]@ == v@[k]@,
        decreases v.len() - i,
    {
        r.push(v[i].clone());
        i = i + 1;
    }
    assert(names_view(r@) =~= names_view(v@));
    r
}

impl Instrument {
    pub(crate) fn copy(&self) -> (r: Instrument)
        ensures
            r@ == self@,
    {
        Instrument {
            name: self.name.clone(),
            type_: self.type_.clone(),
            midi_path: self.midi_path.clone(),
        }
    }
}

impl PatternEvent {
    pub(crate) fn copy(&self) -> (r: PatternEvent)
        ensures
            r@ == self@,
    {
        match self {
            PatternEvent::Note { chord, duration } => PatternEvent::Note {
                chord: chord.clone(),
                duration: *duration,
            },
            PatternEvent::Wait { duration } => PatternEvent::Wait { duration: *duration },
        }
    }
}

impl Clone for PatternEvent {
    fn clone(&self) -> Self {
        self.copy()
    }
}

impl Pattern {
    pub(crate) fn copy(&self) -> (r: Pattern)
        ensures
            r@ == self@,
    {
        let mut events: Vec<PatternEvent> = Vec::new();
        let mut i: usize = 0;
        while i < self.events.len()
            invariant
                i <= self.events.len(),
                events@.len() == i,
                forall|k: int| 0 <= k < i ==> #[trigger] events@[k]@ == self.events@[k]@,
            decreases self.events.len() - i,
        {
            events.push(self.events[i].copy());
            i = i + 1;
        }
        let r = Pattern { name: self.name.clone(), events };
        assert(r@.events =~= self@.events);
        r
    }
}

impl Channel {
    pub(crate) fn copy(&self) -> (r: Channel)
        ensures
            r@ == self@,
    {
        Channel { name: self.name.clone(), pattern_calls: copy_names(&self.pattern_calls) }
    }
}

impl Section {
    pub(crate) fn copy(&self) -> (r: Section)
        ensures
            r@ == self@,
    {
        let mut channels: Vec<Channel> = Vec::new();
        let mut i: usize = 0;
        while i < self.channels.len()
            invariant
                i <= self.channels.len(),
                channels@.len() == i,
                forall|k: int| 0 <= k < i ==> #[trigger] channels@[k]@ == self.channels@[k]@,
            decreases self.channels.len() - i,
        {
            channels.push(self.channels[i].copy());
            i = i + 1;
        }
        let r = Section { name: self.name.clone(), channels };
        assert(r@.channels =~= self@.channels);
        r
    }
}

impl Song {
    pub(crate) fn copy(&self) -> (r: Song)
        ensures
            r@ == self@,
    {
        Song { name: self.name.clone(), entry_sections: copy_names(&self.entry_sections) }
    }
}

} // verus!
