use vstd::prelude::*;

use crate::ast::{decls_view, ChannelV, InstrumentV, SectionV, SongV, TopLevel, TopLevelV};

verus! {

/// Why a program is rejected after parsing.
#[derive(Clone, Debug)]
pub enum SemanticError {
    DuplicateInstrument(String),
    DuplicatePattern(String),
    DuplicateSection(String),
    DuplicateSong(String),
    /// A section holds two channels of one name.
    DuplicateChannel { section: String, channel: String },
    /// A song lists a section that is not declared.
    UndefinedSection { song: String, section: String },
}

pub open spec fn decl_name(d: TopLevelV) -> Seq<char> {
    match d {
        TopLevelV::Instrument(i) => i.name,
        TopLevelV::Pattern(p) => p.name,
        TopLevelV::Section(s) => s.name,
        TopLevelV::Song(s) => s.name,
    }
}

pub open spec fn same_kind(a: TopLevelV, b: TopLevelV) -> bool {
    (a is Instrument && b is Instrument) || (a is Pattern && b is Pattern) || (a is Section
        && b is Section) || (a is Song && b is Song)
}

/// Declarations `a` before `b` of one kind share a name.
pub open spec fn clash(ds: Seq<TopLevelV>, a: int, b: int) -> bool {
    0 <= a < b < ds.len() && same_kind(ds[a], ds[b]) && decl_name(ds[a]) == decl_name(ds[b])
}

pub open spec fn has_duplicate(ds: Seq<TopLevelV>) -> bool {
    exists|a: int, b: int| clash(ds, a, b)
}

/// The error that reports `d` as declared a second time.
pub open spec fn reports_duplicate(e: SemanticError, d: TopLevelV) -> bool {
    match (e, d) {
        (SemanticError::DuplicateInstrument(n), TopLevelV::Instrument(i)) => n@ == i.name,
        (SemanticError::DuplicatePattern(n), TopLevelV::Pattern(p)) => n@ == p.name,
        (SemanticError::DuplicateSection(n), TopLevelV::Section(s)) => n@ == s.name,
        (SemanticError::DuplicateSong(n), TopLevelV::Song(s)) => n@ == s.name,
        _ => false,
    }
}

/// Channels `a` before `b` of a section share a name.
pub open spec fn channel_clash(chs: Seq<ChannelV>, a: int, b: int) -> bool {
    0 <= a < b < chs.len() && chs[a].name == chs[b].name
}

pub open spec fn channels_distinct(s: SectionV) -> bool {
    forall|a: int, b: int| !channel_clash(s.channels, a, b)
}

pub open spec fn section_declared(ds: Seq<TopLevelV>, name: Seq<char>) -> bool {
    exists|k: int| 0 <= k < ds.len() && #[trigger] ds[k] is Section && ds[k]->Section_0.name == name
}

/// Every section that the song lists is declared.
pub open spec fn song_resolved(ds: Seq<TopLevelV>, s: SongV) -> bool {
    forall|j: int| 0 <= j < s.entry_sections.len() ==> section_declared(ds, #[trigger] s.entry_sections[j])
}

pub open spec fn sections_ok(ds: Seq<TopLevelV>) -> bool {
    forall|k: int| 0 <= k < ds.len() && #[trigger] ds[k] is Section ==> channels_distinct(ds[k]->Section_0)
}

pub open spec fn songs_ok(ds: Seq<TopLevelV>) -> bool {
    forall|k: int| 0 <= k < ds.len() && #[trigger] ds[k] is Song ==> song_resolved(ds, ds[k]->Song_0)
}

/// Section `k`, named `section`, holds channels `a` before `b`, both named `channel`.
pub open spec fn duplicate_channel(
    ds: Seq<TopLevelV>,
    k: int,
    a: int,
    b: int,
    section: Seq<char>,
    channel: Seq<char>,
) -> bool {
    0 <= k < ds.len() && ds[k] is Section && ds[k]->Section_0.name == section && channel_clash(
        ds[k]->Section_0.channels,
        a,
        b,
    ) && ds[k]->Section_0.channels[b].name == channel
}

/// Song `k`, named `song`, lists as its `j`-th section `section`, which is not declared.
pub open spec fn undefined_reference(
    ds: Seq<TopLevelV>,
    k: int,
    j: int,
    song: Seq<char>,
    section: Seq<char>,
) -> bool {
    0 <= k < ds.len() && ds[k] is Song && ds[k]->Song_0.name == song && 0 <= j
        < ds[k]->Song_0.entry_sections.len() && ds[k]->Song_0.entry_sections[j] == section
        && !section_declared(ds, section)
}

pub open spec fn reports_duplicate_channel(ds: Seq<TopLevelV>, e: SemanticError) -> bool {
    match e {
        SemanticError::DuplicateChannel { section, channel } => exists|k: int, a: int, b: int|
            #[trigger] duplicate_channel(ds, k, a, b, section@, channel@),
        _ => false,
    }
}

pub open spec fn reports_undefined_section(ds: Seq<TopLevelV>, e: SemanticError) -> bool {
    match e {
        SemanticError::UndefinedSection { song, section } => exists|k: int, j: int|
            #[trigger] undefined_reference(ds, k, j, song@, section@),
        _ => false,
    }
}

/// Two pattern declarations under one name make a program a duplicate (so
/// `Semantic::new` refuses it), while two instruments under different names
/// alone do not.
pub proof fn lemma_duplicate_detection(ds: Seq<TopLevelV>, a: int, b: int, i1: InstrumentV, i2: InstrumentV)
    requires
        0 <= a < b < ds.len(),
        ds[a] is Pattern,
        ds[b] is Pattern,
        ds[a]->Pattern_0.name == ds[b]->Pattern_0.name,
        i1.name != i2.name,
    ensures
        has_duplicate(ds),
        !has_duplicate(seq![TopLevelV::Instrument(i1), TopLevelV::Instrument(i2)]),
{
    assert(clash(ds, a, b));
    let two = seq![TopLevelV::Instrument(i1), TopLevelV::Instrument(i2)];
    assert forall|x: int, y: int| !clash(two, x, y) by {
        if 0 <= x < y < 2 {
            assert(x == 0 && y == 1);
        }
    }
}

/// A validated program: its declarations, no two of one kind sharing a name.
pub struct Semantic {
    decls: Vec<TopLevel>,
}

impl View for Semantic {
    type V = Seq<TopLevelV>;

    closed spec fn view(&self) -> Seq<TopLevelV> {
        self.decls@.map_values(|d: TopLevel| d@)
    }
}

fn name_of(d: &TopLevel) -> (r: &String)
    ensures
        r@ == decl_name(d@),
{
    match d {
        TopLevel::Instrument(i) => &i.name,
        TopLevel::Pattern(p) => &p.name,
        TopLevel::Section(s) => &s.name,
        TopLevel::Song(s) => &s.name,
    }
}

fn same_kind_exec(a: &TopLevel, b: &TopLevel) -> (r: bool)
    ensures
        r == same_kind(a@, b@),
{
    match (a, b) {
        (TopLevel::Instrument(_), TopLevel::Instrument(_)) => true,
        (TopLevel::Pattern(_), TopLevel::Pattern(_)) => true,
        (TopLevel::Section(_), TopLevel::Section(_)) => true,
        (TopLevel::Song(_), TopLevel::Song(_)) => true,
        _ => false,
    }
}

fn duplicate_error(d: &TopLevel) -> (r: SemanticError)
    ensures
        reports_duplicate(r, d@),
{
    match d {
        TopLevel::Instrument(i) => SemanticError::DuplicateInstrument(i.name.clone()),
        TopLevel::Pattern(p) => SemanticError::DuplicatePattern(p.name.clone()),
        TopLevel::Section(s) => SemanticError::DuplicateSection(s.name.clone()),
        TopLevel::Song(s) => SemanticError::DuplicateSong(s.name.clone()),
    }
}

impl Semantic {
    /// Takes the declarations, refusing two of one kind under one name.
    pub fn new(results: Vec<TopLevel>) -> (r: Result<Semantic, SemanticError>)
        ensures
            r is Ok <==> !has_duplicate(decls_view(results@)),
            r matches Ok(s) ==> s@ == decls_view(results@),
            r matches Err(e) ==> exists|a: int, b: int|
                #[trigger] clash(decls_view(results@), a, b) && reports_duplicate(
                    e,
                    decls_view(results@)[b],
                ),
    {
        let ghost ds = decls_view(results@);
        let mut i: usize = 0;
        while i < results.len()
            invariant
                i <= results.len(),
                ds == decls_view(results@),
                forall|a: int, b: int| b < i ==> !clash(ds, a, b),
            decreases results.len() - i,
        {
            let mut a: usize = 0;
            while a < i
                invariant
                    a <= i < results.len(),
                    ds == decls_view(results@),
                    forall|x: int, b: int| b < i ==> !clash(ds, x, b),
                    forall|x: int| x < a ==> !clash(ds, x, i as int),
                decreases i - a,
            {
                if same_kind_exec(&results[a], &results[i]) && *name_of(&results[a]) == *name_of(
                    &results[i],
                ) {
                    let e = duplicate_error(&results[i]);
                    assert(clash(ds, a as int, i as int));
                    return Err(e);
                }
                a = a + 1;
            }
            i = i + 1;
        }
        Ok(Semantic { decls: results })
    }

    /// Checks that no section holds two channels of one name, then that every
    /// section a song lists is declared.
    pub fn analyze(&mut self) -> (r: Result<(), SemanticError>)
        ensures
            *final(self) == *old(self),
            r is Ok <==> sections_ok(old(self)@) && songs_ok(old(self)@),
            r matches Err(e) ==> reports_duplicate_channel(old(self)@, e) || (sections_ok(old(self)@)
                && reports_undefined_section(old(self)@, e)),
    {
        match self.analyze_patterns() {
            Ok(()) => {},
            Err(e) => {
                return Err(e);
            },
        }
        match self.analyze_sections() {
            Ok(()) => {},
            Err(e) => {
                return Err(e);
            },
        }
        match self.analyze_instruments() {
            Ok(()) => {},
            Err(e) => {
                return Err(e);
            },
        }
        self.analyze_songs()
    }

    /// Patterns need no check beyond unique names; calls to undeclared patterns
    /// surface during generation.
    fn analyze_patterns(&self) -> (r: Result<(), SemanticError>)
        ensures
            r is Ok,
    {
        Ok(())
    }

    /// Instruments need no check beyond unique names.
    fn analyze_instruments(&self) -> (r: Result<(), SemanticError>)
        ensures
            r is Ok,
    {
        Ok(())
    }

    fn analyze_sections(&self) -> (r: Result<(), SemanticError>)
        ensures
            r is Ok <==> sections_ok(self@),
            r matches Err(e) ==> reports_duplicate_channel(self@, e),
    {
        let ghost ds = self@;
        let mut k: usize = 0;
        while k < self.decls.len()
            invariant
                k <= self.decls.len(),
                ds == self@,
                forall|x: int| 0 <= x < k && #[trigger] ds[x] is Section ==> channels_distinct(ds[x]->Section_0),
            decreases self.decls.len() - k,
        {
            match &self.decls[k] {
                TopLevel::Section(section) => {
                    let ghost chs = section@.channels;
                    let mut b: usize = 0;
                    while b < section.channels.len()
                        invariant
                            k < self.decls.len(),
                            ds == self@,
                            ds[k as int] == TopLevelV::Section(section@),
                            b <= section.channels.len(),
                            chs == section@.channels,
                            forall|x: int, y: int| y < b ==> !channel_clash(chs, x, y),
                        decreases section.channels.len() - b,
                    {
                        let mut a: usize = 0;
                        while a < b
                            invariant
                                k < self.decls.len(),
                                ds == self@,
                                ds[k as int] == TopLevelV::Section(section@),
                                a <= b < section.channels.len(),
                                chs == section@.channels,
                                forall|x: int, y: int| y < b ==> !channel_clash(chs, x, y),
                                forall|x: int| x < a ==> !channel_clash(chs, x, b as int),
                            decreases b - a,
                        {
                            if section.channels[a].name == section.channels[b].name {
                                assert(channel_clash(chs, a as int, b as int));
                                let sname = section.name.clone();
                                let cname = section.channels[b].name.clone();
                                assert(duplicate_channel(
                                    ds,
                                    k as int,
                                    a as int,
                                    b as int,
                                    sname@,
                                    cname@,
                                ));
                                assert(!channels_distinct(ds[k as int]->Section_0));
                                let ghost sv = sname@;
                                let ghost cv = cname@;
                                let e = SemanticError::DuplicateChannel { section: sname, channel: cname };
                                assert(match e {
                                    SemanticError::DuplicateChannel { section, channel } => section@ == sv && channel@ == cv,
                                    _ => false,
                                });
                                assert(reports_duplicate_channel(ds, e));
                                return Err(e);
                            }
                            a = a + 1;
                        }
                        b = b + 1;
                    }
                },
                _ => {},
            }
            k = k + 1;
        }
        Ok(())
    }

    fn has_section(&self, name: &String) -> (r: bool)
        ensures
            r == section_declared(self@, name@),
    {
        let ghost ds = self@;
        let mut k: usize = 0;
        while k < self.decls.len()
            invariant
                k <= self.decls.len(),
                ds == self@,
                forall|x: int| 0 <= x < k && #[trigger] ds[x] is Section ==> ds[x]->Section_0.name != name@,
            decreases self.decls.len() - k,
        {
            match &self.decls[k] {
                TopLevel::Section(section) => {
                    if section.name == *name {
                        assert(ds[k as int] is Section);
                        return true;
                    }
                },
                _ => {},
            }
            k = k + 1;
        }
        false
    }

    fn analyze_songs(&self) -> (r: Result<(), SemanticError>)
        ensures
            r is Ok <==> songs_ok(self@),
            r matches Err(e) ==> reports_undefined_section(self@, e),
    {
        let ghost ds = self@;
        let mut k: usize = 0;
        while k < self.decls.len()
            invariant
                k <= self.decls.len(),
                ds == self@,
                forall|x: int| 0 <= x < k && #[trigger] ds[x] is Song ==> song_resolved(ds, ds[x]->Song_0),
            decreases self.decls.len() - k,
        {
            match &self.decls[k] {
                TopLevel::Song(song) => {
                    let ghost names = song@.entry_sections;
                    let mut j: usize = 0;
                    while j < song.entry_sections.len()
                        invariant
                            k < self.decls.len(),
                            ds[k as int] == TopLevelV::Song(song@),
                            j <= song.entry_sections.len(),
                            ds == self@,
                            names == song@.entry_sections,
                            forall|y: int| 0 <= y < j ==> section_declared(ds, #[trigger] names[y]),
                        decreases song.entry_sections.len() - j,
                    {
                        if !self.has_section(&song.entry_sections[j]) {
                            let sname = song.name.clone();
                            let section = song.entry_sections[j].clone();
                            assert(undefined_reference(ds, k as int, j as int, sname@, section@));
                            assert(!song_resolved(ds, ds[k as int]->Song_0));
                            let ghost sv = sname@;
                            let ghost cv = section@;
                            let e = SemanticError::UndefinedSection { song: sname, section };
                            assert(match e {
                                SemanticError::UndefinedSection { song, section } => song@ == sv && section@ == cv,
                                _ => false,
                            });
                            assert(reports_undefined_section(ds, e));
                            return Err(e);
                        }
                        j = j + 1;
                    }
                },
                _ => {},
            }
            k = k + 1;
        }
        Ok(())
    }
}

} // verus!
