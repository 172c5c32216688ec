use vstd::prelude::*;

use crate::ast::{
    decls_view, names_view, Channel, ChannelV, Instrument, InstrumentV, Pattern, PatternEvent, PatternEventV,
    PatternV, Section, SectionV, Song, SongV, TopLevel, TopLevelV,
};
use crate::lexer::{
    is_digit, lemma_lex_space, lemma_lex_word, lex, lex_from, token_ok, tokens_view, Token,
};
use crate::text::{chars_of, str_eq};

verus! {

/// The construct being read when a parse error occurred.
#[derive(Clone, Copy, Debug, PartialEq, Eq, Structural)]
pub enum Context {
    Instrument,
    Pattern,
    Section,
    SectionChannel,
    Song,
}

/// Why a token sequence is not a program.
#[derive(Clone, Copy, Debug, PartialEq, Eq, Structural)]
pub enum ParseError {
    /// A token of kind `expected` was needed; `found` is what stood there (`None`: end of input).
    Expected { expected: Token, found: Option<Token>, context: Context },
    /// A declaration cannot start with this token.
    UnexpectedTopLevel { found: Token },
    /// After a duration, neither `Note` nor `Wait` followed.
    UnexpectedEvent { found: Option<Token> },
    /// The argument of `Note(..)` is not a chord name.
    InvalidChord { found: Option<Token> },
    /// A duration number is not a decimal in `0..=255`.
    InvalidNumber,
}

/// Tokens as the parser sees them: each kind with its text.
pub type Toks = Seq<(Token, Seq<char>)>;

pub open spec fn kind_at(t: Toks, p: int) -> Option<Token> {
    if 0 <= p < t.len() {
        Some(t[p].0)
    } else {
        None
    }
}

/// How many tokens remain from `p` on.
pub open spec fn left(t: Toks, p: int) -> nat {
    if p < t.len() {
        (t.len() - p) as nat
    } else {
        0
    }
}

/// The first mismatch, from index `i` of `ks` on, between the kinds `ks` and the tokens at `p`.
pub open spec fn run_error(t: Toks, p: int, ks: Seq<Token>, i: int, ctx: Context) -> Option<
    ParseError,
>
    decreases ks.len() - i,
{
    if i < 0 || i >= ks.len() {
        None
    } else if kind_at(t, p + i) == Some(ks[i]) {
        run_error(t, p, ks, i + 1, ctx)
    } else {
        Some(ParseError::Expected { expected: ks[i], found: kind_at(t, p + i), context: ctx })
    }
}

pub proof fn lemma_run_ok(t: Toks, p: int, ks: Seq<Token>, i: int, ctx: Context)
    requires
        0 <= i <= ks.len(),
        run_error(t, p, ks, i, ctx) is None,
    ensures
        forall|k: int| i <= k < ks.len() ==> kind_at(t, p + k) == Some(ks[k]),
    decreases ks.len() - i,
{
    if i < ks.len() {
        lemma_run_ok(t, p, ks, i + 1, ctx);
    }
}

pub open spec fn instrument_head() -> Seq<Token> {
    seq![
        Token::Instrument,
        Token::Identifier,
        Token::Colon,
        Token::Type,
        Token::Colon,
        Token::Identifier,
        Token::MidiPath,
        Token::Colon,
        Token::Identifier,
    ]
}

pub open spec fn pattern_head() -> Seq<Token> {
    seq![
        Token::Pattern,
        Token::Identifier,
        Token::LParen,
        Token::RParen,
        Token::Colon,
        Token::Return,
    ]
}

pub open spec fn duration_head() -> Seq<Token> {
    seq![Token::LBracket, Token::Number, Token::Colon, Token::Number, Token::RBracket]
}

pub open spec fn empty_args() -> Seq<Token> {
    seq![Token::LParen, Token::RParen]
}

pub open spec fn section_head() -> Seq<Token> {
    seq![Token::Section, Token::Identifier, Token::Colon]
}

/// `Channel <id> : return <id> ( )`, and likewise for `Song`.
pub open spec fn call_head(first: Token) -> Seq<Token> {
    seq![
        first,
        Token::Identifier,
        Token::Colon,
        Token::Return,
        Token::Identifier,
        Token::LParen,
        Token::RParen,
    ]
}

pub open spec fn call_tail() -> Seq<Token> {
    seq![Token::Plus, Token::Identifier, Token::LParen, Token::RParen]
}

pub open spec fn decimal_value(s: Seq<char>) -> int
    decreases s.len(),
{
    if s.len() == 0 {
        0
    } else {
        decimal_value(s.drop_last()) * 10 + (s.last() as int - '0' as int)
    }
}

/// The value of a duration number: a non-empty run of decimal digits worth at most 255.
pub open spec fn number_value(s: Seq<char>) -> Option<u8> {
    if s.len() > 0 && (forall|i: int| 0 <= i < s.len() ==> is_digit(#[trigger] s[i]))
        && decimal_value(s) <= 255 {
        Some(decimal_value(s) as u8)
    } else {
        None
    }
}

/// What `char::is_alphanumeric` says of a character.
pub uninterp spec fn alphanumeric(c: char) -> bool;

pub open spec fn is_root_letter(c: char) -> bool {
    'A' <= c && c <= 'G'
}

pub open spec fn is_chord_char(c: char) -> bool {
    alphanumeric(c) || c == '#' || c == 'b' || c == 'm' || c == '7'
}

/// A chord name: a root letter `A`..`G`, then alphanumerics or `#`, `b`, `m`, `7`.
pub open spec fn is_chord_name(s: Seq<char>) -> bool {
    s.len() > 0 && is_root_letter(s[0]) && forall|i: int|
        1 <= i < s.len() ==> is_chord_char(#[trigger] s[i])
}

pub open spec fn instrument_at(t: Toks, p: int) -> Result<(InstrumentV, int), ParseError> {
    match run_error(t, p, instrument_head(), 0, Context::Instrument) {
        Some(e) => Err(e),
        None => Ok((InstrumentV { name: t[p + 1].1, type_: t[p + 5].1, midi_path: t[p + 8].1 }, p + 9)),
    }
}

/// One event `[num:den] Wait()` or `[num:den] Note(<chord>)` at `p`.
pub open spec fn event_at(t: Toks, p: int) -> Result<(PatternEventV, int), ParseError> {
    match run_error(t, p, duration_head(), 0, Context::Pattern) {
        Some(e) => Err(e),
        None => match (number_value(t[p + 1].1), number_value(t[p + 3].1)) {
            (Some(num), Some(den)) => {
                if kind_at(t, p + 5) == Some(Token::Identifier) && t[p + 5].1 == "Wait"@ {
                    match run_error(t, p + 6, empty_args(), 0, Context::Pattern) {
                        Some(e) => Err(e),
                        None => Ok((PatternEventV::Wait { duration: (num, den) }, p + 8)),
                    }
                } else if kind_at(t, p + 5) == Some(Token::Identifier) && t[p + 5].1 == "Note"@ {
                    match run_error(t, p + 6, seq![Token::LParen], 0, Context::Pattern) {
                        Some(e) => Err(e),
                        None => if kind_at(t, p + 7) == Some(Token::Identifier) && is_chord_name(
                            t[p + 7].1,
                        ) {
                            match run_error(t, p + 8, seq![Token::RParen], 0, Context::Pattern) {
                                Some(e) => Err(e),
                                None => Ok(
                                    (
                                        PatternEventV::Note { chord: t[p + 7].1, duration: (num, den) },
                                        p + 9,
                                    ),
                                ),
                            }
                        } else {
                            Err(ParseError::InvalidChord { found: kind_at(t, p + 7) })
                        },
                    }
                } else {
                    Err(ParseError::UnexpectedEvent { found: kind_at(t, p + 5) })
                }
            },
            _ => Err(ParseError::InvalidNumber),
        },
    }
}

/// The events of a pattern body from `p` on, each optionally followed by `+`.
pub open spec fn events_from(t: Toks, p: int) -> Result<(Seq<PatternEventV>, int), ParseError>
    decreases left(t, p),
{
    if kind_at(t, p) == Some(Token::LBracket) {
        match event_at(t, p) {
            Err(e) => Err(e),
            Ok((ev, q)) => {
                let q2 = if kind_at(t, q) == Some(Token::Plus) {
                    q + 1
                } else {
                    q
                };
                match events_from(t, q2) {
                    Ok((evs, r)) => Ok((seq![ev] + evs, r)),
                    Err(e) => Err(e),
                }
            },
        }
    } else {
        Ok((seq![], p))
    }
}

/// The continuations `+ <id>()` from `p` on, with the names they call.
pub open spec fn calls_from(t: Toks, p: int, ctx: Context) -> Result<(Seq<Seq<char>>, int), ParseError>
    decreases left(t, p),
{
    if kind_at(t, p) == Some(Token::Plus) {
        match run_error(t, p, call_tail(), 0, ctx) {
            Some(e) => Err(e),
            None => match calls_from(t, p + 4, ctx) {
                Ok((cs, r)) => Ok((seq![t[p + 1].1] + cs, r)),
                Err(e) => Err(e),
            },
        }
    } else {
        Ok((seq![], p))
    }
}

pub proof fn lemma_calls_advance(t: Toks, p: int, ctx: Context)
    ensures
        calls_from(t, p, ctx) matches Ok((_, q)) ==> q >= p,
    decreases left(t, p),
{
    if kind_at(t, p) == Some(Token::Plus) {
        lemma_calls_advance(t, p + 4, ctx);
    }
}

/// The channels of a section from `p` on.
pub open spec fn channels_from(t: Toks, p: int) -> Result<(Seq<ChannelV>, int), ParseError>
    decreases left(t, p),
    via channels_from_decreases
{
    if kind_at(t, p) == Some(Token::Channel) {
        match run_error(t, p, call_head(Token::Channel), 0, Context::SectionChannel) {
            Some(e) => Err(e),
            None => match calls_from(t, p + 7, Context::SectionChannel) {
                Err(e) => Err(e),
                Ok((cs, q)) => match channels_from(t, q) {
                    Ok((chs, r)) => Ok(
                        (
                            seq![ChannelV { name: t[p + 1].1, pattern_calls: seq![t[p + 4].1] + cs }]
                                + chs,
                            r,
                        ),
                    ),
                    Err(e) => Err(e),
                },
            },
        }
    } else {
        Ok((seq![], p))
    }
}

#[via_fn]
proof fn channels_from_decreases(t: Toks, p: int) {
    lemma_calls_advance(t, p + 7, Context::SectionChannel);
}

pub proof fn lemma_events_advance(t: Toks, p: int)
    ensures
        events_from(t, p) matches Ok((_, q)) ==> q >= p,
    decreases left(t, p),
{
    if kind_at(t, p) == Some(Token::LBracket) {
        if let Ok((_, q)) = event_at(t, p) {
            let q2 = if kind_at(t, q) == Some(Token::Plus) {
                q + 1
            } else {
                q
            };
            lemma_events_advance(t, q2);
        }
    }
}

pub proof fn lemma_channels_advance(t: Toks, p: int)
    ensures
        channels_from(t, p) matches Ok((_, q)) ==> q >= p,
    decreases left(t, p),
{
    if kind_at(t, p) == Some(Token::Channel) {
        lemma_calls_advance(t, p + 7, Context::SectionChannel);
        if let Ok((_, q)) = calls_from(t, p + 7, Context::SectionChannel) {
            lemma_channels_advance(t, q);
        }
    }
}

pub open spec fn pattern_at(t: Toks, p: int) -> Result<(PatternV, int), ParseError> {
    match run_error(t, p, pattern_head(), 0, Context::Pattern) {
        Some(e) => Err(e),
        None => match events_from(t, p + 6) {
            Ok((evs, q)) => Ok((PatternV { name: t[p + 1].1, events: evs }, q)),
            Err(e) => Err(e),
        },
    }
}

pub open spec fn section_at(t: Toks, p: int) -> Result<(SectionV, int), ParseError> {
    match run_error(t, p, section_head(), 0, Context::Section) {
        Some(e) => Err(e),
        None => match channels_from(t, p + 3) {
            Ok((chs, q)) => Ok((SectionV { name: t[p + 1].1, channels: chs }, q)),
            Err(e) => Err(e),
        },
    }
}

pub open spec fn song_at(t: Toks, p: int) -> Result<(SongV, int), ParseError> {
    match run_error(t, p, call_head(Token::Song), 0, Context::Song) {
        Some(e) => Err(e),
        None => match calls_from(t, p + 7, Context::Song) {
            Ok((cs, q)) => Ok((SongV { name: t[p + 1].1, entry_sections: seq![t[p + 4].1] + cs }, q)),
            Err(e) => Err(e),
        },
    }
}

/// The declaration starting at `p`, chosen by its first token.
pub open spec fn decl_at(t: Toks, p: int) -> Result<(TopLevelV, int), ParseError> {
    match kind_at(t, p) {
        Some(Token::Instrument) => match instrument_at(t, p) {
            Ok((d, q)) => Ok((TopLevelV::Instrument(d), q)),
            Err(e) => Err(e),
        },
        Some(Token::Pattern) => match pattern_at(t, p) {
            Ok((d, q)) => Ok((TopLevelV::Pattern(d), q)),
            Err(e) => Err(e),
        },
        Some(Token::Section) => match section_at(t, p) {
            Ok((d, q)) => Ok((TopLevelV::Section(d), q)),
            Err(e) => Err(e),
        },
        Some(Token::Song) => match song_at(t, p) {
            Ok((d, q)) => Ok((TopLevelV::Song(d), q)),
            Err(e) => Err(e),
        },
        Some(k) => Err(ParseError::UnexpectedTopLevel { found: k }),
        // Not reached from `decls_from`, which asks for a declaration only where a token stands.
        None => Err(ParseError::Expected { expected: Token::Song, found: None, context: Context::Song }),
    }
}

/// The declarations from `p` to the end of the tokens.
pub open spec fn decls_from(t: Toks, p: int) -> Result<Seq<TopLevelV>, ParseError>
    decreases left(t, p),
    via decls_from_decreases
{
    if p < 0 || p >= t.len() {
        Ok(seq![])
    } else {
        match decl_at(t, p) {
            Err(e) => Err(e),
            Ok((d, q)) => match decls_from(t, q) {
                Ok(ds) => Ok(seq![d] + ds),
                Err(e) => Err(e),
            },
        }
    }
}

pub proof fn lemma_decl_advances(t: Toks, p: int)
    ensures
        decl_at(t, p) matches Ok((_, q)) ==> q > p,
{
    lemma_events_advance(t, p + 6);
    lemma_channels_advance(t, p + 3);
    lemma_calls_advance(t, p + 7, Context::Song);
}

#[via_fn]
proof fn decls_from_decreases(t: Toks, p: int) {
    lemma_events_advance(t, p + 6);
    lemma_channels_advance(t, p + 3);
    lemma_calls_advance(t, p + 7, Context::Song);
}

/// A parse result with `acc` put before what it read.
pub open spec fn prepend<A>(acc: Seq<A>, r: Result<(Seq<A>, int), ParseError>) -> Result<
    (Seq<A>, int),
    ParseError,
> {
    match r {
        Ok((xs, q)) => Ok((acc + xs, q)),
        Err(e) => Err(e),
    }
}

/// A declaration parser's result `r`, with the parser left at `pos`, agrees with `s`.
pub open spec fn decl_outcome(
    r: Result<TopLevel, ParseError>,
    s: Result<(TopLevelV, int), ParseError>,
    pos: int,
) -> bool {
    match s {
        Ok((d, q)) => r matches Ok(v) && v@ == d && pos == q,
        Err(e) => r == Err::<TopLevel, ParseError>(e),
    }
}

pub open spec fn prepend_decls(acc: Seq<TopLevelV>, r: Result<Seq<TopLevelV>, ParseError>) -> Result<
    Seq<TopLevelV>,
    ParseError,
> {
    match r {
        Ok(ds) => Ok(acc + ds),
        Err(e) => Err(e),
    }
}

/// What a parse result says, with declarations seen through their views.
pub open spec fn parse_result_view(r: Result<Vec<TopLevel>, ParseError>) -> Result<
    Seq<TopLevelV>,
    ParseError,
> {
    match r {
        Ok(v) => Ok(decls_view(v@)),
        Err(e) => Err(e),
    }
}

pub proof fn lemma_decimal_grows(s: Seq<char>, i: int)
    requires
        0 <= i <= s.len(),
        forall|k: int| 0 <= k < s.len() ==> is_digit(#[trigger] s[k]),
    ensures
        decimal_value(s) >= decimal_value(s.subrange(0, i)) >= 0,
    decreases s.len(),
{
    if s.len() > 0 {
        assert(s.drop_last() =~= s.subrange(0, s.len() - 1));
        if i == s.len() {
            assert(s.subrange(0, i) =~= s);
            lemma_decimal_grows(s.drop_last(), 0);
        } else {
            assert(s.drop_last().subrange(0, i) =~= s.subrange(0, i));
            lemma_decimal_grows(s.drop_last(), i);
        }
    } else {
        assert(s.subrange(0, i) =~= s);
    }
}

pub proof fn lemma_run_matches(t: Toks, p: int, ks: Seq<Token>, i: int, ctx: Context)
    requires
        0 <= i <= ks.len(),
        forall|k: int| i <= k < ks.len() ==> kind_at(t, p + k) == Some(ks[k]),
    ensures
        run_error(t, p, ks, i, ctx) is None,
    decreases ks.len() - i,
{
    if i < ks.len() {
        lemma_run_matches(t, p, ks, i + 1, ctx);
    }
}

/// The tokens of `Instrument <name> : type : <type_> midi_path : <midi_path>`.
pub open spec fn instrument_tokens(name: Seq<char>, type_: Seq<char>, midi_path: Seq<char>) -> Toks {
    seq![
        (Token::Instrument, "Instrument"@),
        (Token::Identifier, name),
        (Token::Colon, ":"@),
        (Token::Type, "type"@),
        (Token::Colon, ":"@),
        (Token::Identifier, type_),
        (Token::MidiPath, "midi_path"@),
        (Token::Colon, ":"@),
        (Token::Identifier, midi_path),
    ]
}

/// An instrument declaration parses to exactly one instrument that keeps its
/// name, type and timbre-bank path as written.
pub proof fn lemma_instrument_fields_kept(name: Seq<char>, type_: Seq<char>, midi_path: Seq<char>)
    ensures
        decls_from(instrument_tokens(name, type_, midi_path), 0) == Ok::<Seq<TopLevelV>, ParseError>(
            seq![TopLevelV::Instrument(InstrumentV { name, type_, midi_path })],
        ),
{
    let t = instrument_tokens(name, type_, midi_path);
    lemma_run_matches(t, 0, instrument_head(), 0, Context::Instrument);
    assert(decls_from(t, 9) == Ok::<Seq<TopLevelV>, ParseError>(seq![]));
    assert(seq![TopLevelV::Instrument(InstrumentV { name, type_, midi_path })] + seq![] =~= seq![
        TopLevelV::Instrument(InstrumentV { name, type_, midi_path }),
    ]);
}

/// The text `Instrument <name>: type: <type_> midi_path: <midi_path>`.
pub open spec fn instrument_text(name: Seq<char>, type_: Seq<char>, midi_path: Seq<char>) -> Seq<char> {
    "Instrument"@ + seq![' '] + name + seq![':', ' '] + "type"@ + seq![':', ' '] + type_ + seq![' ']
        + "midi_path"@ + seq![':', ' '] + midi_path
}

/// For identifier words that are not keywords, the text
/// `Instrument <name>: type: <type_> midi_path: <midi_path>` parses to one
/// instrument that keeps name, type and timbre-bank path exactly as written.
pub proof fn lemma_instrument_source(name: Seq<char>, type_: Seq<char>, midi_path: Seq<char>)
    requires
        token_ok(Token::Identifier, name),
        token_ok(Token::Identifier, type_),
        token_ok(Token::Identifier, midi_path),
    ensures
        decls_from(lex(instrument_text(name, type_, midi_path)), 0) == Ok::<Seq<TopLevelV>, ParseError>(
            seq![TopLevelV::Instrument(InstrumentV { name, type_, midi_path })],
        ),
{
    reveal_strlit("Instrument");
    reveal_strlit(":");
    reveal_strlit("type");
    reveal_strlit("midi_path");
    reveal_strlit("Pattern");
    reveal_strlit("Section");
    reveal_strlit("Song");
    reveal_strlit("Channel");
    assert("type"@.len() != "Instrument"@.len());
    assert("type"@.len() != "Pattern"@.len());
    assert("type"@.len() != "Section"@.len());
    assert("Song"@[0] != "type"@[0]);
    assert("type"@.len() != "Channel"@.len());
    assert("midi_path"@.len() != "Instrument"@.len());
    assert("midi_path"@.len() != "Pattern"@.len());
    assert("midi_path"@.len() != "Section"@.len());
    assert("midi_path"@.len() != "Song"@.len());
    assert("midi_path"@.len() != "Channel"@.len());
    assert("midi_path"@ != "type"@);
    let colon = seq![':'];
    assert(":"@ =~= colon);
    assert(token_ok(Token::Instrument, "Instrument"@));
    assert(token_ok(Token::Colon, colon));
    assert(token_ok(Token::Type, "type"@));
    assert(token_ok(Token::MidiPath, "midi_path"@));
    let r13 = seq![' '] + midi_path;
    let r12 = colon + r13;
    let r11 = "midi_path"@ + r12;
    let r10 = seq![' '] + r11;
    let r9 = type_ + r10;
    let r8 = seq![' '] + r9;
    let r7 = colon + r8;
    let r6 = "type"@ + r7;
    let r5 = seq![' '] + r6;
    let r4 = colon + r5;
    let r3 = name + r4;
    let r2 = seq![' '] + r3;
    let r1 = "Instrument"@ + r2;
    assert(instrument_text(name, type_, midi_path) =~= r1);
    assert(midi_path + seq![] =~= midi_path);
    lemma_lex_word(Token::Identifier, midi_path, seq![]);
    lemma_lex_space(midi_path);
    lemma_lex_word(Token::Colon, colon, r13);
    lemma_lex_word(Token::MidiPath, "midi_path"@, r12);
    lemma_lex_space(r11);
    lemma_lex_word(Token::Identifier, type_, r10);
    lemma_lex_space(r9);
    lemma_lex_word(Token::Colon, colon, r8);
    lemma_lex_word(Token::Type, "type"@, r7);
    lemma_lex_space(r6);
    lemma_lex_word(Token::Colon, colon, r5);
    lemma_lex_word(Token::Identifier, name, r4);
    lemma_lex_space(r3);
    lemma_lex_word(Token::Instrument, "Instrument"@, r2);
    assert(lex_from(seq![], 0) =~= seq![]);
    assert(lex(instrument_text(name, type_, midi_path)) =~= instrument_tokens(name, type_, midi_path));
    lemma_instrument_fields_kept(name, type_, midi_path);
}

/// Reads a duration number.
fn number_of(text: &String) -> (r: Option<u8>)
    ensures
        r == number_value(text@),
{
    let v = chars_of(text.as_str());
    if v.len() == 0 {
        return None;
    }
    let mut acc: u32 = 0;
    let mut big = false;
    let mut i: usize = 0;
    while i < v.len()
        invariant
            i <= v.len(),
            v@ == text@,
            forall|k: int| 0 <= k < i ==> is_digit(#[trigger] v@[k]),
            !big ==> acc == decimal_value(v@.subrange(0, i as int)) && acc <= 255,
            big ==> decimal_value(v@.subrange(0, i as int)) > 255,
        decreases v.len() - i,
    {
        let c = v[i];
        if !('0' <= c && c <= '9') {
            return None;
        }
        proof {
            let s1 = v@.subrange(0, i as int + 1);
            assert(s1.drop_last() =~= v@.subrange(0, i as int));
            assert(s1.last() == c);
            lemma_decimal_grows(v@.subrange(0, i as int), 0);
        }
        if !big {
            acc = acc * 10 + (c as u32 - '0' as u32);
            if acc > 255 {
                big = true;
            }
        }
        i = i + 1;
    }
    assert(v@.subrange(0, v.len() as int) =~= v@);
    if big {
        None
    } else {
        Some(acc as u8)
    }
}

/// Relies on `char::is_alphanumeric`.
#[verifier::external_body]
fn is_alphanumeric(c: char) -> (r: bool)
    ensures
        r == alphanumeric(c),
{
    c.is_alphanumeric()
}

/// A recursive-descent parser over a token list, with a current position.
pub struct Parser {
    tokens: Vec<(Token, String)>,
    pos: usize,
}

impl Parser {
    /// The tokens, each kind with its text.
    pub closed spec fn toks(&self) -> Toks {
        tokens_view(self.tokens@)
    }

    pub closed spec fn position(&self) -> int {
        self.pos as int
    }

    /// A parser at the start of `tokens`.
    pub fn new(tokens: Vec<(Token, String)>) -> (r: Parser)
        ensures
            r.toks() == tokens_view(tokens@),
            r.position() == 0,
    {
        Parser { tokens, pos: 0 }
    }

    fn peek(&self) -> (r: Option<Token>)
        ensures
            r == kind_at(self.toks(), self.pos as int),
    {
        if self.pos < self.tokens.len() {
            Some(self.tokens[self.pos].0)
        } else {
            None
        }
    }

    /// Takes the current token, if any, and moves past it.
    fn advance(&mut self) -> (r: Option<(Token, String)>)
        ensures
            final(self).tokens == old(self).tokens,
            old(self).pos < old(self).tokens.len() ==> (final(self).pos == old(self).pos + 1
                && (r matches Some((k, s)) && k == old(self).toks()[old(self).pos as int].0 && s@
                == old(self).toks()[old(self).pos as int].1)),
            old(self).pos >= old(self).tokens.len() ==> final(self).pos == old(self).pos
                && r is None,
    {
        if self.pos < self.tokens.len() {
            let k = self.tokens[self.pos].0;
            let s = self.tokens[self.pos].1.clone();
            self.pos = self.pos + 1;
            Some((k, s))
        } else {
            None
        }
    }

    /// Takes a token of kind `expected` and returns its text.
    fn expect(&mut self, expected: Token, context: Context) -> (r: Result<String, ParseError>)
        ensures
            final(self).tokens == old(self).tokens,
            kind_at(old(self).toks(), old(self).pos as int) == Some(expected) ==> (final(self).pos
                == old(self).pos + 1 && (r matches Ok(s) && s@ == old(self).toks()[old(
                self,
            ).pos as int].1)),
            kind_at(old(self).toks(), old(self).pos as int) != Some(expected) ==> r == Err::<
                String,
                ParseError,
            >(
                ParseError::Expected {
                    expected,
                    found: kind_at(old(self).toks(), old(self).pos as int),
                    context,
                },
            ),
    {
        let found = self.peek();
        if found == Some(expected) {
            match self.advance() {
                Some((_, s)) => Ok(s),
                None => Err(ParseError::Expected { expected, found, context }),
            }
        } else {
            Err(ParseError::Expected { expected, found, context })
        }
    }

    /// Takes tokens of the kinds `ks`, in order.
    fn expect_run(&mut self, ks: &[Token], context: Context) -> (r: Result<(), ParseError>)
        ensures
            final(self).tokens == old(self).tokens,
            match run_error(old(self).toks(), old(self).pos as int, ks@, 0, context) {
                None => r is Ok && final(self).pos == old(self).pos + ks@.len(),
                Some(e) => r == Err::<(), ParseError>(e),
            },
    {
        let ghost p0 = self.pos as int;
        let mut i: usize = 0;
        while i < ks.len()
            invariant
                self.tokens == old(self).tokens,
                i <= ks.len(),
                self.pos == p0 + i,
                p0 == old(self).pos,
                run_error(self.toks(), p0, ks@, 0, context) == run_error(
                    self.toks(),
                    p0,
                    ks@,
                    i as int,
                    context,
                ),
            decreases ks.len() - i,
        {
            match self.expect(ks[i], context) {
                Ok(_) => {},
                Err(e) => {
                    return Err(e);
                },
            }
            i = i + 1;
        }
        Ok(())
    }

    /// The text of the token `back` places before the current position.
    fn text_before(&self, back: usize) -> (r: String)
        requires
            back <= self.pos,
            self.pos - back < self.tokens.len(),
        ensures
            r@ == self.toks()[self.pos - back].1,
    {
        self.tokens[self.pos - back].1.clone()
    }

    /// Whether `identifier` is a chord name.
    pub fn is_identifier_chord(&mut self, identifier: &String) -> (r: bool)
        ensures
            *final(self) == *old(self),
            r == is_chord_name(identifier@),
    {
        let v = chars_of(identifier.as_str());
        if v.len() == 0 {
            return false;
        }
        if !('A' <= v[0] && v[0] <= 'G') {
            return false;
        }
        let mut i: usize = 1;
        while i < v.len()
            invariant
                1 <= i <= v.len(),
                v@ == identifier@,
                forall|k: int| 1 <= k < i ==> is_chord_char(#[trigger] v@[k]),
            decreases v.len() - i,
        {
            let c = v[i];
            if !(is_alphanumeric(c) || c == '#' || c == 'b' || c == 'm' || c == '7') {
                return false;
            }
            i = i + 1;
        }
        true
    }

    /// One pattern event.
    fn parse_event(&mut self) -> (r: Result<PatternEvent, ParseError>)
        ensures
            final(self).tokens == old(self).tokens,
            match event_at(old(self).toks(), old(self).pos as int) {
                Ok((ev, q)) => r matches Ok(e) && e@ == ev && final(self).pos == q,
                Err(e) => r == Err::<PatternEvent, ParseError>(e),
            },
    {
        let ghost t = self.toks();
        let ghost p = self.pos as int;
        let head = [Token::LBracket, Token::Number, Token::Colon, Token::Number, Token::RBracket];
        assert(head@ =~= duration_head());
        match self.expect_run(&head, Context::Pattern) {
            Ok(()) => {},
            Err(e) => {
                return Err(e);
            },
        }
        proof {
            lemma_run_ok(t, p, duration_head(), 0, Context::Pattern);
            assert(kind_at(t, p + 4) == Some(Token::RBracket));
        }
        let num_text = self.text_before(4);
        let den_text = self.text_before(2);
        let (num, den) = match (number_of(&num_text), number_of(&den_text)) {
            (Some(num), Some(den)) => (num, den),
            _ => {
                return Err(ParseError::InvalidNumber);
            },
        };
        let (found, word) = match self.advance() {
            Some((k, w)) => (Some(k), w),
            None => (None, String::new()),
        };
        assert(found == kind_at(t, p + 5));
        let is_ident = found == Some(Token::Identifier);
        if is_ident && str_eq(word.as_str(), "Wait") {
            let args = [Token::LParen, Token::RParen];
            assert(args@ =~= empty_args());
            match self.expect_run(&args, Context::Pattern) {
                Ok(()) => Ok(PatternEvent::Wait { duration: (num, den) }),
                Err(e) => Err(e),
            }
        } else if is_ident && str_eq(word.as_str(), "Note") {
            let open = [Token::LParen];
            assert(open@ =~= seq![Token::LParen]);
            match self.expect_run(&open, Context::Pattern) {
                Ok(()) => {},
                Err(e) => {
                    return Err(e);
                },
            }
            let (found, chord) = match self.advance() {
                Some((k, w)) => (Some(k), w),
                None => (None, String::new()),
            };
            assert(found == kind_at(t, p + 7));
            if found == Some(Token::Identifier) && self.is_identifier_chord(&chord) {
                let close = [Token::RParen];
                assert(close@ =~= seq![Token::RParen]);
                match self.expect_run(&close, Context::Pattern) {
                    Ok(()) => Ok(PatternEvent::Note { chord, duration: (num, den) }),
                    Err(e) => Err(e),
                }
            } else {
                Err(ParseError::InvalidChord { found })
            }
        } else {
            Err(ParseError::UnexpectedEvent { found })
        }
    }

    /// The continuations `+ <id>()` at the current position.
    fn parse_calls(&mut self, context: Context) -> (r: Result<Vec<String>, ParseError>)
        ensures
            final(self).tokens == old(self).tokens,
            match calls_from(old(self).toks(), old(self).pos as int, context) {
                Ok((cs, q)) => r matches Ok(v) && names_view(v@) == cs && final(self).pos == q,
                Err(e) => r == Err::<Vec<String>, ParseError>(e),
            },
    {
        let ghost t = self.toks();
        let ghost p0 = self.pos as int;
        let mut calls: Vec<String> = Vec::new();
        while self.peek() == Some(Token::Plus)
            invariant
                self.tokens == old(self).tokens,
                t == self.toks(),
                p0 == old(self).pos,
                calls_from(t, p0, context) == prepend(names_view(calls@), calls_from(t, self.pos as int, context)),
            decreases left(t, self.pos as int),
        {
            let ghost p = self.pos as int;
            let tail = [Token::Plus, Token::Identifier, Token::LParen, Token::RParen];
            assert(tail@ =~= call_tail());
            match self.expect_run(&tail, context) {
                Ok(()) => {},
                Err(e) => {
                    return Err(e);
                },
            }
            proof {
                lemma_run_ok(t, p, call_tail(), 0, context);
            }
            let name = self.text_before(3);
            let ghost before = names_view(calls@);
            calls.push(name);
            proof {
                assert(names_view(calls@) =~= before + seq![t[p + 1].1]);
                match calls_from(t, p + 4, context) {
                    Ok((cs, q)) => {
                        assert(before + seq![t[p + 1].1] + cs =~= before + (seq![t[p + 1].1] + cs));
                    },
                    Err(e) => {},
                }
            }
        }
        assert(names_view(calls@) + seq![] =~= names_view(calls@));
        Ok(calls)
    }

    fn parse_instrument(&mut self) -> (r: Result<TopLevel, ParseError>)
        requires
            kind_at(old(self).toks(), old(self).pos as int) == Some(Token::Instrument),
        ensures
            final(self).tokens == old(self).tokens,
            decl_outcome(r, decl_at(old(self).toks(), old(self).pos as int), final(self).pos as int),
    {
        let ghost t = self.toks();
        let ghost p = self.pos as int;
        let head = [
            Token::Instrument,
            Token::Identifier,
            Token::Colon,
            Token::Type,
            Token::Colon,
            Token::Identifier,
            Token::MidiPath,
            Token::Colon,
            Token::Identifier,
        ];
        assert(head@ =~= instrument_head());
        match self.expect_run(&head, Context::Instrument) {
            Ok(()) => {},
            Err(e) => {
                return Err(e);
            },
        }
        proof {
            lemma_run_ok(t, p, instrument_head(), 0, Context::Instrument);
            assert(kind_at(t, p + 8) == Some(Token::Identifier));
        }
        let name = self.text_before(8);
        let type_ = self.text_before(4);
        let midi_path = self.text_before(1);
        Ok(TopLevel::Instrument(Instrument { name, type_, midi_path }))
    }

    fn parse_pattern(&mut self) -> (r: Result<TopLevel, ParseError>)
        requires
            kind_at(old(self).toks(), old(self).pos as int) == Some(Token::Pattern),
        ensures
            final(self).tokens == old(self).tokens,
            decl_outcome(r, decl_at(old(self).toks(), old(self).pos as int), final(self).pos as int),
    {
        let ghost t = self.toks();
        let ghost p = self.pos as int;
        let head = [
            Token::Pattern,
            Token::Identifier,
            Token::LParen,
            Token::RParen,
            Token::Colon,
            Token::Return,
        ];
        assert(head@ =~= pattern_head());
        match self.expect_run(&head, Context::Pattern) {
            Ok(()) => {},
            Err(e) => {
                return Err(e);
            },
        }
        proof {
            lemma_run_ok(t, p, pattern_head(), 0, Context::Pattern);
            assert(kind_at(t, p + 5) == Some(Token::Return));
        }
        let name = self.text_before(5);
        let mut events: Vec<PatternEvent> = Vec::new();
        while self.peek() == Some(Token::LBracket)
            invariant
                self.tokens == old(self).tokens,
                t == self.toks(),
                p == old(self).pos,
                t == old(self).toks(),
                run_error(t, p, pattern_head(), 0, Context::Pattern) is None,
                name@ == t[p + 1].1,
                events_from(t, p + 6) == prepend(
                    events@.map_values(|e: PatternEvent| e@),
                    events_from(t, self.pos as int),
                ),
            decreases left(t, self.pos as int),
        {
            let ghost q = self.pos as int;
            let ghost before = events@.map_values(|e: PatternEvent| e@);
            let ev = match self.parse_event() {
                Ok(ev) => ev,
                Err(e) => {
                    assert(events_from(t, q) == Err::<(Seq<PatternEventV>, int), ParseError>(e));
                    assert(events_from(t, p + 6) == Err::<(Seq<PatternEventV>, int), ParseError>(e));
                    assert(pattern_at(t, p) == Err::<(PatternV, int), ParseError>(e));
                    return Err(e);
                },
            };
            events.push(ev);
            if self.peek() == Some(Token::Plus) {
                self.advance();
            }
            proof {
                let ghost evv = events@.map_values(|e: PatternEvent| e@);
                assert(evv =~= before + seq![ev@]);
                match events_from(t, self.pos as int) {
                    Ok((evs, r)) => {
                        assert(before + seq![ev@] + evs =~= before + (seq![ev@] + evs));
                    },
                    Err(e) => {},
                }
            }
        }
        let ghost evv = events@.map_values(|e: PatternEvent| e@);
        assert(evv + seq![] =~= evv);
        Ok(TopLevel::Pattern(Pattern { name, events }))
    }

    fn parse_section(&mut self) -> (r: Result<TopLevel, ParseError>)
        requires
            kind_at(old(self).toks(), old(self).pos as int) == Some(Token::Section),
        ensures
            final(self).tokens == old(self).tokens,
            decl_outcome(r, decl_at(old(self).toks(), old(self).pos as int), final(self).pos as int),
    {
        let ghost t = self.toks();
        let ghost p = self.pos as int;
        let head = [Token::Section, Token::Identifier, Token::Colon];
        assert(head@ =~= section_head());
        match self.expect_run(&head, Context::Section) {
            Ok(()) => {},
            Err(e) => {
                return Err(e);
            },
        }
        proof {
            lemma_run_ok(t, p, section_head(), 0, Context::Section);
            assert(kind_at(t, p + 2) == Some(Token::Colon));
        }
        let name = self.text_before(2);
        let mut channels: Vec<Channel> = Vec::new();
        while self.peek() == Some(Token::Channel)
            invariant
                self.tokens == old(self).tokens,
                t == self.toks(),
                p == old(self).pos,
                t == old(self).toks(),
                run_error(t, p, section_head(), 0, Context::Section) is None,
                name@ == t[p + 1].1,
                channels_from(t, p + 3) == prepend(
                    channels@.map_values(|c: Channel| c@),
                    channels_from(t, self.pos as int),
                ),
            decreases left(t, self.pos as int),
        {
            let ghost q = self.pos as int;
            let ghost before = channels@.map_values(|c: Channel| c@);
            let chead = [
                Token::Channel,
                Token::Identifier,
                Token::Colon,
                Token::Return,
                Token::Identifier,
                Token::LParen,
                Token::RParen,
            ];
            assert(chead@ =~= call_head(Token::Channel));
            match self.expect_run(&chead, Context::SectionChannel) {
                Ok(()) => {},
                Err(e) => {
                    assert(channels_from(t, q) == Err::<(Seq<ChannelV>, int), ParseError>(e));
                    assert(channels_from(t, p + 3) == Err::<(Seq<ChannelV>, int), ParseError>(e));
                    assert(section_at(t, p) == Err::<(SectionV, int), ParseError>(e));
                    return Err(e);
                },
            }
            proof {
                lemma_run_ok(t, q, call_head(Token::Channel), 0, Context::SectionChannel);
                assert(kind_at(t, q + 6) == Some(Token::RParen));
            }
            let chan_name = self.text_before(6);
            let first = self.text_before(3);
            let rest = match self.parse_calls(Context::SectionChannel) {
                Ok(rest) => rest,
                Err(e) => {
                    assert(channels_from(t, q) == Err::<(Seq<ChannelV>, int), ParseError>(e));
                    assert(channels_from(t, p + 3) == Err::<(Seq<ChannelV>, int), ParseError>(e));
                    assert(section_at(t, p) == Err::<(SectionV, int), ParseError>(e));
                    return Err(e);
                },
            };
            let mut pattern_calls: Vec<String> = vec![first];
            let mut rest = rest;
            let ghost restv = names_view(rest@);
            pattern_calls.append(&mut rest);
            let channel = Channel { name: chan_name, pattern_calls };
            proof {
                assert(names_view(channel.pattern_calls@) =~= seq![t[q + 4].1] + restv);
            }
            channels.push(channel);
            proof {
                lemma_calls_advance(t, q + 7, Context::SectionChannel);
                let ghost chv = channels@.map_values(|c: Channel| c@);
                assert(chv =~= before + seq![channel@]);
                match channels_from(t, self.pos as int) {
                    Ok((chs, r)) => {
                        assert(before + seq![channel@] + chs =~= before + (seq![channel@] + chs));
                    },
                    Err(e) => {},
                }
            }
        }
        let ghost chv = channels@.map_values(|c: Channel| c@);
        assert(chv + seq![] =~= chv);
        Ok(TopLevel::Section(Section { name, channels }))
    }

    fn parse_song(&mut self) -> (r: Result<TopLevel, ParseError>)
        requires
            kind_at(old(self).toks(), old(self).pos as int) == Some(Token::Song),
        ensures
            final(self).tokens == old(self).tokens,
            decl_outcome(r, decl_at(old(self).toks(), old(self).pos as int), final(self).pos as int),
    {
        let ghost t = self.toks();
        let ghost p = self.pos as int;
        let head = [
            Token::Song,
            Token::Identifier,
            Token::Colon,
            Token::Return,
            Token::Identifier,
            Token::LParen,
            Token::RParen,
        ];
        assert(head@ =~= call_head(Token::Song));
        match self.expect_run(&head, Context::Song) {
            Ok(()) => {},
            Err(e) => {
                return Err(e);
            },
        }
        proof {
            lemma_run_ok(t, p, call_head(Token::Song), 0, Context::Song);
            assert(kind_at(t, p + 6) == Some(Token::RParen));
        }
        let name = self.text_before(6);
        let first = self.text_before(3);
        let mut rest = match self.parse_calls(Context::Song) {
            Ok(rest) => rest,
            Err(e) => {
                return Err(e);
            },
        };
        let ghost restv = names_view(rest@);
        let mut entry_sections: Vec<String> = vec![first];
        entry_sections.append(&mut rest);
        assert(names_view(entry_sections@) =~= seq![t[p + 4].1] + restv);
        Ok(TopLevel::Song(Song { name, entry_sections }))
    }

    /// Reads declarations from the current position to the end of the tokens.
    pub fn parse(&mut self) -> (r: Result<Vec<TopLevel>, ParseError>)
        ensures
            parse_result_view(r) == decls_from(old(self).toks(), old(self).position()),
    {
        let ghost t = self.toks();
        let ghost p0 = self.pos as int;
        let mut items: Vec<TopLevel> = Vec::new();
        while self.pos < self.tokens.len()
            invariant
                self.tokens == old(self).tokens,
                t == self.toks(),
                p0 == old(self).pos,
                decls_from(t, p0) == prepend_decls(decls_view(items@), decls_from(t, self.pos as int)),
            decreases left(t, self.pos as int),
        {
            let ghost q = self.pos as int;
            let ghost before = decls_view(items@);
            let item = match self.peek() {
                Some(Token::Instrument) => self.parse_instrument(),
                Some(Token::Pattern) => self.parse_pattern(),
                Some(Token::Section) => self.parse_section(),
                Some(Token::Song) => self.parse_song(),
                Some(found) => Err(ParseError::UnexpectedTopLevel { found }),
                None => Err(ParseError::UnexpectedTopLevel { found: Token::Error }),
            };
            let item = match item {
                Ok(item) => item,
                Err(e) => {
                    return Err(e);
                },
            };
            items.push(item);
            proof {
                lemma_decl_advances(t, q);
                assert(decls_view(items@) =~= before + seq![item@]);
                match decls_from(t, self.pos as int) {
                    Ok(ds) => {
                        assert(before + seq![item@] + ds =~= before + (seq![item@] + ds));
                    },
                    Err(e) => {},
                }
            }
        }
        assert(decls_view(items@) + seq![] =~= decls_view(items@));
        Ok(items)
    }
}

} // verus!
