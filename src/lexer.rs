use vstd::prelude::*;

use crate::text::{chars_of, str_eq, string_of, sub_chars};

verus! {

/// The lexical categories of the language.
#[derive(Clone, Copy, Debug, PartialEq, Eq, Structural)]
pub enum Token {
    Instrument,
    Pattern,
    Section,
    Song,
    Channel,
    Type,
    MidiPath,
    Return,
    Number,
    Colon,
    LParen,
    RParen,
    LBracket,
    RBracket,
    Plus,
    Equals,
    Dot,
    Comma,
    Hash,
    /// An unrecognised character; never part of what `tokenize` returns.
    Error,
    Identifier,
}

pub open spec fn is_ident_start(c: char) -> bool {
    ('a' <= c && c <= 'z') || ('A' <= c && c <= 'Z') || c == '_'
}

pub open spec fn is_digit(c: char) -> bool {
    '0' <= c && c <= '9'
}

pub open spec fn is_ident_char(c: char) -> bool {
    is_ident_start(c) || is_digit(c)
}

/// The single-character punctuation tokens.
pub open spec fn punct_kind(c: char) -> Option<Token> {
    if c == ':' {
        Some(Token::Colon)
    } else if c == '(' {
        Some(Token::LParen)
    } else if c == ')' {
        Some(Token::RParen)
    } else if c == '[' {
        Some(Token::LBracket)
    } else if c == ']' {
        Some(Token::RBracket)
    } else if c == '+' {
        Some(Token::Plus)
    } else if c == '=' {
        Some(Token::Equals)
    } else if c == '.' {
        Some(Token::Dot)
    } else if c == ',' {
        Some(Token::Comma)
    } else if c == '#' {
        Some(Token::Hash)
    } else {
        None
    }
}

/// A word is a keyword when it is one exactly; otherwise it is an identifier.
pub open spec fn keyword_kind(w: Seq<char>) -> Token {
    if w == "Instrument"@ {
        Token::Instrument
    } else if w == "Pattern"@ {
        Token::Pattern
    } else if w == "Section"@ {
        Token::Section
    } else if w == "Song"@ {
        Token::Song
    } else if w == "Channel"@ {
        Token::Channel
    } else if w == "type"@ {
        Token::Type
    } else if w == "midi_path"@ {
        Token::MidiPath
    } else if w == "return"@ {
        Token::Return
    } else {
        Token::Identifier
    }
}

/// The end of the longest run, starting at `i`, of characters that satisfy `word`
/// (identifier characters) or not (digits).
pub open spec fn run_end(s: Seq<char>, i: int, word: bool) -> int
    decreases s.len() - i,
{
    if 0 <= i < s.len() && (if word { is_ident_char(s[i]) } else { is_digit(s[i]) }) {
        run_end(s, i + 1, word)
    } else {
        i
    }
}

pub proof fn lemma_run_end_bounds(s: Seq<char>, i: int, word: bool)
    requires
        0 <= i <= s.len(),
    ensures
        i <= run_end(s, i, word) <= s.len(),
    decreases s.len() - i,
{
    if i < s.len() && (if word { is_ident_char(s[i]) } else { is_digit(s[i]) }) {
        lemma_run_end_bounds(s, i + 1, word);
    }
}

/// The tokens of `s` from position `i` on: the longest identifier or number
/// starting at a position is one token, keywords taking precedence over
/// identifiers of the same text; punctuation is one character; anything else
/// (whitespace and unrecognised characters) is skipped.
pub open spec fn lex_from(s: Seq<char>, i: int) -> Seq<(Token, Seq<char>)>
    decreases s.len() - i,
    via lex_from_decreases
{
    if i < 0 || i >= s.len() {
        seq![]
    } else if is_ident_start(s[i]) {
        let j = run_end(s, i + 1, true);
        let w = s.subrange(i, j);
        seq![(keyword_kind(w), w)] + lex_from(s, j)
    } else if is_digit(s[i]) {
        let j = run_end(s, i + 1, false);
        seq![(Token::Number, s.subrange(i, j))] + lex_from(s, j)
    } else if punct_kind(s[i]) is Some {
        seq![(punct_kind(s[i])->0, seq![s[i]])] + lex_from(s, i + 1)
    } else {
        lex_from(s, i + 1)
    }
}

#[via_fn]
proof fn lex_from_decreases(s: Seq<char>, i: int) {
    if 0 <= i < s.len() {
        lemma_run_end_bounds(s, i + 1, true);
        lemma_run_end_bounds(s, i + 1, false);
    }
}

/// The tokens of a whole source text.
pub open spec fn lex(s: Seq<char>) -> Seq<(Token, Seq<char>)> {
    lex_from(s, 0)
}

/// What a list of tokens says, with each text seen as its characters.
pub open spec fn tokens_view(v: Seq<(Token, String)>) -> Seq<(Token, Seq<char>)> {
    v.map_values(|t: (Token, String)| (t.0, t.1@))
}

/// A token that the lexer can produce: a word with its keyword-or-identifier
/// kind, a run of digits, or one punctuation character.
pub open spec fn token_ok(k: Token, w: Seq<char>) -> bool {
    w.len() > 0 && ((is_ident_start(w[0]) && (forall|j: int|
        1 <= j < w.len() ==> is_ident_char(#[trigger] w[j])) && k == keyword_kind(w)) || ((forall|
        j: int,
    |
        0 <= j < w.len() ==> is_digit(#[trigger] w[j])) && k == Token::Number) || (w.len() == 1
        && punct_kind(w[0]) == Some(k)))
}

/// The texts of `toks`, each followed by one space.
pub open spec fn spaced(toks: Seq<(Token, Seq<char>)>) -> Seq<char>
    decreases toks.len(),
{
    if toks.len() == 0 {
        seq![]
    } else {
        toks[0].1 + seq![' '] + spaced(toks.drop_first())
    }
}

pub open spec fn in_class(c: char, word: bool) -> bool {
    if word {
        is_ident_char(c)
    } else {
        is_digit(c)
    }
}

pub proof fn lemma_run_end_class(s: Seq<char>, i: int, word: bool)
    requires
        0 <= i <= s.len(),
    ensures
        forall|j: int| i <= j < run_end(s, i, word) ==> in_class(#[trigger] s[j], word),
        run_end(s, i, word) < s.len() ==> !in_class(s[run_end(s, i, word)], word),
    decreases s.len() - i,
{
    if i < s.len() && in_class(s[i], word) {
        lemma_run_end_class(s, i + 1, word);
    }
}

pub proof fn lemma_lex_from_ok(s: Seq<char>, i: int)
    requires
        0 <= i,
    ensures
        forall|k: int| 0 <= k < lex_from(s, i).len() ==> token_ok(#[trigger] lex_from(s, i)[k].0, lex_from(s, i)[k].1),
    decreases s.len() - i,
{
    if i < s.len() {
        if is_ident_start(s[i]) {
            let j = run_end(s, i + 1, true);
            lemma_run_end_bounds(s, i + 1, true);
            lemma_run_end_class(s, i + 1, true);
            lemma_lex_from_ok(s, j);
            let w = s.subrange(i, j);
            assert(forall|m: int| 1 <= m < w.len() ==> #[trigger] w[m] == s[i + m]);
            assert(forall|m: int| 1 <= m < w.len() ==> is_ident_char(#[trigger] w[m]));
            assert(token_ok(keyword_kind(w), w));
            lemma_prepend_ok((keyword_kind(w), w), lex_from(s, j));
        } else if is_digit(s[i]) {
            let j = run_end(s, i + 1, false);
            lemma_run_end_bounds(s, i + 1, false);
            lemma_run_end_class(s, i + 1, false);
            lemma_lex_from_ok(s, j);
            let w = s.subrange(i, j);
            assert(forall|m: int| 0 <= m < w.len() ==> #[trigger] w[m] == s[i + m]);
            assert(forall|m: int| 0 <= m < w.len() ==> is_digit(#[trigger] w[m]));
            assert(token_ok(Token::Number, w));
            lemma_prepend_ok((Token::Number, w), lex_from(s, j));
        } else {
            lemma_lex_from_ok(s, i + 1);
            if punct_kind(s[i]) is Some {
                lemma_prepend_ok((punct_kind(s[i])->0, seq![s[i]]), lex_from(s, i + 1));
            }
        }
    }
}

proof fn lemma_prepend_ok(h: (Token, Seq<char>), rest: Seq<(Token, Seq<char>)>)
    requires
        token_ok(h.0, h.1),
        forall|k: int| 0 <= k < rest.len() ==> token_ok(#[trigger] rest[k].0, rest[k].1),
    ensures
        forall|k: int|
            0 <= k < (seq![h] + rest).len() ==> token_ok(#[trigger] (seq![h] + rest)[k].0, (seq![h] + rest)[k].1),
{
    assert forall|k: int| 0 <= k < (seq![h] + rest).len() implies token_ok(
        #[trigger] (seq![h] + rest)[k].0,
        (seq![h] + rest)[k].1,
    ) by {
        if k > 0 {
            assert((seq![h] + rest)[k] == rest[k - 1]);
        }
    }
}

pub proof fn lemma_run_end_shift(p: Seq<char>, r: Seq<char>, i: int, word: bool)
    requires
        0 <= i <= r.len(),
    ensures
        run_end(p + r, p.len() + i, word) == p.len() + run_end(r, i, word),
    decreases r.len() - i,
{
    if i < r.len() {
        assert((p + r)[p.len() + i] == r[i]);
        lemma_run_end_shift(p, r, i + 1, word);
    }
}

pub proof fn lemma_lex_shift(p: Seq<char>, r: Seq<char>, i: int)
    requires
        0 <= i,
    ensures
        lex_from(p + r, p.len() + i) == lex_from(r, i),
    decreases r.len() - i,
{
    let s = p + r;
    if i < r.len() {
        assert(s[p.len() + i] == r[i]);
        if is_ident_start(r[i]) {
            lemma_run_end_shift(p, r, i + 1, true);
            lemma_run_end_bounds(r, i + 1, true);
            let j = run_end(r, i + 1, true);
            assert(s.subrange(p.len() + i, p.len() + j) =~= r.subrange(i, j));
            lemma_lex_shift(p, r, j);
        } else if is_digit(r[i]) {
            lemma_run_end_shift(p, r, i + 1, false);
            lemma_run_end_bounds(r, i + 1, false);
            let j = run_end(r, i + 1, false);
            assert(s.subrange(p.len() + i, p.len() + j) =~= r.subrange(i, j));
            lemma_lex_shift(p, r, j);
        } else {
            lemma_lex_shift(p, r, i + 1);
        }
    }
}

pub proof fn lemma_run_to_space(w: Seq<char>, r: Seq<char>, i: int, word: bool)
    requires
        1 <= i <= w.len(),
        forall|j: int| 1 <= j < w.len() ==> in_class(#[trigger] w[j], word),
    ensures
        run_end(w + seq![' '] + r, i, word) == w.len(),
    decreases w.len() - i,
{
    let s = w + seq![' '] + r;
    if i < w.len() {
        assert(s[i] == w[i]);
        lemma_run_to_space(w, r, i + 1, word);
    } else {
        assert(s[i] == ' ');
    }
}

pub proof fn lemma_lex_one(k: Token, w: Seq<char>, r: Seq<char>)
    requires
        token_ok(k, w),
    ensures
        lex_from(w + seq![' '] + r, 0) == seq![(k, w)] + lex_from(r, 0),
{
    let p = w + seq![' '];
    let s = p + r;
    assert(s[0] == w[0]);
    assert(s[w.len() as int] == ' ');
    lemma_lex_shift(p, r, 0);
    assert(lex_from(s, w.len() as int + 1) == lex_from(r, 0));
    assert(lex_from(s, w.len() as int) == lex_from(s, w.len() as int + 1));
    if is_ident_start(w[0]) && (forall|j: int| 1 <= j < w.len() ==> is_ident_char(#[trigger] w[j]))
        && k == keyword_kind(w) {
        assert(forall|j: int| 1 <= j < w.len() ==> in_class(#[trigger] w[j], true));
        lemma_run_to_space(w, r, 1, true);
        assert(s.subrange(0, w.len() as int) =~= w);
    } else if (forall|j: int| 0 <= j < w.len() ==> is_digit(#[trigger] w[j])) && k == Token::Number {
        assert(forall|j: int| 1 <= j < w.len() ==> in_class(#[trigger] w[j], false));
        assert(is_digit(w[0]));
        lemma_run_to_space(w, r, 1, false);
        assert(s.subrange(0, w.len() as int) =~= w);
    } else {
        assert(w.len() == 1);
        assert(w =~= seq![w[0]]);
    }
}

/// Whether what follows a token's text leaves the token as it is: nothing, or a
/// character that cannot extend it.
pub open spec fn ends_token(w: Seq<char>, r: Seq<char>) -> bool {
    r.len() == 0 || if is_ident_start(w[0]) {
        !is_ident_char(r[0])
    } else if is_digit(w[0]) {
        !is_digit(r[0])
    } else {
        true
    }
}

pub proof fn lemma_run_to_end(w: Seq<char>, r: Seq<char>, i: int, word: bool)
    requires
        1 <= i <= w.len(),
        forall|j: int| 1 <= j < w.len() ==> in_class(#[trigger] w[j], word),
        r.len() == 0 || !in_class(r[0], word),
    ensures
        run_end(w + r, i, word) == w.len(),
    decreases w.len() - i,
{
    let s = w + r;
    if i < w.len() {
        assert(s[i] == w[i]);
        lemma_run_to_end(w, r, i + 1, word);
    } else if r.len() > 0 {
        assert(s[i] == r[0]);
    }
}

/// A token's text followed by what cannot extend it lexes to that token first.
pub proof fn lemma_lex_word(k: Token, w: Seq<char>, r: Seq<char>)
    requires
        token_ok(k, w),
        ends_token(w, r),
    ensures
        lex_from(w + r, 0) == seq![(k, w)] + lex_from(r, 0),
{
    let s = w + r;
    assert(s[0] == w[0]);
    lemma_lex_shift(w, r, 0);
    if is_ident_start(w[0]) && (forall|j: int| 1 <= j < w.len() ==> is_ident_char(#[trigger] w[j]))
        && k == keyword_kind(w) {
        assert(forall|j: int| 1 <= j < w.len() ==> in_class(#[trigger] w[j], true));
        lemma_run_to_end(w, r, 1, true);
        assert(s.subrange(0, w.len() as int) =~= w);
    } else if (forall|j: int| 0 <= j < w.len() ==> is_digit(#[trigger] w[j])) && k == Token::Number {
        assert(forall|j: int| 1 <= j < w.len() ==> in_class(#[trigger] w[j], false));
        assert(is_digit(w[0]));
        lemma_run_to_end(w, r, 1, false);
        assert(s.subrange(0, w.len() as int) =~= w);
    } else {
        assert(w.len() == 1);
        assert(w =~= seq![w[0]]);
    }
}

/// A leading space produces no token.
pub proof fn lemma_lex_space(r: Seq<char>)
    ensures
        lex_from(seq![' '] + r, 0) == lex_from(r, 0),
{
    lemma_lex_shift(seq![' '], r, 0);
    assert((seq![' '] + r)[0] == ' ');
}

pub proof fn lemma_spaced(toks: Seq<(Token, Seq<char>)>)
    requires
        forall|k: int| 0 <= k < toks.len() ==> token_ok(#[trigger] toks[k].0, toks[k].1),
    ensures
        lex(spaced(toks)) == toks,
    decreases toks.len(),
{
    if toks.len() == 0 {
        assert(lex(spaced(toks)) =~= toks);
    } else {
        let rest = toks.drop_first();
        assert(forall|k: int| 0 <= k < rest.len() ==> rest[k] == toks[k + 1]);
        lemma_spaced(rest);
        lemma_lex_one(toks[0].0, toks[0].1, spaced(rest));
        assert(seq![(toks[0].0, toks[0].1)] + rest =~= toks);
    }
}

/// The kinds of a token list.
pub open spec fn kinds(toks: Seq<(Token, Seq<char>)>) -> Seq<Token> {
    toks.map_values(|t: (Token, Seq<char>)| t.0)
}

/// Tokenizing the token texts of a source, each followed by a single space,
/// gives back the same tokens, and so the same kinds.
pub proof fn lemma_retokenize(s: Seq<char>)
    ensures
        lex(spaced(lex(s))) == lex(s),
        kinds(lex(spaced(lex(s)))) == kinds(lex(s)),
{
    lemma_lex_from_ok(s, 0);
    lemma_spaced(lex(s));
}

fn is_ident_start_exec(c: char) -> (r: bool)
    ensures
        r == is_ident_start(c),
{
    ('a' <= c && c <= 'z') || ('A' <= c && c <= 'Z') || c == '_'
}

fn is_digit_exec(c: char) -> (r: bool)
    ensures
        r == is_digit(c),
{
    '0' <= c && c <= '9'
}

fn punct_kind_exec(c: char) -> (r: Option<Token>)
    ensures
        r == punct_kind(c),
{
    if c == ':' {
        Some(Token::Colon)
    } else if c == '(' {
        Some(Token::LParen)
    } else if c == ')' {
        Some(Token::RParen)
    } else if c == '[' {
        Some(Token::LBracket)
    } else if c == ']' {
        Some(Token::RBracket)
    } else if c == '+' {
        Some(Token::Plus)
    } else if c == '=' {
        Some(Token::Equals)
    } else if c == '.' {
        Some(Token::Dot)
    } else if c == ',' {
        Some(Token::Comma)
    } else if c == '#' {
        Some(Token::Hash)
    } else {
        None
    }
}

fn keyword_kind_exec(w: &str) -> (r: Token)
    ensures
        r == keyword_kind(w@),
{
    if str_eq(w, "Instrument") {
        Token::Instrument
    } else if str_eq(w, "Pattern") {
        Token::Pattern
    } else if str_eq(w, "Section") {
        Token::Section
    } else if str_eq(w, "Song") {
        Token::Song
    } else if str_eq(w, "Channel") {
        Token::Channel
    } else if str_eq(w, "type") {
        Token::Type
    } else if str_eq(w, "midi_path") {
        Token::MidiPath
    } else if str_eq(w, "return") {
        Token::Return
    } else {
        Token::Identifier
    }
}

fn in_run(c: char, word: bool) -> (r: bool)
    ensures
        r == (if word { is_ident_char(c) } else { is_digit(c) }),
{
    if word {
        is_ident_start_exec(c) || is_digit_exec(c)
    } else {
        is_digit_exec(c)
    }
}

fn scan_run(v: &Vec<char>, i: usize, word: bool) -> (j: usize)
    requires
        i <= v.len(),
    ensures
        j == run_end(v@, i as int, word),
        i <= j <= v.len(),
{
    let mut j: usize = i;
    while j < v.len() && in_run(v[j], word)
        invariant
            i <= j <= v.len(),
            run_end(v@, i as int, word) == run_end(v@, j as int, word),
        decreases v.len() - j,
    {
        j = j + 1;
    }
    j
}

/// Splits a source text into its tokens.
pub fn tokenize(source: &str) -> (r: Vec<(Token, String)>)
    ensures
        tokens_view(r@) == lex(source@),
        forall|k: int| 0 <= k < r@.len() ==> r@[k].0 != Token::Error,
{
    let v = chars_of(source);
    let mut out: Vec<(Token, String)> = Vec::new();
    let mut i: usize = 0;
    while i < v.len()
        invariant
            i <= v.len(),
            v@ == source@,
            tokens_view(out@) + lex_from(v@, i as int) == lex(v@),
            forall|k: int| 0 <= k < out@.len() ==> out@[k].0 != Token::Error,
        decreases v.len() - i,
    {
        let c = v[i];
        let ghost old_out = out@;
        let ghost old_i = i as int;
        if is_ident_start_exec(c) {
            let j = scan_run(&v, i + 1, true);
            let text = string_of(sub_chars(&v, i, j).as_slice());
            let kind = keyword_kind_exec(text.as_str());
            out.push((kind, text));
            proof {
                assert(tokens_view(out@) =~= tokens_view(old_out) + seq![(kind, v@.subrange(old_i, j as int))]);
            }
            i = j;
        } else if is_digit_exec(c) {
            let j = scan_run(&v, i + 1, false);
            let text = string_of(sub_chars(&v, i, j).as_slice());
            out.push((Token::Number, text));
            proof {
                assert(tokens_view(out@) =~= tokens_view(old_out) + seq![(Token::Number, v@.subrange(old_i, j as int))]);
            }
            i = j;
        } else {
            match punct_kind_exec(c) {
                Some(kind) => {
                    let text = string_of(sub_chars(&v, i, i + 1).as_slice());
                    out.push((kind, text));
                    proof {
                        assert(v@.subrange(old_i, old_i + 1) =~= seq![c]);
                        assert(tokens_view(out@) =~= tokens_view(old_out) + seq![(kind, seq![c])]);
                    }
                },
                None => {
                    assert(tokens_view(out@) =~= tokens_view(old_out));
                },
            }
            i = i + 1;
        }
        proof {
            assert(tokens_view(out@) + lex_from(v@, i as int) =~= tokens_view(old_out) + lex_from(
                v@,
                old_i,
            ));
        }
    }
    out
}

} // verus!
