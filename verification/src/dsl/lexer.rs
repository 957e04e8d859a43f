use std::ops::Range;
use vstd::prelude::*;

use crate::dsl::File;
use crate::text::{chars_of, slice_is, string_of};

verus! {

/// A token of the rule language.
#[derive(Debug, PartialEq)]
pub enum Token {
    // Definition keywords
    KwFolder,
    KwRule,
    // Key keywords
    KwName,
    KwMatcher,
    KwAction,
    // Matcher keywords
    KwAnd,
    KwOr,
    KwNot,
    KwSubject,
    KwTo,
    KwFrom,
    KwBody,
    KwStartsWith,
    KwContains,
    KwEquals,
    KwRegex,
    // Action keywords
    KwDelete,
    KwMoveTo,
    /// An identifier: a lower-case letter followed by lower-case letters,
    /// digits and underscores.
    Ident(String),
    /// A string literal, without its quotes; escapes are kept as written.
    Str(String),
    // Symbols
    LBrace,
    RBrace,
    LBracket,
    RBracket,
    LParen,
    RParen,
    Colon,
}

/// The mathematical value of a [`Token`]: the same variants, with the text of
/// identifiers and strings as sequences of characters.
pub enum SpecToken {
    KwFolder,
    KwRule,
    KwName,
    KwMatcher,
    KwAction,
    KwAnd,
    KwOr,
    KwNot,
    KwSubject,
    KwTo,
    KwFrom,
    KwBody,
    KwStartsWith,
    KwContains,
    KwEquals,
    KwRegex,
    KwDelete,
    KwMoveTo,
    Ident(Seq<char>),
    Str(Seq<char>),
    LBrace,
    RBrace,
    LBracket,
    RBracket,
    LParen,
    RParen,
    Colon,
}

impl View for Token {
    type V = SpecToken;

    open spec fn view(&self) -> SpecToken {
        match self {
            Token::KwFolder => SpecToken::KwFolder,
            Token::KwRule => SpecToken::KwRule,
            Token::KwName => SpecToken::KwName,
            Token::KwMatcher => SpecToken::KwMatcher,
            Token::KwAction => SpecToken::KwAction,
            Token::KwAnd => SpecToken::KwAnd,
            Token::KwOr => SpecToken::KwOr,
            Token::KwNot => SpecToken::KwNot,
            Token::KwSubject => SpecToken::KwSubject,
            Token::KwTo => SpecToken::KwTo,
            Token::KwFrom => SpecToken::KwFrom,
            Token::KwBody => SpecToken::KwBody,
            Token::KwStartsWith => SpecToken::KwStartsWith,
            Token::KwContains => SpecToken::KwContains,
            Token::KwEquals => SpecToken::KwEquals,
            Token::KwRegex => SpecToken::KwRegex,
            Token::KwDelete => SpecToken::KwDelete,
            Token::KwMoveTo => SpecToken::KwMoveTo,
            Token::Ident(s) => SpecToken::Ident(s@),
            Token::Str(s) => SpecToken::Str(s@),
            Token::LBrace => SpecToken::LBrace,
            Token::RBrace => SpecToken::RBrace,
            Token::LBracket => SpecToken::LBracket,
            Token::RBracket => SpecToken::RBracket,
            Token::LParen => SpecToken::LParen,
            Token::RParen => SpecToken::RParen,
            Token::Colon => SpecToken::Colon,
        }
    }
}

impl Clone for Token {
    fn clone(&self) -> (r: Token)
        ensures
            r@ == self@,
    {
        match self {
            Token::KwFolder => Token::KwFolder,
            Token::KwRule => Token::KwRule,
            Token::KwName => Token::KwName,
            Token::KwMatcher => Token::KwMatcher,
            Token::KwAction => Token::KwAction,
            Token::KwAnd => Token::KwAnd,
            Token::KwOr => Token::KwOr,
            Token::KwNot => Token::KwNot,
            Token::KwSubject => Token::KwSubject,
            Token::KwTo => Token::KwTo,
            Token::KwFrom => Token::KwFrom,
            Token::KwBody => Token::KwBody,
            Token::KwStartsWith => Token::KwStartsWith,
            Token::KwContains => Token::KwContains,
            Token::KwEquals => Token::KwEquals,
            Token::KwRegex => Token::KwRegex,
            Token::KwDelete => Token::KwDelete,
            Token::KwMoveTo => Token::KwMoveTo,
            Token::Ident(s) => Token::Ident(s.clone()),
            Token::Str(s) => Token::Str(s.clone()),
            Token::LBrace => Token::LBrace,
            Token::RBrace => Token::RBrace,
            Token::LBracket => Token::LBracket,
            Token::RBracket => Token::RBracket,
            Token::LParen => Token::LParen,
            Token::RParen => Token::RParen,
            Token::Colon => Token::Colon,
        }
    }
}

// ---------------------------------------------------------------------------
// The lexical grammar
// ---------------------------------------------------------------------------

/// Characters skipped between tokens: space, tab, line feed and form feed.
pub open spec fn is_skip_char(c: char) -> bool {
    c == ' ' || c == '\t' || c == '\n' || c == '\x0C'
}

/// Characters that may start an identifier or a keyword.
pub open spec fn is_ident_start(c: char) -> bool {
    'a' <= c && c <= 'z'
}

/// Characters that may continue an identifier or a keyword.
pub open spec fn is_ident_char(c: char) -> bool {
    is_ident_start(c) || ('0' <= c && c <= '9') || c == '_'
}

pub open spec fn is_hex_digit(c: char) -> bool {
    ('0' <= c && c <= '9') || ('a' <= c && c <= 'f') || ('A' <= c && c <= 'F')
}

/// Characters that may follow a backslash in a string, besides `u`.
pub open spec fn is_simple_escape(c: char) -> bool {
    c == '"' || c == '\\' || c == '/' || c == 'b' || c == 'f' || c == 'n' || c == 'r' || c == 't'
}

/// Control characters, which may not stand unescaped in a string.
pub open spec fn is_control(c: char) -> bool {
    (c as u32) < 0x20
}

/// The first position at or after `i` that does not hold a skipped character.
pub open spec fn skip_end(s: Seq<char>, i: int) -> int
    decreases s.len() - i,
{
    if 0 <= i < s.len() && is_skip_char(s[i]) {
        skip_end(s, i + 1)
    } else {
        i
    }
}

/// The first position at or after `i` that does not hold an identifier character.
pub open spec fn ident_end(s: Seq<char>, i: int) -> int
    decreases s.len() - i,
{
    if 0 <= i < s.len() && is_ident_char(s[i]) {
        ident_end(s, i + 1)
    } else {
        i
    }
}

/// The keyword spelled by `w`, if any.
pub open spec fn keyword_token(w: Seq<char>) -> Option<SpecToken> {
    if w == "folder"@ {
        Some(SpecToken::KwFolder)
    } else if w == "rule"@ {
        Some(SpecToken::KwRule)
    } else if w == "name"@ {
        Some(SpecToken::KwName)
    } else if w == "matcher"@ {
        Some(SpecToken::KwMatcher)
    } else if w == "action"@ {
        Some(SpecToken::KwAction)
    } else if w == "and"@ {
        Some(SpecToken::KwAnd)
    } else if w == "or"@ {
        Some(SpecToken::KwOr)
    } else if w == "not"@ {
        Some(SpecToken::KwNot)
    } else if w == "subject"@ {
        Some(SpecToken::KwSubject)
    } else if w == "to"@ {
        Some(SpecToken::KwTo)
    } else if w == "from"@ {
        Some(SpecToken::KwFrom)
    } else if w == "body"@ {
        Some(SpecToken::KwBody)
    } else if w == "startswith"@ {
        Some(SpecToken::KwStartsWith)
    } else if w == "contains"@ {
        Some(SpecToken::KwContains)
    } else if w == "equals"@ {
        Some(SpecToken::KwEquals)
    } else if w == "regex"@ {
        Some(SpecToken::KwRegex)
    } else if w == "delete"@ {
        Some(SpecToken::KwDelete)
    } else if w == "moveto"@ {
        Some(SpecToken::KwMoveTo)
    } else {
        None
    }
}

/// A maximal run of identifier characters is a keyword when it spells one,
/// and an identifier otherwise.
pub open spec fn word_token(w: Seq<char>) -> SpecToken {
    match keyword_token(w) {
        Some(t) => t,
        None => SpecToken::Ident(w),
    }
}

/// The token of a one-character symbol.
pub open spec fn symbol_token(c: char) -> Option<SpecToken> {
    if c == '{' {
        Some(SpecToken::LBrace)
    } else if c == '}' {
        Some(SpecToken::RBrace)
    } else if c == '[' {
        Some(SpecToken::LBracket)
    } else if c == ']' {
        Some(SpecToken::RBracket)
    } else if c == '(' {
        Some(SpecToken::LParen)
    } else if c == ')' {
        Some(SpecToken::RParen)
    } else if c == ':' {
        Some(SpecToken::Colon)
    } else {
        None
    }
}

/// How many (at most `n`) hexadecimal digits stand from position `k` on.
pub open spec fn hex_run(s: Seq<char>, k: int, n: nat) -> nat
    decreases n,
{
    if n == 0 {
        0
    } else if 0 <= k < s.len() && is_hex_digit(s[k]) {
        1 + hex_run(s, k + 1, (n - 1) as nat)
    } else {
        0
    }
}

/// The outcome of reading the body of a string literal.
pub enum StringScan {
    /// The closing quote stands at this position.
    Closed(int),
    /// The literal cannot be continued at this position (or ends there).
    Stuck(int),
}

/// Reads the body of a string literal from position `k` on: characters other
/// than `"`, `\` and control characters, and the escapes `\"`, `\\`, `\/`,
/// `\b`, `\f`, `\n`, `\r`, `\t` and `\u` followed by four hexadecimal digits.
pub open spec fn scan_string(s: Seq<char>, k: int) -> StringScan
    decreases s.len() - k,
{
    if k < 0 || k >= s.len() {
        StringScan::Stuck(s.len() as int)
    } else if s[k] == '"' {
        StringScan::Closed(k)
    } else if s[k] == '\\' {
        if k + 1 >= s.len() {
            StringScan::Stuck(s.len() as int)
        } else if is_simple_escape(s[k + 1]) {
            scan_string(s, k + 2)
        } else if s[k + 1] == 'u' {
            if hex_run(s, k + 2, 4) == 4 {
                proof {
                    lemma_hex_run_bounds(s, k + 2, 4);
                }
                scan_string(s, k + 6)
            } else {
                StringScan::Stuck(k + 2 + hex_run(s, k + 2, 4))
            }
        } else {
            StringScan::Stuck(k + 1)
        }
    } else if is_control(s[k]) {
        StringScan::Stuck(k)
    } else {
        scan_string(s, k + 1)
    }
}

/// One step of the lexer from position `i`: after skipped characters, the
/// longest token that starts there (keywords win over identifiers of the same
/// text), with the positions where it starts and ends; or an error with the
/// characters that could not be read as a token; or nothing at the end of
/// the input.
pub open spec fn lex_step(s: Seq<char>, i: int) -> Option<(Result<SpecToken, ()>, int, int)> {
    let st = skip_end(s, i);
    if st < 0 || st >= s.len() {
        None
    } else if is_ident_start(s[st]) {
        let e = ident_end(s, st);
        Some((Ok(word_token(s.subrange(st, e))), st, e))
    } else if s[st] == '"' {
        match scan_string(s, st + 1) {
            StringScan::Closed(j) => Some((Ok(SpecToken::Str(s.subrange(st + 1, j))), st, j + 1)),
            StringScan::Stuck(k) => Some((Err(()), st, k)),
        }
    } else {
        match symbol_token(s[st]) {
            Some(t) => Some((Ok(t), st, st + 1)),
            None => Some((Err(()), st, st + 1)),
        }
    }
}

pub proof fn lemma_skip_end_bounds(s: Seq<char>, i: int)
    requires
        0 <= i <= s.len(),
    ensures
        i <= skip_end(s, i) <= s.len(),
        forall|k: int| i <= k < skip_end(s, i) ==> is_skip_char(#[trigger] s[k]),
    decreases s.len() - i,
{
    if i < s.len() && is_skip_char(s[i]) {
        lemma_skip_end_bounds(s, i + 1);
    }
}

pub proof fn lemma_ident_end_bounds(s: Seq<char>, i: int)
    requires
        0 <= i <= s.len(),
    ensures
        i <= ident_end(s, i) <= s.len(),
        forall|k: int| i <= k < ident_end(s, i) ==> is_ident_char(#[trigger] s[k]),
        ident_end(s, i) < s.len() ==> !is_ident_char(s[ident_end(s, i)]),
    decreases s.len() - i,
{
    if i < s.len() && is_ident_char(s[i]) {
        lemma_ident_end_bounds(s, i + 1);
    }
}

pub proof fn lemma_hex_run_bounds(s: Seq<char>, k: int, n: nat)
    requires
        0 <= k,
    ensures
        hex_run(s, k, n) <= n,
        k + hex_run(s, k, n) <= s.len() || hex_run(s, k, n) == 0,
        forall|j: int| k <= j < k + hex_run(s, k, n) ==> is_hex_digit(#[trigger] s[j]),
        hex_run(s, k, n) < n ==> !(0 <= k + hex_run(s, k, n) < s.len() && is_hex_digit(
            s[k + hex_run(s, k, n)],
        )),
    decreases n,
{
    if n > 0 && 0 <= k < s.len() && is_hex_digit(s[k]) {
        lemma_hex_run_bounds(s, k + 1, (n - 1) as nat);
    }
}

pub proof fn lemma_scan_string_bounds(s: Seq<char>, k: int)
    requires
        0 <= k,
    ensures
        match scan_string(s, k) {
            StringScan::Closed(j) => k <= j < s.len() && s[j] == '"',
            StringScan::Stuck(m) => k <= m <= s.len() || (k > s.len() && m == s.len()),
        },
    decreases s.len() - k,
{
    if k >= s.len() {
    } else if s[k] == '"' {
    } else if s[k] == '\\' {
        if k + 1 >= s.len() {
        } else if is_simple_escape(s[k + 1]) {
            lemma_scan_string_bounds(s, k + 2);
        } else if s[k + 1] == 'u' {
            lemma_hex_run_bounds(s, k + 2, 4);
            if hex_run(s, k + 2, 4) == 4 {
                lemma_scan_string_bounds(s, k + 6);
            }
        }
    } else if is_control(s[k]) {
    } else {
        lemma_scan_string_bounds(s, k + 1);
    }
}

/// Every step of the lexer moves forward and stays within the input.
pub proof fn lemma_lex_step_progress(s: Seq<char>, i: int)
    requires
        0 <= i <= s.len(),
    ensures
        match lex_step(s, i) {
            Some((_, st, en)) => i <= st < en <= s.len(),
            None => true,
        },
{
    lemma_skip_end_bounds(s, i);
    let st = skip_end(s, i);
    if st < s.len() {
        if is_ident_start(s[st]) {
            lemma_ident_end_bounds(s, st);
        } else if s[st] == '"' {
            lemma_scan_string_bounds(s, st + 1);
        }
    }
}

/// All the steps of the lexer from position `i` to the end of the input.
pub open spec fn lex_from(s: Seq<char>, i: int) -> Seq<(Result<SpecToken, ()>, int, int)>
    decreases s.len() - i,
{
    if 0 <= i <= s.len() {
        match lex_step(s, i) {
            None => seq![],
            Some(t) => {
                proof {
                    lemma_lex_step_progress(s, i);
                }
                seq![t] + lex_from(s, t.2)
            },
        }
    } else {
        seq![]
    }
}

// ---------------------------------------------------------------------------
// Byte offsets
// ---------------------------------------------------------------------------

/// The number of bytes of the UTF-8 encoding of `c`.
pub open spec fn utf8_width(c: char) -> nat {
    if (c as u32) <= 0x7F {
        1
    } else if (c as u32) <= 0x7FF {
        2
    } else if (c as u32) <= 0xFFFF {
        3
    } else {
        4
    }
}

/// The number of bytes of the UTF-8 encoding of `s`.
pub open spec fn utf8_len(s: Seq<char>) -> nat
    decreases s.len(),
{
    if s.len() == 0 {
        0
    } else {
        utf8_len(s.drop_last()) + utf8_width(s.last())
    }
}

/// The byte offset, in the UTF-8 encoding of `s`, of the character at position `i`.
pub open spec fn byte_offset(s: Seq<char>, i: int) -> nat {
    utf8_len(s.take(i))
}

pub proof fn lemma_byte_offset_step(s: Seq<char>, i: int)
    requires
        0 <= i < s.len(),
    ensures
        byte_offset(s, i + 1) == byte_offset(s, i) + utf8_width(s[i]),
{
    assert(s.take(i + 1).drop_last() =~= s.take(i));
}

pub proof fn lemma_byte_offset_monotone(s: Seq<char>, i: int, j: int)
    requires
        0 <= i <= j <= s.len(),
    ensures
        byte_offset(s, i) <= byte_offset(s, j),
    decreases j - i,
{
    if i < j {
        lemma_byte_offset_step(s, j - 1);
        lemma_byte_offset_monotone(s, i, j - 1);
    }
}

pub proof fn lemma_byte_offset_end(s: Seq<char>)
    ensures
        byte_offset(s, s.len() as int) == utf8_len(s),
{
    assert(s.take(s.len() as int) =~= s);
}

fn char_width(c: char) -> (w: usize)
    ensures
        w == utf8_width(c),
{
    let v = c as u32;
    if v <= 0x7F {
        1
    } else if v <= 0x7FF {
        2
    } else if v <= 0xFFFF {
        3
    } else {
        4
    }
}

// ---------------------------------------------------------------------------
// The lexer
// ---------------------------------------------------------------------------

/// A lexer over one input text. Each call of [`Lexer::next`] gives the next
/// token (or an error for text that is no token), and [`Lexer::span`] gives
/// the byte range of what it read.
pub struct Lexer {
    chars: Vec<char>,
    pos: usize,
    byte_pos: usize,
    last_span: Range<usize>,
}

impl Lexer {
    /// The text being read.
    pub closed spec fn source(&self) -> Seq<char> {
        self.chars@
    }

    /// The position (in characters) up to which the text has been read.
    pub closed spec fn position(&self) -> int {
        self.pos as int
    }

    /// The byte range of the last token read.
    pub closed spec fn spec_span(&self) -> Range<usize> {
        self.last_span
    }

    /// The lexer's internal bookkeeping is consistent.
    pub closed spec fn wf(&self) -> bool {
        &&& self.pos <= self.chars@.len()
        &&& self.byte_pos == byte_offset(self.chars@, self.pos as int)
        &&& utf8_len(self.chars@) <= usize::MAX
    }

    /// Gives the next token, `Some(Err(()))` for text that is no token, and
    /// `None` at the end of the input.
    pub fn next(&mut self) -> (r: Option<Result<Token, ()>>)
        requires
            old(self).wf(),
        ensures
            final(self).wf(),
            final(self).source() == old(self).source(),
            match lex_step(old(self).source(), old(self).position()) {
                None => r is None,
                Some((t, st, en)) => {
                    &&& r is Some
                    &&& final(self).position() == en
                    &&& final(self).spec_span() == (Range {
                        start: byte_offset(old(self).source(), st) as usize,
                        end: byte_offset(old(self).source(), en) as usize,
                    })
                    &&& match (r.unwrap(), t) {
                        (Ok(tok), Ok(spec_tok)) => tok@ == spec_tok,
                        (Err(_), Err(_)) => true,
                        _ => false,
                    }
                },
            },
    {
        let ghost s = self.chars@;
        let ghost i0 = self.pos as int;
        proof {
            lemma_skip_end_bounds(s, i0);
            lemma_lex_step_progress(s, i0);
        }
        let n = self.chars.len();
        // Skip whitespace.
        let mut st = self.pos;
        let mut st_byte = self.byte_pos;
        while st < n && (self.chars[st] == ' ' || self.chars[st] == '\t' || self.chars[st] == '\n'
            || self.chars[st] == '\x0C')
            invariant
                s == self.chars@,
                n == s.len(),
                i0 <= st <= n,
                skip_end(s, st as int) == skip_end(s, i0),
                st_byte == byte_offset(s, st as int),
                utf8_len(s) <= usize::MAX,
            decreases n - st,
        {
            proof {
                lemma_byte_offset_step(s, st as int);
                lemma_byte_offset_monotone(s, st + 1, n as int);
                lemma_byte_offset_end(s);
            }
            st_byte = st_byte + char_width(self.chars[st]);
            st = st + 1;
        }
        assert(st == skip_end(s, i0));
        if st >= n {
            self.pos = st;
            self.byte_pos = st_byte;
            return None;
        }
        let c = self.chars[st];
        let (res, en): (Result<Token, ()>, usize) = if 'a' <= c && c <= 'z' {
            let e = ident_end_exec(&self.chars, st);
            (Ok(word_token_exec(&self.chars, st, e)), e)
        } else if c == '"' {
            proof {
                lemma_scan_string_bounds(s, st + 1);
            }
            match scan_string_exec(&self.chars, st + 1) {
                Ok(j) => (Ok(Token::Str(string_of(&self.chars, st + 1, j))), j + 1),
                Err(k) => (Err(()), k),
            }
        } else {
            match symbol_token_exec(c) {
                Some(t) => (Ok(t), st + 1),
                None => (Err(()), st + 1),
            }
        };
        // Advance the byte offset over the token.
        let mut k = st;
        let mut en_byte = st_byte;
        while k < en
            invariant
                s == self.chars@,
                n == s.len(),
                st <= k <= en <= n,
                en_byte == byte_offset(s, k as int),
                utf8_len(s) <= usize::MAX,
            decreases en - k,
        {
            proof {
                lemma_byte_offset_step(s, k as int);
                lemma_byte_offset_monotone(s, k + 1, n as int);
                lemma_byte_offset_end(s);
            }
            en_byte = en_byte + char_width(self.chars[k]);
            k = k + 1;
        }
        self.pos = en;
        self.byte_pos = en_byte;
        self.last_span = Range { start: st_byte, end: en_byte };
        Some(res)
    }

    /// The byte range, in the input text, of the last token read.
    pub fn span(&self) -> (r: Range<usize>)
        ensures
            r == self.spec_span(),
    {
        Range { start: self.last_span.start, end: self.last_span.end }
    }
}

fn ident_end_exec(chars: &Vec<char>, i: usize) -> (e: usize)
    requires
        i <= chars@.len(),
    ensures
        e == ident_end(chars@, i as int),
{
    let mut e = i;
    while e < chars.len() && (('a' <= chars[e] && chars[e] <= 'z') || ('0' <= chars[e] && chars[e]
        <= '9') || chars[e] == '_')
        invariant
            i <= e <= chars@.len(),
            ident_end(chars@, e as int) == ident_end(chars@, i as int),
        decreases chars@.len() - e,
    {
        e = e + 1;
    }
    e
}

fn symbol_token_exec(c: char) -> (t: Option<Token>)
    ensures
        match (t, symbol_token(c)) {
            (Some(a), Some(b)) => a@ == b,
            (None, None) => true,
            _ => false,
        },
{
    if c == '{' {
        Some(Token::LBrace)
    } else if c == '}' {
        Some(Token::RBrace)
    } else if c == '[' {
        Some(Token::LBracket)
    } else if c == ']' {
        Some(Token::RBracket)
    } else if c == '(' {
        Some(Token::LParen)
    } else if c == ')' {
        Some(Token::RParen)
    } else if c == ':' {
        Some(Token::Colon)
    } else {
        None
    }
}

fn word_token_exec(chars: &Vec<char>, lo: usize, hi: usize) -> (t: Token)
    requires
        lo <= hi <= chars@.len(),
    ensures
        t@ == word_token(chars@.subrange(lo as int, hi as int)),
{
    if slice_is(chars, lo, hi, "folder") {
        Token::KwFolder
    } else if slice_is(chars, lo, hi, "rule") {
        Token::KwRule
    } else if slice_is(chars, lo, hi, "name") {
        Token::KwName
    } else if slice_is(chars, lo, hi, "matcher") {
        Token::KwMatcher
    } else if slice_is(chars, lo, hi, "action") {
        Token::KwAction
    } else if slice_is(chars, lo, hi, "and") {
        Token::KwAnd
    } else if slice_is(chars, lo, hi, "or") {
        Token::KwOr
    } else if slice_is(chars, lo, hi, "not") {
        Token::KwNot
    } else if slice_is(chars, lo, hi, "subject") {
        Token::KwSubject
    } else if slice_is(chars, lo, hi, "to") {
        Token::KwTo
    } else if slice_is(chars, lo, hi, "from") {
        Token::KwFrom
    } else if slice_is(chars, lo, hi, "body") {
        Token::KwBody
    } else if slice_is(chars, lo, hi, "startswith") {
        Token::KwStartsWith
    } else if slice_is(chars, lo, hi, "contains") {
        Token::KwContains
    } else if slice_is(chars, lo, hi, "equals") {
        Token::KwEquals
    } else if slice_is(chars, lo, hi, "regex") {
        Token::KwRegex
    } else if slice_is(chars, lo, hi, "delete") {
        Token::KwDelete
    } else if slice_is(chars, lo, hi, "moveto") {
        Token::KwMoveTo
    } else {
        Token::Ident(string_of(chars, lo, hi))
    }
}

/// Reads a string body from `k` on: `Ok(j)` with the closing quote at `j`,
/// or `Err(m)` where the literal got stuck.
fn scan_string_exec(chars: &Vec<char>, k0: usize) -> (r: Result<usize, usize>)
    requires
        1 <= k0 <= chars@.len(),
    ensures
        match (r, scan_string(chars@, k0 as int)) {
            (Ok(j), StringScan::Closed(j2)) => j == j2,
            (Err(m), StringScan::Stuck(m2)) => m == m2,
            _ => false,
        },
{
    let n = chars.len();
    let mut k = k0;
    while k < n
        invariant
            n == chars@.len(),
            k0 <= k <= n,
            scan_string(chars@, k as int) == scan_string(chars@, k0 as int),
        decreases n - k,
    {
        let c = chars[k];
        if c == '"' {
            return Ok(k);
        } else if c == '\\' {
            if k + 1 >= n {
                return Err(n);
            }
            let e = chars[k + 1];
            if e == '"' || e == '\\' || e == '/' || e == 'b' || e == 'f' || e == 'n' || e == 'r'
                || e == 't' {
                k = k + 2;
            } else if e == 'u' {
                let h = hex_run_exec(chars, k + 2, 4);
                proof {
                    lemma_hex_run_bounds(chars@, k + 2, 4);
                }
                if h == 4 {
                    k = k + 6;
                } else {
                    return Err(k + 2 + h);
                }
            } else {
                return Err(k + 1);
            }
        } else if (c as u32) < 0x20 {
            return Err(k);
        } else {
            k = k + 1;
        }
    }
    Err(n)
}

fn hex_run_exec(chars: &Vec<char>, k: usize, n: usize) -> (h: usize)
    requires
        k <= chars@.len(),
        n <= 4,
    ensures
        h == hex_run(chars@, k as int, n as nat),
    decreases n,
{
    proof {
        lemma_hex_run_bounds(chars@, k as int, n as nat);
    }
    if n == 0 {
        0
    } else if k < chars.len() && (('0' <= chars[k] && chars[k] <= '9') || ('a' <= chars[k]
        && chars[k] <= 'f') || ('A' <= chars[k] && chars[k] <= 'F')) {
        1 + hex_run_exec(chars, k + 1, n - 1)
    } else {
        0
    }
}

impl Token {
    /// A lexer over `src`.
    pub fn lexer(src: &str) -> (l: Lexer)
        requires
            utf8_len(src@) <= usize::MAX,
        ensures
            l.wf(),
            l.source() == src@,
            l.position() == 0,
    {
        let chars = chars_of(src);
        proof {
            assert(chars@.take(0) =~= Seq::<char>::empty());
        }
        Lexer { chars, pos: 0, byte_pos: 0, last_span: Range { start: 0, end: 0 } }
    }
}

// ---------------------------------------------------------------------------
// Lexing a whole file
// ---------------------------------------------------------------------------

/// Text that is no token, at this byte range of the file.
#[derive(Debug, Clone, PartialEq, Eq)]
pub struct LexError {
    pub span: Range<usize>,
}

/// The byte range of a lexer step.
pub open spec fn step_span(s: Seq<char>, t: (Result<SpecToken, ()>, int, int)) -> Range<usize> {
    Range { start: byte_offset(s, t.1) as usize, end: byte_offset(s, t.2) as usize }
}

/// Whether no step of `steps` is an error.
pub open spec fn all_ok(steps: Seq<(Result<SpecToken, ()>, int, int)>) -> bool {
    forall|k: int| 0 <= k < steps.len() ==> (#[trigger] steps[k]).0 is Ok
}

/// The byte ranges of the erroneous steps of `steps`, in order.
pub open spec fn error_spans(s: Seq<char>, steps: Seq<(Result<SpecToken, ()>, int, int)>) -> Seq<
    Range<usize>,
>
    decreases steps.len(),
{
    if steps.len() == 0 {
        seq![]
    } else {
        let prev = error_spans(s, steps.drop_last());
        if steps.last().0 is Err {
            prev.push(step_span(s, steps.last()))
        } else {
            prev
        }
    }
}

pub proof fn lemma_error_spans_empty(s: Seq<char>, steps: Seq<(Result<SpecToken, ()>, int, int)>)
    ensures
        error_spans(s, steps).len() == 0 <==> all_ok(steps),
    decreases steps.len(),
{
    if steps.len() > 0 {
        lemma_error_spans_empty(s, steps.drop_last());
        if all_ok(steps) {
            assert(steps[steps.len() - 1].0 is Ok);
            assert forall|k: int| 0 <= k < steps.drop_last().len() implies (
            #[trigger] steps.drop_last()[k]).0 is Ok by {
                assert(steps.drop_last()[k] == steps[k]);
            }
        } else if error_spans(s, steps).len() == 0 {
            assert(steps.last().0 is Ok);
            let k = choose|k: int| 0 <= k < steps.len() && !((#[trigger] steps[k]).0 is Ok);
            assert(steps.drop_last()[k] == steps[k]);
        }
    }
}

/// Lexes the whole text of `file`. When some text is no token, gives the
/// byte ranges of all such text, in order; otherwise gives every token with
/// its byte range.
pub fn process_tokens(file: &File) -> (r: Result<Vec<(Token, Range<usize>)>, Vec<LexError>>)
    requires
        utf8_len(file.contents@) <= usize::MAX,
    ensures
        r is Ok <==> all_ok(lex_from(file.contents@, 0)),
        r matches Ok(v) ==> {
            &&& v@.len() == lex_from(file.contents@, 0).len()
            &&& forall|k: int|
                0 <= k < v@.len() ==> {
                    &&& lex_from(file.contents@, 0)[k].0 matches Ok(t) && (#[trigger] v@[k]).0@
                        == t
                    &&& v@[k].1 == step_span(file.contents@, lex_from(file.contents@, 0)[k])
                }
        },
        r matches Err(e) ==> e@.len() == error_spans(file.contents@, lex_from(file.contents@, 0)).len(),
        r matches Err(e) ==> forall|k: int|
            0 <= k < e@.len() ==> (#[trigger] e@[k]).span == error_spans(
                file.contents@,
                lex_from(file.contents@, 0),
            )[k],
{
    let ghost s = file.contents@;
    let ghost steps = lex_from(s, 0);
    let mut lexer = Token::lexer(file.contents.as_str());
    let mut tokens: Vec<(Token, Range<usize>)> = Vec::new();
    let mut errors: Vec<LexError> = Vec::new();
    let ghost mut done: Seq<(Result<SpecToken, ()>, int, int)> = seq![];
    loop
        invariant
            s == file.contents@,
            steps == lex_from(s, 0),
            lexer.wf(),
            lexer.source() == s,
            0 <= lexer.position() <= s.len(),
            steps == done + lex_from(s, lexer.position()),
            tokens@.len() <= done.len(),
            errors@.len() == error_spans(s, done).len(),
            forall|k: int|
                0 <= k < errors@.len() ==> (#[trigger] errors@[k]).span == error_spans(s, done)[k],
            all_ok(done) ==> {
                &&& tokens@.len() == done.len()
                &&& forall|k: int|
                    0 <= k < done.len() ==> {
                        &&& done[k].0 matches Ok(t) && (#[trigger] tokens@[k]).0@ == t
                        &&& tokens@[k].1 == step_span(s, done[k])
                    }
            },
        decreases s.len() - lexer.position(),
    {
        let ghost pos = lexer.position();
        proof {
            lemma_lex_step_progress(s, pos);
            lemma_error_spans_empty(s, done);
        }
        let next = lexer.next();
        let span = lexer.span();
        match next {
            None => {
                assert(lex_step(s, pos) is None);
                assert(lex_from(s, pos) =~= seq![]);
                assert(steps =~= done);
                proof {
                    lemma_error_spans_empty(s, done);
                }
                if errors.len() == 0 {
                    assert(all_ok(steps));

                    assert(tokens@.len() == steps.len());
                    return Ok(tokens);
                } else {
                    assert(!all_ok(steps));
                    return Err(errors);
                }
            },
            Some(res) => {
                let ghost step = lex_step(s, pos).unwrap();
                assert(lex_from(s, pos) == seq![step] + lex_from(s, step.2));
                let ghost new_done = done.push(step);
                assert(steps == new_done + lex_from(s, step.2)) by {
                    assert(done + (seq![step] + lex_from(s, step.2)) =~= new_done + lex_from(
                        s,
                        step.2,
                    ));
                }
                assert(new_done.drop_last() =~= done);
                match res {
                    Ok(tok) => {
                        tokens.push((tok, span));
                        proof {
                            if all_ok(new_done) {
                                assert forall|k: int| 0 <= k < done.len() implies (
                                #[trigger] done[k]).0 is Ok by {
                                    assert(new_done[k] == done[k]);
                                }
                                assert forall|k: int|
                                    0 <= k < new_done.len() implies {
                                        &&& new_done[k].0 matches Ok(t) && (
                                        #[trigger] tokens@[k]).0@ == t
                                        &&& tokens@[k].1 == step_span(s, new_done[k])
                                    } by {
                                    if k < done.len() {
                                        assert(new_done[k] == done[k]);
                                    }
                                }
                            }
                        }
                    },
                    Err(_) => {
                        errors.push(LexError { span });
                        proof {
                            assert(!all_ok(new_done)) by {
                                assert(!(new_done[new_done.len() - 1].0 is Ok));
                            }
                        }
                    },
                }
                proof {
                    done = new_done;
                }
            },
        }
    }
}

// ---------------------------------------------------------------------------
// The length of a text in bytes
// ---------------------------------------------------------------------------

proof fn lemma_utf8_width_encoding(c: char)
    ensures
        utf8_width(c) == vstd::utf8::encode_scalar(c as u32).len(),
{
}

proof fn lemma_utf8_len_append(a: Seq<char>, b: Seq<char>)
    ensures
        utf8_len(a + b) == utf8_len(a) + utf8_len(b),
    decreases b.len(),
{
    if b.len() == 0 {
        assert(a + b =~= a);
    } else {
        lemma_utf8_len_append(a, b.drop_last());
        assert((a + b).drop_last() =~= a + b.drop_last());
    }
}

/// [`utf8_len`] is the length of the UTF-8 encoding that vstd gives to
/// strings.
pub proof fn lemma_utf8_len_encoding(s: Seq<char>)
    ensures
        utf8_len(s) == vstd::utf8::encode_utf8(s).len(),
    decreases s.len(),
{
    if s.len() > 0 {
        lemma_utf8_len_encoding(s.drop_first());
        lemma_utf8_len_append(seq![s[0]], s.drop_first());
        assert(seq![s[0]] + s.drop_first() =~= s);
        assert(seq![s[0]].drop_last() =~= Seq::<char>::empty());
        assert(utf8_len(Seq::<char>::empty()) == 0);
        assert(utf8_len(seq![s[0]]) == utf8_width(s[0]));
        lemma_utf8_width_encoding(s[0]);
        assert(vstd::utf8::encode_utf8(s).len() == vstd::utf8::encode_scalar(s[0] as u32).len()
            + vstd::utf8::encode_utf8(s.drop_first()).len());
    }
}

/// The UTF-8 length of a string's text fits in a `usize`.
pub fn text_fits(s: &str)
    ensures
        utf8_len(s@) <= usize::MAX,
{
    let n = s.as_bytes().len();
    proof {
        lemma_utf8_len_encoding(s@);
    }
}

// ---------------------------------------------------------------------------
// Describing tokens in error messages
// ---------------------------------------------------------------------------

/// How an error message names a token.
pub open spec fn token_description(t: SpecToken) -> Seq<char> {
    match t {
        SpecToken::KwFolder => "keyword 'folder'"@,
        SpecToken::KwRule => "keyword 'rule'"@,
        SpecToken::KwName => "keyword 'name'"@,
        SpecToken::KwMatcher => "keyword 'matcher'"@,
        SpecToken::KwAction => "keyword 'action'"@,
        SpecToken::KwAnd => "keyword 'and'"@,
        SpecToken::KwOr => "keyword 'or'"@,
        SpecToken::KwNot => "keyword 'not'"@,
        SpecToken::KwSubject => "keyword 'subject'"@,
        SpecToken::KwTo => "keyword 'to'"@,
        SpecToken::KwFrom => "keyword 'from'"@,
        SpecToken::KwBody => "keyword 'body'"@,
        SpecToken::KwStartsWith => "keyword 'startswith'"@,
        SpecToken::KwContains => "keyword 'contains'"@,
        SpecToken::KwEquals => "keyword 'equals'"@,
        SpecToken::KwRegex => "keyword 'regex'"@,
        SpecToken::KwDelete => "keyword 'delete'"@,
        SpecToken::KwMoveTo => "keyword 'moveto'"@,
        SpecToken::Ident(_) => "an identifier"@,
        SpecToken::Str(_) => "a string"@,
        SpecToken::LBrace => "'{'"@,
        SpecToken::RBrace => "'}'"@,
        SpecToken::LBracket => "'['"@,
        SpecToken::RBracket => "']'"@,
        SpecToken::LParen => "'('"@,
        SpecToken::RParen => "')'"@,
        SpecToken::Colon => "':'"@,
    }
}

impl Token {
    /// How an error message names this token.
    pub fn to_err_string(&self) -> (s: String)
        ensures
            s@ == token_description(self@),
    {
        match self {
            Token::KwFolder => "keyword 'folder'".to_owned(),
            Token::KwRule => "keyword 'rule'".to_owned(),
            Token::KwName => "keyword 'name'".to_owned(),
            Token::KwMatcher => "keyword 'matcher'".to_owned(),
            Token::KwAction => "keyword 'action'".to_owned(),
            Token::KwAnd => "keyword 'and'".to_owned(),
            Token::KwOr => "keyword 'or'".to_owned(),
            Token::KwNot => "keyword 'not'".to_owned(),
            Token::KwSubject => "keyword 'subject'".to_owned(),
            Token::KwTo => "keyword 'to'".to_owned(),
            Token::KwFrom => "keyword 'from'".to_owned(),
            Token::KwBody => "keyword 'body'".to_owned(),
            Token::KwStartsWith => "keyword 'startswith'".to_owned(),
            Token::KwContains => "keyword 'contains'".to_owned(),
            Token::KwEquals => "keyword 'equals'".to_owned(),
            Token::KwRegex => "keyword 'regex'".to_owned(),
            Token::KwDelete => "keyword 'delete'".to_owned(),
            Token::KwMoveTo => "keyword 'moveto'".to_owned(),
            Token::Ident(_) => "an identifier".to_owned(),
            Token::Str(_) => "a string".to_owned(),
            Token::LBrace => "'{'".to_owned(),
            Token::RBrace => "'}'".to_owned(),
            Token::LBracket => "'['".to_owned(),
            Token::RBracket => "']'".to_owned(),
            Token::LParen => "'('".to_owned(),
            Token::RParen => "')'".to_owned(),
            Token::Colon => "':'".to_owned(),
        }
    }
}

/// Identifiers are snake_case words that are no keyword: an identifier
/// token is the text it was read from, starts with a lowercase letter, goes
/// on with lowercase letters, digits and underscores, spells no keyword, and
/// is not followed by another identifier character.
pub proof fn lemma_identifier_tokens(s: Seq<char>, i: int)
    requires
        0 <= i <= s.len(),
        lex_step(s, i) matches Some((Ok(SpecToken::Ident(_)), _, _)),
    ensures
        lex_step(s, i) matches Some((Ok(SpecToken::Ident(w)), st, en)) && {
            &&& w == s.subrange(st, en)
            &&& w.len() > 0
            &&& is_ident_start(w[0])
            &&& forall|k: int| 0 <= k < w.len() ==> is_ident_char(#[trigger] w[k])
            &&& keyword_token(w) is None
            &&& (en < s.len() ==> !is_ident_char(s[en]))
        },
{
    lemma_skip_end_bounds(s, i);
    let st = skip_end(s, i);
    lemma_ident_end_bounds(s, st);
    let e = ident_end(s, st);
    let w = s.subrange(st, e);
    assert forall|k: int| 0 <= k < w.len() implies is_ident_char(#[trigger] w[k]) by {
        assert(w[k] == s[st + k]);
    }
}

/// The tokens of a text come in order and do not overlap: each lexer step
/// covers a non-empty stretch of the text, and the next one starts where it
/// ends or later.
pub proof fn lemma_lex_from_ordered(s: Seq<char>, i: int)
    requires
        0 <= i <= s.len(),
    ensures
        forall|k: int|
            0 <= k < lex_from(s, i).len() ==> i <= (#[trigger] lex_from(s, i)[k]).1 < lex_from(
                s,
                i,
            )[k].2 <= s.len(),
        forall|k: int|
            0 <= k < lex_from(s, i).len() - 1 ==> (#[trigger] lex_from(s, i)[k]).2 <= lex_from(
                s,
                i,
            )[k + 1].1,
    decreases s.len() - i,
{
    lemma_lex_step_progress(s, i);
    if let Some(t) = lex_step(s, i) {
        let rest = lex_from(s, t.2);
        lemma_lex_from_ordered(s, t.2);
        let all = lex_from(s, i);
        assert(all == seq![t] + rest);
        assert forall|k: int| 0 <= k < all.len() implies i <= (#[trigger] all[k]).1 < all[k].2
            <= s.len() by {
            if k > 0 {
                assert(all[k] == rest[k - 1]);
            }
        }
        assert forall|k: int| 0 <= k < all.len() - 1 implies (#[trigger] all[k]).2 <= all[k + 1].1 by {
            assert(all[k + 1] == rest[k]);
            if k > 0 {
                assert(all[k] == rest[k - 1]);
            }
        }
    }
}

} // verus!
