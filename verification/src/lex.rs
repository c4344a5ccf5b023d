use vstd::prelude::*;

use crate::error::Report;
use crate::span::{Span, Spanned};
use crate::text::{append_dec, char_to_string, dec_rep};
use vstd::arithmetic::div_mod::lemma_fundamental_div_mod;
use vstd::string::StrSliceExecFns;

verus! {

// ---------------------------------------------------------------------------
// Character classes
// ---------------------------------------------------------------------------

pub open spec fn is_digit_char(c: char) -> bool {
    '0' <= c && c <= '9'
}

/// ASCII whitespace: space, tab, line feed, form feed, carriage return.
pub open spec fn is_space_char(c: char) -> bool {
    c == ' ' || c == '\t' || c == '\n' || c == '\x0C' || c == '\r'
}

/// Identifier characters, used for variable names: ASCII letters and the
/// underscore. Anything that starts none of the token classes is an
/// invalid character.
pub open spec fn is_ident_char(c: char) -> bool {
    ('a' <= c && c <= 'z') || ('A' <= c && c <= 'Z') || c == '_'
}

/// The three classes of characters that the lexer consumes as maximal runs.
#[derive(Clone, Copy, PartialEq, Eq, Structural, Debug)]
pub enum CharClass {
    Digit,
    Space,
    Ident,
}

pub open spec fn in_class(c: char, k: CharClass) -> bool {
    match k {
        CharClass::Digit => is_digit_char(c),
        CharClass::Space => is_space_char(c),
        CharClass::Ident => is_ident_char(c),
    }
}

/// The first position at or after `i` that ends a run of characters of
/// class `k`.
pub open spec fn run_end(src: Seq<char>, i: int, k: CharClass) -> int
    decreases src.len() - i,
{
    if i < src.len() && in_class(src[i], k) {
        run_end(src, i + 1, k)
    } else {
        i
    }
}

pub proof fn lemma_run_end(src: Seq<char>, i: int, k: CharClass)
    requires
        0 <= i <= src.len(),
    ensures
        i <= run_end(src, i, k) <= src.len(),
        forall|j: int| i <= j < run_end(src, i, k) ==> in_class(src[j], k),
        run_end(src, i, k) == src.len() || !in_class(src[run_end(src, i, k)], k),
    decreases src.len() - i,
{
    if i < src.len() && in_class(src[i], k) {
        lemma_run_end(src, i + 1, k);
    }
}

// ---------------------------------------------------------------------------
// String literals
// ---------------------------------------------------------------------------

/// Scanning the body of a string literal from position `i` (just after the
/// opening quote): the position after the closing quote, or `None` when the
/// input ends first. A backslash immediately followed by `"` or `\` is
/// skipped without interpretation.
pub open spec fn str_body_end(src: Seq<char>, i: int) -> Option<int>
    decreases src.len() - i,
{
    if i >= src.len() {
        None
    } else if src[i] == '"' {
        Some(i + 1)
    } else if src[i] == '\\' && i + 1 < src.len() && (src[i + 1] == '\\' || src[i + 1] == '"') {
        str_body_end(src, i + 2)
    } else {
        str_body_end(src, i + 1)
    }
}

pub proof fn lemma_str_body_end(src: Seq<char>, i: int)
    requires
        0 <= i <= src.len(),
    ensures
        str_body_end(src, i) matches Some(e) ==> i < e <= src.len(),
    decreases src.len() - i,
{
    if i >= src.len() {
    } else if src[i] == '"' {
    } else if src[i] == '\\' && i + 1 < src.len() && (src[i + 1] == '\\' || src[i + 1] == '"') {
        lemma_str_body_end(src, i + 2);
    } else {
        lemma_str_body_end(src, i + 1);
    }
}

// ---------------------------------------------------------------------------
// Numeric literals
// ---------------------------------------------------------------------------

pub open spec fn digit_val(c: char) -> nat
    recommends
        is_digit_char(c),
{
    (c as int - '0' as int) as nat
}

/// The value of a run of decimal digits, most significant first.
pub open spec fn dec_value(digits: Seq<char>) -> nat
    decreases digits.len(),
{
    if digits.len() == 0 {
        0
    } else {
        dec_value(digits.drop_last()) * 10 + digit_val(digits.last())
    }
}

// ---------------------------------------------------------------------------
// Tokens, lexical errors, and the scanner model
// ---------------------------------------------------------------------------

/// The mathematical content of a token: its tag together with the parsed
/// number or the character sequence of the slice it carries.
pub enum TokenData {
    Add,
    Sub,
    Mul,
    Div,
    Assign,
    Semi,
    OpenParen,
    CloseParen,
    Num(nat),
    Str(Seq<char>),
    Ident(Seq<char>),
    Whitespace,
    Eof,
}

#[derive(Debug, PartialEq, Eq, Clone, Copy)]
pub struct Error {
    pub kind: ErrorKind,
    pub span: Span,
}

impl Error {
    pub fn new(kind: ErrorKind, span: Span) -> (e: Error)
        ensures
            e == (Error { kind, span }),
    {
        Error { kind, span }
    }
}

#[derive(Debug, PartialEq, Eq, Clone, Copy)]
pub enum ErrorKind {
    UnexpectedEof,
    InvalidCharacter(char),
    /// A numeric literal whose value does not fit in `usize`. The scanning
    /// stage leaves overflow behavior open; this lexer rejects such
    /// literals rather than saturate or wrap silently.
    NumberTooLarge,
}

/// One step of the lexer: either a token or a lexical error, each with the
/// span it covers. The cursor always advances to the span's end.
pub enum Scan {
    Token { kind: TokenData, span: Span },
    Fail { err: Error },
}

impl Scan {
    pub open spec fn span(self) -> Span {
        match self {
            Scan::Token { span, .. } => span,
            Scan::Fail { err } => err.span,
        }
    }

    pub open spec fn is_whitespace(self) -> bool {
        self matches Scan::Token { kind: TokenData::Whitespace, .. }
    }
}

pub open spec fn span_of(start: int, end: int) -> Span {
    Span { start: start as usize, end: end as usize }
}

/// What the lexer produces for the character at position `i`: the token or
/// error that starts there, with the span it covers.
pub open spec fn scan(src: Seq<char>, i: int) -> Scan
    recommends
        0 <= i < src.len(),
        src.len() <= usize::MAX,
{
    let c = src[i];
    if c == '+' {
        Scan::Token { kind: TokenData::Add, span: span_of(i, i + 1) }
    } else if c == '-' {
        Scan::Token { kind: TokenData::Sub, span: span_of(i, i + 1) }
    } else if c == '*' {
        Scan::Token { kind: TokenData::Mul, span: span_of(i, i + 1) }
    } else if c == '/' {
        Scan::Token { kind: TokenData::Div, span: span_of(i, i + 1) }
    } else if c == '=' {
        Scan::Token { kind: TokenData::Assign, span: span_of(i, i + 1) }
    } else if c == ';' {
        Scan::Token { kind: TokenData::Semi, span: span_of(i, i + 1) }
    } else if c == '(' {
        Scan::Token { kind: TokenData::OpenParen, span: span_of(i, i + 1) }
    } else if c == ')' {
        Scan::Token { kind: TokenData::CloseParen, span: span_of(i, i + 1) }
    } else if is_digit_char(c) {
        let e = run_end(src, i, CharClass::Digit);
        let v = dec_value(src.subrange(i, e));
        if v <= usize::MAX as nat {
            Scan::Token { kind: TokenData::Num(v), span: span_of(i, e) }
        } else {
            Scan::Fail { err: Error { kind: ErrorKind::NumberTooLarge, span: span_of(i, e) } }
        }
    } else if is_space_char(c) {
        Scan::Token {
            kind: TokenData::Whitespace,
            span: span_of(i, run_end(src, i, CharClass::Space)),
        }
    } else if c == '"' {
        match str_body_end(src, i + 1) {
            Some(e) => Scan::Token {
                kind: TokenData::Str(src.subrange(i + 1, e - 1)),
                span: span_of(i, e),
            },
            None => Scan::Fail {
                err: Error {
                    kind: ErrorKind::UnexpectedEof,
                    span: span_of(i, src.len() as int),
                },
            },
        }
    } else if is_ident_char(c) {
        Scan::Token {
            kind: TokenData::Ident(src.subrange(i, run_end(src, i, CharClass::Ident))),
            span: span_of(i, run_end(src, i, CharClass::Ident)),
        }
    } else {
        Scan::Fail { err: Error { kind: ErrorKind::InvalidCharacter(c), span: span_of(i, i + 1) } }
    }
}

/// The cursor position after scanning at `i`.
pub open spec fn scan_end(src: Seq<char>, i: int) -> int {
    scan(src, i).span().end as int
}

pub proof fn lemma_scan_bounds(src: Seq<char>, i: int)
    requires
        0 <= i < src.len(),
        src.len() <= usize::MAX,
    ensures
        scan(src, i).span().start == i,
        i < scan_end(src, i) <= src.len(),
{
    lemma_run_end(src, i, CharClass::Digit);
    lemma_run_end(src, i, CharClass::Space);
    lemma_run_end(src, i, CharClass::Ident);
    lemma_str_body_end(src, i + 1);
}

// ---------------------------------------------------------------------------
// The token stream as a whole
// ---------------------------------------------------------------------------

/// Everything the lexer yields from position `i` on: a finite sequence of
/// tokens, ending early with the first lexical error if there is one.
pub open spec fn lex_all(src: Seq<char>, i: int) -> Seq<Scan>
    decreases src.len() - i
        when 0 <= i <= src.len() && src.len() <= usize::MAX
        via lex_all_decreases
{
    if i >= src.len() {
        Seq::empty()
    } else {
        match scan(src, i) {
            Scan::Token { kind, span } => seq![Scan::Token { kind, span }] + lex_all(
                src,
                span.end as int,
            ),
            Scan::Fail { err } => seq![Scan::Fail { err }],
        }
    }
}

#[via_fn]
proof fn lex_all_decreases(src: Seq<char>, i: int) {
    if i < src.len() {
        lemma_scan_bounds(src, i);
    }
}

/// The position after the whitespace token at `i`, if there is one.
pub open spec fn skip_ws(src: Seq<char>, i: int) -> int {
    if 0 <= i < src.len() && is_space_char(src[i]) {
        run_end(src, i, CharClass::Space)
    } else {
        i
    }
}

/// The token stream with whitespace skipped at the source level: what the
/// parser's token buffer yields from position `i` on.
pub open spec fn lex_nonws(src: Seq<char>, i: int) -> Seq<Scan>
    decreases src.len() - i
        when 0 <= i <= src.len() && src.len() <= usize::MAX
        via lex_nonws_decreases
{
    let j = skip_ws(src, i);
    if j >= src.len() {
        Seq::empty()
    } else {
        match scan(src, j) {
            Scan::Token { kind, span } => seq![Scan::Token { kind, span }] + lex_nonws(
                src,
                span.end as int,
            ),
            Scan::Fail { err } => seq![Scan::Fail { err }],
        }
    }
}

#[via_fn]
proof fn lex_nonws_decreases(src: Seq<char>, i: int) {
    let j = skip_ws(src, i);
    if 0 <= i < src.len() && is_space_char(src[i]) {
        lemma_run_end(src, i, CharClass::Space);
    }
    if j < src.len() {
        lemma_scan_bounds(src, j);
    }
}

/// Removing the whitespace tokens from a token stream element by element.
pub open spec fn drop_ws(ts: Seq<Scan>) -> Seq<Scan>
    decreases ts.len(),
{
    if ts.len() == 0 {
        Seq::empty()
    } else if ts.first().is_whitespace() {
        drop_ws(ts.drop_first())
    } else {
        seq![ts.first()] + drop_ws(ts.drop_first())
    }
}

/// The lexer never runs past the end of the input: every token and every
/// error it yields covers a span inside the source, each starts where the
/// one before it ended, and only the last element of the finite stream can
/// be an error.
pub proof fn lemma_lex_all_bounded(src: Seq<char>, i: int)
    requires
        0 <= i <= src.len(),
        src.len() <= usize::MAX,
    ensures
        forall|j: int|
            0 <= j < lex_all(src, i).len() ==> {
                let sp = #[trigger] lex_all(src, i)[j].span();
                sp.start < sp.end <= src.len()
            },
        forall|j: int|
            0 <= j < lex_all(src, i).len() - 1 ==> !(#[trigger] lex_all(src, i)[j] matches
            Scan::Fail { .. }),
    decreases src.len() - i,
{
    if i < src.len() {
        lemma_scan_bounds(src, i);
        match scan(src, i) {
            Scan::Token { kind, span } => {
                lemma_lex_all_bounded(src, span.end as int);
            },
            Scan::Fail { err } => {},
        }
    }
}

/// The whitespace-filtered stream is bounded by the source just like the
/// raw one: every token and error it holds covers a non-empty span inside
/// the text.
pub proof fn lemma_lex_nonws_bounded(src: Seq<char>, i: int)
    requires
        0 <= i <= src.len(),
        src.len() <= usize::MAX,
    ensures
        forall|j: int|
            0 <= j < lex_nonws(src, i).len() ==> {
                let sp = #[trigger] lex_nonws(src, i)[j].span();
                sp.start < sp.end <= src.len()
            },
    decreases src.len() - i,
{
    let k = skip_ws(src, i);
    if 0 <= i < src.len() && is_space_char(src[i]) {
        lemma_run_end(src, i, CharClass::Space);
    }
    if k < src.len() {
        lemma_scan_bounds(src, k);
        match scan(src, k) {
            Scan::Token { kind, span } => {
                lemma_lex_nonws_bounded(src, span.end as int);
                let head = Scan::Token { kind, span };
                let rest = lex_nonws(src, span.end as int);
                assert forall|j: int| 0 <= j < lex_nonws(src, i).len() implies {
                    let sp = #[trigger] lex_nonws(src, i)[j].span();
                    sp.start < sp.end <= src.len()
                } by {
                    if j == 0 {
                        assert(lex_nonws(src, i)[0] == head);
                    } else {
                        assert(lex_nonws(src, i)[j] == rest[j - 1]);
                        assert(rest[j - 1].span().start < rest[j - 1].span().end <= src.len());
                    }
                }
            },
            Scan::Fail { err } => {
                assert(lex_nonws(src, i)[0] == Scan::Fail { err });
            },
        }
    }
}

/// Filtering whitespace through the one-token buffer yields the same token
/// stream as filtering it from the raw lexer output by hand.
pub proof fn lemma_buffer_filters_whitespace(src: Seq<char>, i: int)
    requires
        0 <= i <= src.len(),
        src.len() <= usize::MAX,
    ensures
        lex_nonws(src, i) == drop_ws(lex_all(src, i)),
    decreases src.len() - i,
{
    if i >= src.len() {
        assert(lex_nonws(src, i) =~= drop_ws(lex_all(src, i)));
    } else {
        lemma_scan_bounds(src, i);
        match scan(src, i) {
            Scan::Token { kind, span } => {
                let e = span.end as int;
                let head = Scan::Token { kind, span };
                lemma_buffer_filters_whitespace(src, e);
                assert((seq![head] + lex_all(src, e)).first() == head);
                assert((seq![head] + lex_all(src, e)).drop_first() =~= lex_all(src, e));
                if kind is Whitespace {
                    // the run is maximal, so skipping it at the source level
                    // and dropping the token agree
                    lemma_run_end(src, i, CharClass::Space);
                    assert(skip_ws(src, i) == e);
                    assert(skip_ws(src, e) == e);
                    assert(lex_nonws(src, i) =~= lex_nonws(src, e));
                } else {
                    assert(skip_ws(src, i) == i);
                    assert(lex_nonws(src, i) =~= seq![head] + lex_nonws(src, e));
                }
            },
            Scan::Fail { err } => {
                let f = Scan::Fail { err };
                assert(!is_space_char(src[i]));
                assert(lex_nonws(src, i) =~= seq![f]);
                assert(lex_all(src, i) =~= seq![f]);
                assert(seq![f].drop_first() =~= Seq::<Scan>::empty());
                assert(drop_ws(Seq::<Scan>::empty()) =~= Seq::<Scan>::empty());
                assert(seq![f].first() == f);
                assert(!f.is_whitespace());
                assert(drop_ws(seq![f]) =~= seq![f] + drop_ws(seq![f].drop_first()));
                assert(drop_ws(lex_all(src, i)) =~= seq![f]);
            },
        }
    }
}

impl Spanned for Error {
    open spec fn spec_span(&self) -> Span {
        self.span
    }

    fn span(&self) -> Span {
        self.span
    }
}

impl Report for Error {
    open spec fn spec_message(&self, source: Seq<char>) -> Seq<char> {
        match self.kind {
            ErrorKind::InvalidCharacter(c) => "Invalid character '"@ + seq![c] + "'"@,
            ErrorKind::UnexpectedEof => "Found unexpected EOF"@,
            ErrorKind::NumberTooLarge => "Number literal too large"@,
        }
    }

    fn message(&self, source: &str) -> (m: String) {
        match self.kind {
            ErrorKind::InvalidCharacter(c) => {
                let mut m = "Invalid character '".to_owned();
                let cs = char_to_string(c);
                m.append(cs.as_str());
                m.append("'");
                assert(m@ =~= self.spec_message(source@));
                m
            },
            ErrorKind::UnexpectedEof => "Found unexpected EOF".to_owned(),
            ErrorKind::NumberTooLarge => "Number literal too large".to_owned(),
        }
    }
}

// ---------------------------------------------------------------------------
// Executable tokens
// ---------------------------------------------------------------------------

#[derive(Debug, PartialEq, Eq, Clone, Copy)]
pub struct Token<'a> {
    pub kind: TokenKind<'a>,
    pub span: Span,
}

#[derive(Debug, PartialEq, Eq, Clone, Copy)]
pub enum TokenKind<'a> {
    Add,
    Sub,
    Mul,
    Div,
    Assign,
    Semi,
    OpenParen,
    CloseParen,
    Num(usize),
    Str(&'a str),
    Ident(&'a str),
    Whitespace,
    Eof,
}

impl<'a> View for TokenKind<'a> {
    type V = TokenData;

    open spec fn view(&self) -> TokenData {
        match *self {
            TokenKind::Add => TokenData::Add,
            TokenKind::Sub => TokenData::Sub,
            TokenKind::Mul => TokenData::Mul,
            TokenKind::Div => TokenData::Div,
            TokenKind::Assign => TokenData::Assign,
            TokenKind::Semi => TokenData::Semi,
            TokenKind::OpenParen => TokenData::OpenParen,
            TokenKind::CloseParen => TokenData::CloseParen,
            TokenKind::Num(n) => TokenData::Num(n as nat),
            TokenKind::Str(s) => TokenData::Str(s@),
            TokenKind::Ident(s) => TokenData::Ident(s@),
            TokenKind::Whitespace => TokenData::Whitespace,
            TokenKind::Eof => TokenData::Eof,
        }
    }
}

impl<'a> TokenKind<'a> {
    /// The text a token displays as: its operator character, its decimal
    /// value, or the slice it carries.
    pub open spec fn spec_text(self) -> Seq<char> {
        match self {
            TokenKind::Add => "+"@,
            TokenKind::Sub => "-"@,
            TokenKind::Mul => "*"@,
            TokenKind::Div => "/"@,
            TokenKind::Assign => "="@,
            TokenKind::Semi => ";"@,
            TokenKind::OpenParen => "("@,
            TokenKind::CloseParen => ")"@,
            TokenKind::Num(n) => dec_rep(n as nat),
            TokenKind::Str(s) => s@,
            TokenKind::Ident(s) => s@,
            TokenKind::Whitespace => " "@,
            TokenKind::Eof => "eof"@,
        }
    }

    pub fn text(&self) -> (t: String)
        ensures
            t@ == self.spec_text(),
    {
        match *self {
            TokenKind::Add => "+".to_owned(),
            TokenKind::Sub => "-".to_owned(),
            TokenKind::Mul => "*".to_owned(),
            TokenKind::Div => "/".to_owned(),
            TokenKind::Assign => "=".to_owned(),
            TokenKind::Semi => ";".to_owned(),
            TokenKind::OpenParen => "(".to_owned(),
            TokenKind::CloseParen => ")".to_owned(),
            TokenKind::Num(n) => {
                let mut t = String::new();
                append_dec(&mut t, n as u128);
                proof {
                    assert(t@ =~= dec_rep(n as nat));
                }
                t
            },
            TokenKind::Str(s) => s.to_owned(),
            TokenKind::Ident(s) => s.to_owned(),
            TokenKind::Whitespace => " ".to_owned(),
            TokenKind::Eof => "eof".to_owned(),
        }
    }
}

fn char_in_class(c: char, k: CharClass) -> (r: bool)
    ensures
        r == in_class(c, k),
{
    match k {
        CharClass::Digit => '0' <= c && c <= '9',
        CharClass::Space => c == ' ' || c == '\t' || c == '\n' || c == '\x0C' || c == '\r',
        CharClass::Ident => ('a' <= c && c <= 'z') || ('A' <= c && c <= 'Z') || c == '_',
    }
}

proof fn lemma_dec_value_take_le(s: Seq<char>, k: int)
    requires
        0 <= k <= s.len(),
    ensures
        dec_value(s.take(k)) <= dec_value(s),
    decreases s.len() - k,
{
    if k < s.len() {
        assert(s.take(k + 1).drop_last() =~= s.take(k));
        assert(dec_value(s.take(k)) <= dec_value(s.take(k + 1)));
        lemma_dec_value_take_le(s, k + 1);
    } else {
        assert(s.take(k) =~= s);
    }
}

// ---------------------------------------------------------------------------
// The lexer
// ---------------------------------------------------------------------------

/// A lazy producer of tokens from source text: each call to
/// [`Lexer::next`] scans one token and advances the cursor. The stream is
/// finite: it ends when the input is exhausted, or at the first lexical
/// error, after which every further call yields `None`. It is not
/// restartable without a new lexer over the same text.
pub struct Lexer<'a> {
    pub source: &'a str,
    /// The character count of `source`.
    pub len: usize,
    /// The span of the token most recently scanned; its end is the cursor.
    pub span: Span,
    pub eof: bool,
    /// Set once a lexical error has been yielded: the stream has
    /// terminated at the first invalid construct.
    pub failed: bool,
}

impl<'a> Lexer<'a> {
    pub open spec fn wf(&self) -> bool {
        &&& self.len == self.source@.len()
        &&& self.span.start <= self.span.end <= self.len
        &&& (self.eof ==> self.span.end == self.len)
    }

    pub open spec fn src(&self) -> Seq<char> {
        self.source@
    }

    /// The position of the next character to scan.
    pub open spec fn cursor(&self) -> int {
        self.span.end as int
    }

    pub fn new(source: &'a str) -> (l: Lexer<'a>)
        ensures
            l.wf(),
            l.src() == source@,
            l.cursor() == 0,
            l.span == (Span { start: 0, end: 0 }),
            !l.eof,
            !l.failed,
    {
        let len = source.unicode_len();
        Lexer { source, len, span: Span { start: 0, end: 0 }, eof: false, failed: false }
    }

    /// The span of the token most recently scanned, or the end-of-input
    /// sentinel once the input is exhausted.
    pub fn current_span(&self) -> (s: Span)
        ensures
            s == if self.eof {
                Span::spec_eof()
            } else {
                self.span
            },
    {
        if self.eof {
            Span::eof()
        } else {
            self.span
        }
    }

    /// Advances the cursor to the end of the run of class `k` characters
    /// that starts at it.
    fn chomp_class(&mut self, k: CharClass)
        requires
            old(self).wf(),
        ensures
            final(self).wf(),
            final(self).src() == old(self).src(),
            final(self).len == old(self).len,
            final(self).eof == old(self).eof,
            final(self).failed == old(self).failed,
            final(self).span.start == old(self).span.start,
            final(self).cursor() == run_end(old(self).src(), old(self).cursor(), k),
            old(self).cursor() <= final(self).cursor(),
    {
        let ghost src = self.src();
        let ghost i0 = self.cursor();
        let ghost eof0 = self.eof;
        let ghost failed0 = self.failed;
        let ghost start0 = self.span.start;
        proof {
            lemma_run_end(src, i0, k);
        }
        loop
            invariant
                self.wf(),
                self.src() == src,
                self.eof == eof0,
                self.failed == failed0,
                self.span.start == start0,
                i0 <= self.cursor() <= src.len(),
                run_end(src, self.cursor(), k) == run_end(src, i0, k),
            ensures
                self.wf(),
                self.src() == src,
                self.eof == eof0,
                self.failed == failed0,
                self.span.start == start0,
                i0 <= self.cursor(),
                self.span.end == self.len || !in_class(src[self.cursor()], k),
                run_end(src, self.cursor(), k) == run_end(src, i0, k),
            decreases self.len - self.span.end,
        {
            if self.span.end >= self.len {
                break ;
            }
            let c = self.source.get_char(self.span.end);
            if !char_in_class(c, k) {
                break ;
            }
            self.span.end = self.span.end + 1;
        }
    }

    /// The value of the digit run at `start..end`, or `None` when it does
    /// not fit in `usize`.
    fn number_value(&self, start: usize, end: usize) -> (r: Option<usize>)
        requires
            self.wf(),
            start <= end <= self.len,
            forall|j: int| start <= j < end ==> is_digit_char(self.src()[j]),
        ensures
            ({
                let v = dec_value(self.src().subrange(start as int, end as int));
                match r {
                    Some(u) => u == v,
                    None => v > usize::MAX,
                }
            }),
    {
        let ghost digits = self.src().subrange(start as int, end as int);
        let mut acc: usize = 0;
        let mut i: usize = start;
        while i < end
            invariant
                self.wf(),
                start <= i <= end <= self.len,
                forall|j: int| start <= j < end ==> is_digit_char(self.src()[j]),
                acc == dec_value(self.src().subrange(start as int, i as int)),
                digits == self.src().subrange(start as int, end as int),
            decreases end - i,
        {
            let c = self.source.get_char(i);
            assert(is_digit_char(c));
            let d = (c as u32 - 48) as usize;
            let ghost prefix = self.src().subrange(start as int, i as int);
            assert(self.src().subrange(start as int, i + 1 as int) =~= prefix.push(c));
            assert(prefix.push(c).drop_last() =~= prefix);
            if acc > (usize::MAX - d) / 10 {
                proof {
                    lemma_fundamental_div_mod((usize::MAX - d) as int, 10);
                    assert(acc * 10 + d > usize::MAX);
                    assert(digits.take(i + 1 - start as int) =~= prefix.push(c));
                    lemma_dec_value_take_le(digits, i + 1 - start as int);
                }
                return None;
            }
            acc = acc * 10 + d;
            i = i + 1;
        }
        assert(self.src().subrange(start as int, i as int) =~= digits);
        Some(acc)
    }

    /// Scans the next token: exactly the token or lexical error that the
    /// scanner model [`scan`] gives for the cursor position. Yields `None`
    /// once the input is exhausted, and — the stream terminates at the
    /// first invalid character or unterminated construct — forever after
    /// the first error.
    pub fn next(&mut self) -> (r: Option<Result<Token<'a>, Error>>)
        requires
            old(self).wf(),
        ensures
            final(self).wf(),
            final(self).src() == old(self).src(),
            final(self).len == old(self).len,
            old(self).failed ==> r is None && *final(self) == *old(self),
            !old(self).failed && old(self).cursor() == old(self).src().len() ==> r is None
                && final(self).eof && !final(self).failed && final(self).cursor() == old(
                self,
            ).cursor(),
            !old(self).failed && old(self).cursor() < old(self).src().len() ==> {
                let sc = scan(old(self).src(), old(self).cursor());
                &&& final(self).span == sc.span()
                &&& final(self).cursor() == scan_end(old(self).src(), old(self).cursor())
                &&& match sc {
                    Scan::Token { kind, span } => {
                        &&& r matches Some(Result::Ok(t)) && t.kind@ == kind && t.span == span
                        &&& final(self).eof == (span.end == old(self).len)
                        &&& !final(self).failed
                    },
                    Scan::Fail { err } => {
                        &&& r matches Some(Result::Err(e)) && e == err
                        &&& final(self).eof == (err.kind is UnexpectedEof)
                        &&& final(self).failed
                    },
                }
            },
    {
        if self.failed {
            return None;
        }
        self.span = Span { start: self.span.end, end: self.span.end };
        if self.span.end == self.len {
            self.eof = true;
            return None;
        }
        let ghost src = self.src();
        let ghost i = self.span.end as int;
        proof {
            lemma_scan_bounds(src, i);
        }
        let source = self.source;
        let c = source.get_char(self.span.end);
        self.span.end = self.span.end + 1;
        let kind: TokenKind<'a>;
        if c == '+' {
            kind = TokenKind::Add;
        } else if c == '-' {
            kind = TokenKind::Sub;
        } else if c == '*' {
            kind = TokenKind::Mul;
        } else if c == '/' {
            kind = TokenKind::Div;
        } else if c == '=' {
            kind = TokenKind::Assign;
        } else if c == ';' {
            kind = TokenKind::Semi;
        } else if c == '(' {
            kind = TokenKind::OpenParen;
        } else if c == ')' {
            kind = TokenKind::CloseParen;
        } else if char_in_class(c, CharClass::Digit) {
            self.chomp_class(CharClass::Digit);
            proof {
                lemma_run_end(src, i, CharClass::Digit);
            }
            match self.number_value(self.span.start, self.span.end) {
                Some(v) => {
                    kind = TokenKind::Num(v);
                },
                None => {
                    self.failed = true;
                    return Some(Err(Error { kind: ErrorKind::NumberTooLarge, span: self.span }));
                },
            }
        } else if char_in_class(c, CharClass::Space) {
            self.chomp_class(CharClass::Space);
            kind = TokenKind::Whitespace;
        } else if c == '"' {
            loop
                invariant_except_break
                    str_body_end(src, self.cursor()) == str_body_end(src, i + 1),
                invariant
                    self.wf(),
                    self.src() == src,
                    source@ == src,
                    src == old(self).src(),
                    self.len == old(self).len,
                    !self.eof,
                    !self.failed,
                    !old(self).failed,
                    0 <= i < src.len(),
                    i == old(self).cursor(),
                    src[i] == '"',
                    self.span.start == i as usize,
                    i + 1 <= self.cursor() <= src.len(),
                ensures
                    self.wf(),
                    self.src() == src,
                    !self.eof,
                    !self.failed,
                    self.span.start == i as usize,
                    i + 2 <= self.cursor() <= src.len(),
                    str_body_end(src, i + 1) == Some(self.cursor()),
                decreases src.len() - self.cursor(),
            {
                if self.span.end == self.len {
                    self.eof = true;
                    self.failed = true;
                    return Some(Err(Error { kind: ErrorKind::UnexpectedEof, span: self.span }));
                }
                let c2 = source.get_char(self.span.end);
                if c2 == '"' {
                    self.span.end = self.span.end + 1;
                    break ;
                }
                if c2 == '\\' && self.span.end + 1 < self.len {
                    let c3 = source.get_char(self.span.end + 1);
                    if c3 == '\\' || c3 == '"' {
                        self.span.end = self.span.end + 1;
                    }
                }
                self.span.end = self.span.end + 1;
            }
            let value = source.substring_char(self.span.start + 1, self.span.end - 1);
            kind = TokenKind::Str(value);
        } else if char_in_class(c, CharClass::Ident) {
            self.chomp_class(CharClass::Ident);
            let value = source.substring_char(self.span.start, self.span.end);
            kind = TokenKind::Ident(value);
        } else {
            self.failed = true;
            return Some(Err(Error { kind: ErrorKind::InvalidCharacter(c), span: self.span }));
        }
        if self.span.end == self.len {
            self.eof = true;
        }
        Some(Ok(Token { kind, span: self.span }))
    }
}

} // verus!
