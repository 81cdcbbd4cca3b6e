//! The lexer of the interface-definition language.
//!
//! The source is taken apart into grapheme clusters. Tokens are read off the
//! clusters one after another; every token carries the byte offsets of the
//! clusters it was read from.

use crate::spanned::{simple_error, CodeSource, ErrorView, OlympusError, Spanned};
use crate::token::{
    builtin_type, keyword, lookup_builtin, lookup_keyword, AsciiToken, SpannedToken, Token,
    TokenView,
};
use std::ops::Range;
use std::rc::Rc;
use unicode_segmentation::UnicodeSegmentation;
use vstd::prelude::*;
use vstd::utf8::encode_utf8;

verus! {

/// The extended grapheme clusters of a text, in order, as
/// `unicode_segmentation` finds them.
pub uninterp spec fn grapheme_clusters(text: Seq<char>) -> Seq<Seq<char>>;

/// The characters of the clusters `from..to`, in order.
pub open spec fn text(gs: Seq<Seq<char>>, from: int, to: int) -> Seq<char>
    decreases to - from,
{
    if to <= from {
        Seq::empty()
    } else {
        text(gs, from, to - 1) + gs[to - 1]
    }
}

/// The number of bytes that the clusters `from..to` take in UTF-8.
pub open spec fn bytes_in(gs: Seq<Seq<char>>, from: int, to: int) -> nat
    decreases to - from,
{
    if to <= from {
        0
    } else {
        bytes_in(gs, from, to - 1) + encode_utf8(gs[to - 1]).len()
    }
}

/// The number of line feeds in a cluster.
pub open spec fn newline_count(g: Seq<char>) -> nat
    decreases g.len(),
{
    if g.len() == 0 {
        0
    } else {
        newline_count(g.drop_last()) + if g.last() == '\n' {
            1nat
        } else {
            0nat
        }
    }
}

/// The number of line feeds in the clusters `from..to`.
pub open spec fn newlines_in(gs: Seq<Seq<char>>, from: int, to: int) -> nat
    decreases to - from,
{
    if to <= from {
        0
    } else {
        newlines_in(gs, from, to - 1) + newline_count(gs[to - 1])
    }
}

/// The line that cluster `idx` starts on, counted from one and capped at `usize::MAX`.
pub open spec fn line_at(gs: Seq<Seq<char>>, idx: int) -> usize {
    let line = 1 + newlines_in(gs, 0, idx);
    if line > usize::MAX {
        usize::MAX
    } else {
        line as usize
    }
}

/// The byte offsets of the clusters `from..to`.
pub open spec fn span_of(gs: Seq<Seq<char>>, from: int, to: int) -> Range<usize> {
    Range { start: bytes_in(gs, 0, from) as usize, end: bytes_in(gs, 0, to) as usize }
}

pub open spec fn is_ident_first(c: char) -> bool {
    ('a' <= c && c <= 'z') || ('A' <= c && c <= 'Z') || c == '_'
}

pub open spec fn is_ident_rest(c: char) -> bool {
    is_ident_first(c) || is_digit(c)
}

pub open spec fn is_digit(c: char) -> bool {
    '0' <= c && c <= '9'
}

pub open spec fn is_ascii_space(c: char) -> bool {
    c == ' ' || c == '\t' || c == '\n' || c == '\x0C' || c == '\r'
}

/// True when the cluster is the single character `c`.
pub open spec fn single(g: Seq<char>, c: char) -> bool {
    g == seq![c]
}

pub open spec fn ident_start(g: Seq<char>) -> bool {
    forall|i: int| 0 <= i < g.len() ==> is_ident_first(#[trigger] g[i])
}

pub open spec fn ident_part(g: Seq<char>) -> bool {
    forall|i: int| 0 <= i < g.len() ==> is_ident_rest(#[trigger] g[i])
}

pub open spec fn digits(g: Seq<char>) -> bool {
    forall|i: int| 0 <= i < g.len() ==> is_digit(#[trigger] g[i])
}

pub open spec fn blank(g: Seq<char>) -> bool {
    forall|i: int| 0 <= i < g.len() ==> is_ascii_space(#[trigger] g[i])
}

pub open spec fn ends_line(g: Seq<char>) -> bool {
    g.len() > 0 && g.last() == '\n'
}

/// The kinds of cluster runs that the lexer reads.
#[derive(Debug, Clone, Copy, PartialEq, Eq, Structural)]
pub enum Run {
    /// White space between tokens.
    Space,
    /// The text of a comment: everything before the cluster that ends the line.
    Comment,
    /// The tail of an identifier.
    Ident,
    /// The tail of a number.
    Digits,
}

/// True when a cluster continues a run of the given kind.
pub open spec fn belongs(run: Run, g: Seq<char>) -> bool {
    match run {
        Run::Space => blank(g),
        Run::Comment => !ends_line(g),
        Run::Ident => ident_part(g),
        Run::Digits => digits(g),
    }
}

/// The index of the first cluster at or after `from` that does not continue the run.
pub open spec fn scan(gs: Seq<Seq<char>>, from: int, run: Run) -> int
    decreases gs.len() - from,
{
    if 0 <= from < gs.len() && belongs(run, gs[from]) {
        scan(gs, from + 1, run)
    } else {
        from
    }
}

/// The punctuation token that a cluster stands for, if any.
pub open spec fn punctuation(g: Seq<char>) -> Option<AsciiToken> {
    if single(g, '{') {
        Some(AsciiToken::OpenBrace)
    } else if single(g, '}') {
        Some(AsciiToken::CloseBrace)
    } else if single(g, '(') {
        Some(AsciiToken::OpenParen)
    } else if single(g, ')') {
        Some(AsciiToken::CloseParen)
    } else if single(g, '[') {
        Some(AsciiToken::OpenBracket)
    } else if single(g, ']') {
        Some(AsciiToken::CloseBracket)
    } else if single(g, ';') {
        Some(AsciiToken::SemiColon)
    } else if single(g, ',') {
        Some(AsciiToken::Comma)
    } else {
        None
    }
}

pub open spec fn digit_value(c: char) -> nat {
    (c as nat - '0' as nat) as nat
}

/// The number that a string of decimal digits denotes.
pub open spec fn decimal(digits: Seq<char>) -> nat
    decreases digits.len(),
{
    if digits.len() == 0 {
        0
    } else {
        decimal(digits.drop_last()) * 10 + digit_value(digits.last())
    }
}

/// The text of a comment, without the one space that may follow the `#`.
pub open spec fn comment_text(body: Seq<char>) -> Seq<char> {
    if body.len() > 0 && body[0] == ' ' {
        body.drop_first()
    } else {
        body
    }
}

/// What reading one token gives: the token or the failure, and the index of
/// the first cluster behind it.
pub enum LexStep {
    Token { token: TokenView, end: int },
    Fail { message: Seq<char>, end: int },
}

impl LexStep {
    pub open spec fn end(self) -> int {
        match self {
            LexStep::Token { end, .. } => end,
            LexStep::Fail { end, .. } => end,
        }
    }
}

/// The token that starts at cluster `start`, which is not white space.
pub open spec fn lex_step(gs: Seq<Seq<char>>, start: int) -> LexStep {
    let g = gs[start];
    if single(g, '#') {
        let end = scan(gs, start + 1, Run::Comment);
        LexStep::Token { token: TokenView::Comment(comment_text(text(gs, start + 1, end))), end }
    } else if punctuation(g) is Some {
        LexStep::Token { token: TokenView::Ascii(punctuation(g).unwrap()), end: start + 1 }
    } else if single(g, '-') && start + 1 < gs.len() && single(gs[start + 1], '>') {
        LexStep::Token { token: TokenView::Arrow, end: start + 2 }
    } else if single(g, '@') && start + 1 < gs.len() && ident_start(gs[start + 1]) {
        let end = scan(gs, start + 2, Run::Ident);
        match builtin_type(text(gs, start + 1, end)) {
            Some(ty) => LexStep::Token { token: TokenView::Type(ty), end },
            None => LexStep::Fail { message: "Unrecognized builtin"@, end },
        }
    } else if ident_start(g) {
        let end = scan(gs, start + 1, Run::Ident);
        let name = text(gs, start, end);
        match keyword(name) {
            Some(kw) => LexStep::Token { token: TokenView::Keyword(kw), end },
            None => LexStep::Token { token: TokenView::Ident(name), end },
        }
    } else if digits(g) {
        let end = scan(gs, start + 1, Run::Digits);
        let value = decimal(text(gs, start, end));
        if value <= i16::MAX {
            LexStep::Token { token: TokenView::Number(value as i16), end }
        } else {
            LexStep::Fail { message: "Max enum tag is 32767"@, end }
        }
    } else {
        LexStep::Fail { message: "Unexpected character: "@ + g, end: start + 1 }
    }
}

/// What lexing gives: the tokens read, the diagnostic that ended it if any,
/// and the index of the first cluster that was not read.
pub struct LexOutcome {
    pub tokens: Seq<Spanned<TokenView>>,
    pub error: Option<ErrorView>,
    pub end: int,
}

/// Lexing from cluster `from` on: white space is skipped, then tokens are
/// read until the clusters run out or one cannot be read.
pub open spec fn lex_all(gs: Seq<Seq<char>>, from: int) -> LexOutcome
    decreases gs.len() - from,
{
    let start = scan(gs, from, Run::Space);
    if start < from || start >= gs.len() {
        LexOutcome { tokens: Seq::empty(), error: None, end: start }
    } else {
        match lex_step(gs, start) {
            LexStep::Token { token, end } => {
                if end <= start || end > gs.len() {
                    LexOutcome { tokens: Seq::empty(), error: None, end: start }
                } else {
                    let rest = lex_all(gs, end);
                    LexOutcome {
                        tokens: seq![Spanned { value: token, span: span_of(gs, start, end) }]
                            + rest.tokens,
                        error: rest.error,
                        end: rest.end,
                    }
                }
            },
            LexStep::Fail { message, end } => LexOutcome {
                tokens: Seq::empty(),
                error: Some(simple_error(message, span_of(gs, start, end))),
                end,
            },
        }
    }
}

/// The text and the bytes of a range of clusters are those of its two
/// parts, one after the other.
pub proof fn lemma_text_split(gs: Seq<Seq<char>>, a: int, b: int, c: int)
    requires
        a <= b <= c,
    ensures
        text(gs, a, c) == text(gs, a, b) + text(gs, b, c),
        bytes_in(gs, a, c) == bytes_in(gs, a, b) + bytes_in(gs, b, c),
    decreases c - b,
{
    if b < c {
        lemma_text_split(gs, a, b, c - 1);
        assert(text(gs, a, c) =~= text(gs, a, b) + text(gs, b, c));
    } else {
        assert(text(gs, a, c) =~= text(gs, a, b) + text(gs, b, c));
    }
}

/// The text of one cluster is the cluster.
pub proof fn lemma_text_one(gs: Seq<Seq<char>>, a: int)
    requires
        0 <= a < gs.len(),
    ensures
        text(gs, a, a + 1) == gs[a],
        bytes_in(gs, a, a + 1) == encode_utf8(gs[a]).len(),
{
    assert(text(gs, a, a) =~= Seq::<char>::empty());
    assert(bytes_in(gs, a, a) == 0);
    assert(text(gs, a, a + 1) =~= gs[a]);
}

/// A run ends inside the clusters; every cluster before its end belongs
/// to it, and the cluster at its end does not.
pub proof fn lemma_scan_bounds(gs: Seq<Seq<char>>, from: int, run: Run)
    requires
        0 <= from <= gs.len(),
    ensures
        from <= scan(gs, from, run) <= gs.len(),
        forall|k: int| from <= k < scan(gs, from, run) ==> belongs(run, #[trigger] gs[k]),
        scan(gs, from, run) < gs.len() ==> !belongs(run, gs[scan(gs, from, run)]),
    decreases gs.len() - from,
{
    if from < gs.len() && belongs(run, gs[from]) {
        lemma_scan_bounds(gs, from + 1, run);
    }
}

/// UTF-8 encodes a text piece by piece.
pub proof fn lemma_encode_concat(a: Seq<char>, b: Seq<char>)
    ensures
        encode_utf8(a + b) == encode_utf8(a) + encode_utf8(b),
    decreases a.len(),
{
    if a.len() == 0 {
        assert(a + b =~= b);
        assert(encode_utf8(a) =~= Seq::<u8>::empty());
        assert(encode_utf8(a + b) =~= encode_utf8(a) + encode_utf8(b));
    } else {
        lemma_encode_concat(a.drop_first(), b);
        assert((a + b).drop_first() =~= a.drop_first() + b);
        assert((a + b)[0] == a[0]);
        assert(encode_utf8(a + b) =~= encode_utf8(a) + encode_utf8(b));
    }
}

/// The clusters take as many bytes as the text they make up.
pub proof fn lemma_bytes_of_text(gs: Seq<Seq<char>>, from: int, to: int)
    ensures
        bytes_in(gs, from, to) == encode_utf8(text(gs, from, to)).len(),
    decreases to - from,
{
    if to > from {
        lemma_bytes_of_text(gs, from, to - 1);
        lemma_encode_concat(text(gs, from, to - 1), gs[to - 1]);
    }
}

/// Where lexing stops and what it leaves behind: it stops inside the
/// clusters, every token and every diagnostic lies inside the source, and
/// lexing that meets no failure reads every cluster.
pub proof fn lemma_lex_all(gs: Seq<Seq<char>>, from: int)
    requires
        0 <= from <= gs.len(),
        bytes_in(gs, 0, gs.len() as int) <= usize::MAX,
    ensures
        from <= lex_all(gs, from).end <= gs.len(),
        lex_all(gs, from).error is None ==> lex_all(gs, from).end == gs.len(),
        lex_all(gs, from).error is Some ==> lex_all(gs, from).error.unwrap().within(
            bytes_in(gs, 0, gs.len() as int) as int,
        ),
        forall|i: int|
            0 <= i < lex_all(gs, from).tokens.len() ==> {
                &&& (#[trigger] lex_all(gs, from).tokens[i]).span.start <= lex_all(
                    gs,
                    from,
                ).tokens[i].span.end
                &&& lex_all(gs, from).tokens[i].span.end <= bytes_in(gs, 0, gs.len() as int)
            },
    decreases gs.len() - from,
{
    let start = scan(gs, from, Run::Space);
    lemma_scan_bounds(gs, from, Run::Space);
    if start < gs.len() {
        let step = lex_step(gs, start);
        lemma_step_end(gs, start);
        let end = step.end();
        lemma_text_split(gs, 0, start, end);
        lemma_text_split(gs, 0, end, gs.len() as int);
        match step {
            LexStep::Token { token, end } => {
                lemma_lex_all(gs, end);
                let rest = lex_all(gs, end);
                let first = Spanned { value: token, span: span_of(gs, start, end) };
                assert(lex_all(gs, from).tokens == seq![first] + rest.tokens);
                assert forall|i: int| 0 <= i < lex_all(gs, from).tokens.len() implies {
                    &&& (#[trigger] lex_all(gs, from).tokens[i]).span.start <= lex_all(
                        gs,
                        from,
                    ).tokens[i].span.end
                    &&& lex_all(gs, from).tokens[i].span.end <= bytes_in(gs, 0, gs.len() as int)
                } by {
                    if i > 0 {
                        assert(lex_all(gs, from).tokens[i] == rest.tokens[i - 1]);
                    }
                }
            },
            LexStep::Fail { message, end } => {
                let err = simple_error(message, span_of(gs, start, end));
                assert(err.labels[0].span == span_of(gs, start, end));
            },
        }
    }
}

/// A token takes at least one cluster and ends inside the clusters.
pub proof fn lemma_step_end(gs: Seq<Seq<char>>, start: int)
    requires
        0 <= start < gs.len(),
    ensures
        start < lex_step(gs, start).end() <= gs.len(),
{
    lemma_scan_bounds(gs, start + 1, Run::Comment);
    lemma_scan_bounds(gs, start + 1, Run::Ident);
    lemma_scan_bounds(gs, start + 1, Run::Digits);
    if start + 2 <= gs.len() {
        lemma_scan_bounds(gs, start + 2, Run::Ident);
    }
}

/// Splits a text into its extended grapheme clusters with
/// `unicode_segmentation`'s `graphemes`. The clusters are consecutive pieces
/// of the text from its start to its end, so together they make up the text.
#[verifier::external_body]
fn split_graphemes(src: &str) -> (graphemes: Vec<String>)
    ensures
        graphemes.deep_view() == grapheme_clusters(src@),
        text(graphemes.deep_view(), 0, graphemes.len() as int) == src@,
{
    src.graphemes(true).map(str::to_string).collect()
}

/// A place in the source: the line, the index of the cluster, and the byte offset.
#[derive(Debug, Clone, Copy)]
pub struct LexPoint {
    pub line: usize,
    pub segment_idx: usize,
    pub file_idx: usize,
}

/// The place where cluster `idx` starts.
pub open spec fn point_at(gs: Seq<Seq<char>>, idx: int) -> LexPoint {
    LexPoint {
        line: line_at(gs, idx),
        segment_idx: idx as usize,
        file_idx: bytes_in(gs, 0, idx) as usize,
    }
}

#[derive(Debug)]
pub struct Lexer {
    pub source: Rc<CodeSource>,
    pub graphemes: Vec<String>,
    pub curr_point: LexPoint,
    pub tokens: Vec<SpannedToken>,
}

/// True when the cluster is the single character `c`.
pub fn is_char(g: &str, c: char) -> (same: bool)
    ensures
        same == single(g@, c),
{
    if g.unicode_len() != 1 {
        return false;
    }
    let same = g.get_char(0) == c;
    if same {
        assert(g@ =~= seq![c]);
    }
    same
}

/// True when every character of the cluster is ASCII white space.
pub fn is_blank(g: &str) -> (all: bool)
    ensures
        all == blank(g@),
{
    let n = g.unicode_len();
    let mut i: usize = 0;
    while i < n
        invariant
            i <= n,
            n == g@.len(),
            forall|k: int| 0 <= k < i ==> is_ascii_space(#[trigger] g@[k]),
        decreases n - i,
    {
        let c = g.get_char(i);
        if !(c == ' ' || c == '\t' || c == '\n' || c == '\x0C' || c == '\r') {
            return false;
        }
        i += 1;
    }
    true
}

/// True when every character of the cluster may start an identifier.
pub fn is_ident_start(g: &str) -> (all: bool)
    ensures
        all == ident_start(g@),
{
    let n = g.unicode_len();
    let mut i: usize = 0;
    while i < n
        invariant
            i <= n,
            n == g@.len(),
            forall|k: int| 0 <= k < i ==> is_ident_first(#[trigger] g@[k]),
        decreases n - i,
    {
        if !Lexer::is_ident_chr_first(g.get_char(i)) {
            return false;
        }
        i += 1;
    }
    true
}

/// True when the cluster's last character is a line feed.
pub fn is_line_end(g: &str) -> (ends: bool)
    ensures
        ends == ends_line(g@),
{
    let n = g.unicode_len();
    n > 0 && g.get_char(n - 1) == '\n'
}

/// Looks up the punctuation token that a cluster stands for.
pub fn lookup_punctuation(g: &str) -> (ascii: Option<AsciiToken>)
    ensures
        ascii == punctuation(g@),
{
    if is_char(g, '{') {
        Some(AsciiToken::OpenBrace)
    } else if is_char(g, '}') {
        Some(AsciiToken::CloseBrace)
    } else if is_char(g, '(') {
        Some(AsciiToken::OpenParen)
    } else if is_char(g, ')') {
        Some(AsciiToken::CloseParen)
    } else if is_char(g, '[') {
        Some(AsciiToken::OpenBracket)
    } else if is_char(g, ']') {
        Some(AsciiToken::CloseBracket)
    } else if is_char(g, ';') {
        Some(AsciiToken::SemiColon)
    } else if is_char(g, ',') {
        Some(AsciiToken::Comma)
    } else {
        None
    }
}

/// The value of a string of decimal digits, when it fits the tag type.
/// A string that holds anything but decimal digits has no value.
pub fn parse_tag(digits: &str) -> (tag: Option<i16>)
    ensures
        match tag {
            Some(value) => crate::lexer::digits(digits@) && value == decimal(digits@),
            None => !crate::lexer::digits(digits@) || decimal(digits@) > i16::MAX,
        },
{
    let ghost all = digits@;
    let mut value: u32 = 0;
    let mut too_big = false;
    for c in iter: digits.chars()
        invariant
            all == digits@,
            iter.seq() == all,
            forall|k: int| 0 <= k < iter.index() ==> is_digit(#[trigger] all[k]),
            too_big ==> decimal(all.take(iter.index() as int)) > i16::MAX,
            !too_big ==> value == decimal(all.take(iter.index() as int)),
            value <= i16::MAX,
    {
        if !('0' <= c && c <= '9') {
            return None;
        }
        proof {
            let next = all.take(iter.index() + 1);
            assert(next.drop_last() =~= all.take(iter.index() as int));
            assert(next.last() == c);
        }
        if !too_big {
            let digit: u32 = c as u32 - '0' as u32;
            let next = value * 10 + digit;
            if next > 32767 {
                too_big = true;
            } else {
                value = next;
            }
        }
    }
    assert(all.take(all.len() as int) =~= all);
    if too_big {
        None
    } else {
        Some(value as i16)
    }
}

impl Lexer {
    /// The clusters of the source as plain values.
    pub open spec fn gs(&self) -> Seq<Seq<char>> {
        self.graphemes.deep_view()
    }

    /// The number of bytes in the source.
    pub open spec fn source_len(&self) -> nat {
        bytes_in(self.gs(), 0, self.gs().len() as int)
    }

    /// The lexer stands at the start of a cluster, or behind the last one,
    /// and its line and byte offset are those of that place.
    pub open spec fn wf(&self) -> bool {
        &&& self.curr_point.segment_idx <= self.gs().len()
        &&& self.source_len() <= usize::MAX
        &&& self.curr_point == point_at(self.gs(), self.curr_point.segment_idx as int)
    }

    /// True when `other` differs from this lexer in its place alone.
    pub open spec fn moved_to(&self, other: &Lexer) -> bool {
        &&& other.wf()
        &&& other.source == self.source
        &&& other.graphemes@ == self.graphemes@
        &&& other.tokens == self.tokens
    }

    /// A lexer at the start of the source.
    pub fn new(source: Rc<CodeSource>) -> (lexer: Self)
        ensures
            lexer.wf(),
            lexer.source == source,
            lexer.gs() == grapheme_clusters(source.src@),
            lexer.source_len() == encode_utf8(source.src@).len(),
            lexer.curr_point.segment_idx == 0,
            lexer.tokens@.len() == 0,
    {
        let graphemes = split_graphemes(source.src.as_str());
        let size = source.src.as_str().as_bytes().len();
        proof {
            let gs = graphemes.deep_view();
            lemma_bytes_of_text(gs, 0, gs.len() as int);
            assert(bytes_in(gs, 0, gs.len() as int) == size);
        }
        Self {
            source,
            graphemes,
            curr_point: LexPoint { line: 1, segment_idx: 0, file_idx: 0 },
            tokens: Vec::new(),
        }
    }

    /// Steps over the cluster `value`, which is the one the lexer stands at.
    pub fn move_point(&mut self, value: &str)
        requires
            old(self).wf(),
            old(self).curr_point.segment_idx < old(self).gs().len(),
            value@ == old(self).gs()[old(self).curr_point.segment_idx as int],
        ensures
            old(self).moved_to(final(self)),
            final(self).curr_point.segment_idx == old(self).curr_point.segment_idx + 1,
    {
        let ghost gs = self.gs();
        let ghost idx = self.curr_point.segment_idx as int;
        let n = value.unicode_len();
        let mut line = self.curr_point.line;
        let mut i: usize = 0;
        while i < n
            invariant
                i <= n,
                n == value@.len(),
                line as int == if 1 + newlines_in(gs, 0, idx) + newline_count(value@.take(i as int))
                    > usize::MAX {
                    usize::MAX as int
                } else {
                    (1 + newlines_in(gs, 0, idx) + newline_count(value@.take(i as int))) as int
                },
            decreases n - i,
        {
            let c = value.get_char(i);
            proof {
                let next = value@.take(i + 1);
                assert(next.drop_last() =~= value@.take(i as int));
                assert(next.last() == c);
            }
            if c == '\n' && line < usize::MAX {
                line += 1;
            }
            i += 1;
        }
        proof {
            assert(value@.take(n as int) =~= value@);
            lemma_text_split(gs, 0, idx + 1, gs.len() as int);
            assert(gs.len() == self.graphemes@.len());
            assert(self.graphemes.len() == self.graphemes@.len());
        }
        self.curr_point.line = line;
        self.curr_point.segment_idx += 1;
        self.curr_point.file_idx += value.len();
    }

    /// True when no cluster is left.
    pub fn is_eof(&self) -> (eof: bool)
        ensures
            eof == (self.curr_point.segment_idx >= self.graphemes.len()),
    {
        self.curr_point.segment_idx >= self.graphemes.len()
    }

    /// The cluster the lexer stands at, if any.
    pub fn peek(&self) -> (next: Option<String>)
        requires
            self.wf(),
        ensures
            match next {
                Some(g) => self.curr_point.segment_idx < self.gs().len() && g@ == self.gs()[self.curr_point.segment_idx as int],
                None => self.curr_point.segment_idx == self.gs().len(),
            },
    {
        if self.curr_point.segment_idx < self.graphemes.len() {
            Some(self.graphemes[self.curr_point.segment_idx].clone())
        } else {
            None
        }
    }

    /// Takes the cluster the lexer stands at, if any.
    pub fn pop(&mut self) -> (popped: Option<String>)
        requires
            old(self).wf(),
        ensures
            old(self).moved_to(final(self)),
            match popped {
                Some(g) => {
                    &&& old(self).curr_point.segment_idx < old(self).gs().len()
                    &&& g@ == old(self).gs()[old(self).curr_point.segment_idx as int]
                    &&& final(self).curr_point.segment_idx == old(self).curr_point.segment_idx + 1
                },
                None => {
                    &&& old(self).curr_point.segment_idx == old(self).gs().len()
                    &&& final(self).curr_point == old(self).curr_point
                },
            },
    {
        match self.peek() {
            Some(g) => {
                self.move_point(g.as_str());
                Some(g)
            },
            None => None,
        }
    }

    /// Takes the cluster the lexer stands at if the predicate accepts it.
    pub fn pop_if<F: Fn(&String) -> bool>(&mut self, predicate: F) -> (popped: Option<String>)
        requires
            old(self).wf(),
            forall|g: &String| predicate.requires((g,)),
        ensures
            old(self).moved_to(final(self)),
            match popped {
                Some(g) => {
                    &&& old(self).curr_point.segment_idx < old(self).gs().len()
                    &&& g@ == old(self).gs()[old(self).curr_point.segment_idx as int]
                    &&& predicate.ensures((&g,), true)
                    &&& final(self).curr_point.segment_idx == old(self).curr_point.segment_idx + 1
                },
                None => {
                    &&& final(self).curr_point == old(self).curr_point
                    &&& old(self).curr_point.segment_idx < old(self).gs().len()
                        ==> exists|g: &String|
                        g@ == old(self).gs()[old(self).curr_point.segment_idx as int]
                            && #[trigger] predicate.ensures((g,), false)
                },
            },
    {
        match self.peek() {
            Some(g) => {
                if !predicate(&g) {
                    return None;
                }
                self.move_point(g.as_str());
                Some(g)
            },
            None => None,
        }
    }

    /// Takes the cluster the lexer stands at if the predicate accepts each of its characters.
    pub fn pop_if_all<F: Fn(char) -> bool>(&mut self, predicate: F) -> (popped: Option<String>)
        requires
            old(self).wf(),
            forall|c: char| predicate.requires((c,)),
        ensures
            old(self).moved_to(final(self)),
            match popped {
                Some(g) => {
                    &&& old(self).curr_point.segment_idx < old(self).gs().len()
                    &&& g@ == old(self).gs()[old(self).curr_point.segment_idx as int]
                    &&& forall|i: int| 0 <= i < g@.len() ==> predicate.ensures((#[trigger] g@[i],), true)
                    &&& final(self).curr_point.segment_idx == old(self).curr_point.segment_idx + 1
                },
                None => {
                    &&& final(self).curr_point == old(self).curr_point
                    &&& old(self).curr_point.segment_idx < old(self).gs().len() ==> exists|i: int|
                        0 <= i < old(self).gs()[old(self).curr_point.segment_idx as int].len()
                            && predicate.ensures(
                            (#[trigger] old(self).gs()[old(self).curr_point.segment_idx as int][i],),
                            false,
                        )
                },
            },
    {
        match self.peek() {
            Some(g) => {
                let n = g.as_str().unicode_len();
                let mut i: usize = 0;
                while i < n
                    invariant
                        i <= n,
                        n == g@.len(),
                        *self == *old(self),
                        self.wf(),
                        self.curr_point.segment_idx < self.gs().len(),
                        g@ == self.gs()[self.curr_point.segment_idx as int],
                        forall|c: char| predicate.requires((c,)),
                        forall|k: int| 0 <= k < i ==> predicate.ensures((#[trigger] g@[k],), true),
                    decreases n - i,
                {
                    let c = g.as_str().get_char(i);
                    if !predicate(c) {
                        assert(predicate.ensures((g@[i as int],), false));
                        return None;
                    }
                    i += 1;
                }
                self.move_point(g.as_str());
                Some(g)
            },
            None => None,
        }
    }

    /// The span from `start` to where the lexer stands.
    pub fn get_span(&self, start: &LexPoint) -> (span: Range<usize>)
        ensures
            span.start == start.file_idx,
            span.end == self.curr_point.file_idx,
    {
        start.file_idx..self.curr_point.file_idx
    }

    /// Appends a token that reaches from `start` to where the lexer stands.
    pub fn add(&mut self, token: Token, start: &LexPoint)
        ensures
            final(self).source == old(self).source,
            final(self).graphemes == old(self).graphemes,
            final(self).curr_point == old(self).curr_point,
            final(self).tokens.deep_view() == old(self).tokens.deep_view().push(
                Spanned {
                    value: token.deep_view(),
                    span: Range { start: start.file_idx, end: old(self).curr_point.file_idx },
                },
            ),
    {
        let span = self.get_span(start);
        self.tokens.push(Spanned::new(token, span));
        assert(self.tokens.deep_view() =~= old(self).tokens.deep_view().push(
            Spanned {
                value: token.deep_view(),
                span: Range { start: start.file_idx, end: old(self).curr_point.file_idx },
            },
        ));
    }

    /// Steps over white space.
    pub fn skip_whitespace(&mut self)
        requires
            old(self).wf(),
        ensures
            old(self).moved_to(final(self)),
            final(self).curr_point.segment_idx == scan(
                old(self).gs(),
                old(self).curr_point.segment_idx as int,
                Run::Space,
            ),
    {
        let mut sink = String::new();
        self.pop_run(Run::Space, &mut sink);
    }

    pub fn is_ident_chr_first(v: char) -> (first: bool)
        ensures
            first == is_ident_first(v),
    {
        ('a' <= v && v <= 'z') || ('A' <= v && v <= 'Z') || v == '_'
    }

    pub fn is_ident_chr_rest(v: char) -> (rest: bool)
        ensures
            rest == is_ident_rest(v),
    {
        Self::is_ident_chr_first(v) || ('0' <= v && v <= '9')
    }

    /// Takes the longest run of the given kind and appends its text to `out`.
    fn pop_run(&mut self, run: Run, out: &mut String)
        requires
            old(self).wf(),
        ensures
            old(self).moved_to(final(self)),
            final(self).curr_point.segment_idx == scan(
                old(self).gs(),
                old(self).curr_point.segment_idx as int,
                run,
            ),
            final(out)@ == old(out)@ + text(
                old(self).gs(),
                old(self).curr_point.segment_idx as int,
                final(self).curr_point.segment_idx as int,
            ),
    {
        let ghost gs = self.gs();
        let ghost from = self.curr_point.segment_idx as int;
        let ghost before = out@;
        assert(text(gs, from, from) =~= Seq::<char>::empty());
        loop
            invariant
                old(self).moved_to(self),
                gs == old(self).gs(),
                from == old(self).curr_point.segment_idx,
                from <= self.curr_point.segment_idx <= gs.len(),
                scan(gs, from, run) == scan(gs, self.curr_point.segment_idx as int, run),
                out@ == before + text(gs, from, self.curr_point.segment_idx as int),
            ensures
                old(self).moved_to(self),
                self.curr_point.segment_idx == scan(gs, from, run),
                out@ == before + text(gs, from, self.curr_point.segment_idx as int),
            decreases gs.len() - self.curr_point.segment_idx,
        {
            let ghost idx = self.curr_point.segment_idx as int;
            let popped = match run {
                Run::Space => self.pop_if(
                    |g: &String| -> (b: bool) ensures b == blank(g@) { is_blank(g.as_str()) },
                ),
                Run::Comment => self.pop_if(
                    |g: &String| -> (b: bool) ensures b == !ends_line(g@) { !is_line_end(g.as_str()) },
                ),
                Run::Ident => self.pop_if_all(
                    |c: char| -> (b: bool) ensures b == is_ident_rest(c) { Lexer::is_ident_chr_rest(c) },
                ),
                Run::Digits => self.pop_if_all(
                    |c: char| -> (b: bool) ensures b == is_digit(c) { '0' <= c && c <= '9' },
                ),
            };
            match popped {
                Some(g) => {
                    assert(belongs(run, gs[idx]));
                    out.append(g.as_str());
                    assert(out@ =~= before + text(gs, from, idx + 1));
                },
                None => {
                    assert(idx < gs.len() ==> !belongs(run, gs[idx]));
                    break ;
                },
            }
        }
    }

    /// Reads an identifier: the text `start` if given, else the cluster the
    /// lexer stands at, followed by the longest run of identifier clusters.
    pub fn pop_ident(&mut self, start: Option<&str>) -> (ident: Option<String>)
        requires
            old(self).wf(),
        ensures
            old(self).moved_to(final(self)),
            match start {
                Some(first) => {
                    &&& final(self).curr_point.segment_idx == scan(
                        old(self).gs(),
                        old(self).curr_point.segment_idx as int,
                        Run::Ident,
                    )
                    &&& ident matches Some(name)
                    &&& name@ == first@ + text(
                        old(self).gs(),
                        old(self).curr_point.segment_idx as int,
                        final(self).curr_point.segment_idx as int,
                    )
                },
                None => if old(self).curr_point.segment_idx < old(self).gs().len() {
                    &&& final(self).curr_point.segment_idx == scan(
                        old(self).gs(),
                        old(self).curr_point.segment_idx + 1,
                        Run::Ident,
                    )
                    &&& ident matches Some(name)
                    &&& name@ == text(
                        old(self).gs(),
                        old(self).curr_point.segment_idx as int,
                        final(self).curr_point.segment_idx as int,
                    )
                } else {
                    ident is None && final(self).curr_point == old(self).curr_point
                },
            },
    {
        let ghost gs = self.gs();
        let ghost from = self.curr_point.segment_idx as int;
        let mut ident = String::new();
        match start {
            Some(first) => {
                ident.append(first);
                assert(ident@ =~= first@);
            },
            None => {
                match self.pop() {
                    Some(first) => {
                        ident.append(first.as_str());
                        assert(ident@ =~= gs[from]);
                    },
                    None => {
                        return None;
                    },
                }
            },
        }
        let ghost mid = self.curr_point.segment_idx as int;
        self.pop_run(Run::Ident, &mut ident);
        proof {
            if start is None {
                lemma_scan_bounds(gs, mid, Run::Ident);
                lemma_text_one(gs, from);
                lemma_text_split(gs, from, mid, self.curr_point.segment_idx as int);
            }
        }
        Some(ident)
    }

    /// Reads the comment whose `#` the lexer has just taken.
    fn read_comment(&mut self) -> (token: Token)
        requires
            old(self).wf(),
        ensures
            old(self).moved_to(final(self)),
            final(self).curr_point.segment_idx == scan(
                old(self).gs(),
                old(self).curr_point.segment_idx as int,
                Run::Comment,
            ),
            token.deep_view() == TokenView::Comment(
                comment_text(
                    text(
                        old(self).gs(),
                        old(self).curr_point.segment_idx as int,
                        final(self).curr_point.segment_idx as int,
                    ),
                ),
            ),
    {
        let mut comment = String::new();
        self.pop_run(Run::Comment, &mut comment);
        assert(comment@ =~= text(
            old(self).gs(),
            old(self).curr_point.segment_idx as int,
            self.curr_point.segment_idx as int,
        ));
        let n = comment.as_str().unicode_len();
        if n > 0 && comment.as_str().get_char(0) == ' ' {
            let rest = String::from_str(comment.as_str().substring_char(1, n));
            assert(rest@ =~= comment@.drop_first());
            Token::Comment(rest)
        } else {
            Token::Comment(comment)
        }
    }

    /// Reads the number whose first cluster `first` the lexer has just taken.
    fn read_number(&mut self, first: &str, start: &LexPoint) -> (res: Result<Token, OlympusError>)
        requires
            old(self).wf(),
            1 <= old(self).curr_point.segment_idx,
            first@ == old(self).gs()[old(self).curr_point.segment_idx - 1],
            digits(first@),
            *start == point_at(old(self).gs(), old(self).curr_point.segment_idx - 1),
        ensures
            old(self).moved_to(final(self)),
            final(self).curr_point.segment_idx == scan(
                old(self).gs(),
                old(self).curr_point.segment_idx as int,
                Run::Digits,
            ),
            ({
                let gs = old(self).gs();
                let at = old(self).curr_point.segment_idx - 1;
                let end = final(self).curr_point.segment_idx as int;
                let value = decimal(text(gs, at, end));
                match res {
                    Ok(token) => value <= i16::MAX && token.deep_view() == TokenView::Number(
                        value as i16,
                    ),
                    Err(err) => value > i16::MAX && err@ == simple_error(
                        "Max enum tag is 32767"@,
                        span_of(gs, at, end),
                    ),
                }
            }),
    {
        let ghost gs = self.gs();
        let ghost at = self.curr_point.segment_idx - 1;
        let mut number = String::new();
        number.append(first);
        self.pop_run(Run::Digits, &mut number);
        proof {
            let end = self.curr_point.segment_idx as int;
            lemma_scan_bounds(gs, at + 1, Run::Digits);
            lemma_text_one(gs, at);
            lemma_text_split(gs, at, at + 1, end);
            assert(number@ =~= text(gs, at, end));
            lemma_digits_text(gs, at, end);
        }
        match parse_tag(number.as_str()) {
            Some(value) => Ok(Token::Number(value)),
            None => Err(OlympusError::error("Max enum tag is 32767", self.get_span(start))),
        }
    }

    /// Reads the built-in type name behind the `@` that the lexer has just taken.
    fn read_builtin(&mut self, start: &LexPoint) -> (res: Result<Token, OlympusError>)
        requires
            old(self).wf(),
            1 <= old(self).curr_point.segment_idx < old(self).gs().len(),
            *start == point_at(old(self).gs(), old(self).curr_point.segment_idx - 1),
        ensures
            old(self).moved_to(final(self)),
            final(self).curr_point.segment_idx == scan(
                old(self).gs(),
                old(self).curr_point.segment_idx + 1,
                Run::Ident,
            ),
            ({
                let gs = old(self).gs();
                let at = old(self).curr_point.segment_idx - 1;
                let end = final(self).curr_point.segment_idx as int;
                match res {
                    Ok(token) => builtin_type(text(gs, at + 1, end)) matches Some(ty)
                        && token.deep_view() == TokenView::Type(ty),
                    Err(err) => builtin_type(text(gs, at + 1, end)) is None && err@
                        == simple_error("Unrecognized builtin"@, span_of(gs, at, end)),
                }
            }),
    {
        let ident = match self.pop_ident(None) {
            Some(ident) => ident,
            None => {
                return Err(
                    OlympusError::error(
                        "Couldn't pop ident after finding it, this shouldn't ever happen.",
                        self.get_span(start),
                    ),
                );
            },
        };
        match lookup_builtin(ident.as_str()) {
            Some(ty) => Ok(Token::Type(ty)),
            None => Err(OlympusError::error("Unrecognized builtin", self.get_span(start))),
        }
    }

    /// Reads the identifier or keyword whose first cluster `first` the lexer has just taken.
    fn read_word(&mut self, first: &str, start: &LexPoint) -> (res: Result<Token, OlympusError>)
        requires
            old(self).wf(),
            1 <= old(self).curr_point.segment_idx,
            first@ == old(self).gs()[old(self).curr_point.segment_idx - 1],
        ensures
            old(self).moved_to(final(self)),
            final(self).curr_point.segment_idx == scan(
                old(self).gs(),
                old(self).curr_point.segment_idx as int,
                Run::Ident,
            ),
            ({
                let gs = old(self).gs();
                let at = old(self).curr_point.segment_idx - 1;
                let name = text(gs, at, final(self).curr_point.segment_idx as int);
                match keyword(name) {
                    Some(kw) => res matches Ok(token) && token.deep_view() == TokenView::Keyword(kw),
                    None => res matches Ok(token) && token.deep_view() == TokenView::Ident(name),
                }
            }),
    {
        let ghost gs = self.gs();
        let ghost at = self.curr_point.segment_idx - 1;
        let ident = match self.pop_ident(Some(first)) {
            Some(ident) => ident,
            None => {
                return Err(
                    OlympusError::error(
                        "Couldn't pop ident after finding it, this shouldn't ever happen.",
                        self.get_span(start),
                    ),
                );
            },
        };
        proof {
            lemma_scan_bounds(gs, at + 1, Run::Ident);
            lemma_text_one(gs, at);
            lemma_text_split(gs, at, at + 1, self.curr_point.segment_idx as int);
        }
        match lookup_keyword(ident.as_str()) {
            Some(kw) => Ok(Token::Keyword(kw)),
            None => Ok(Token::Ident(ident)),
        }
    }

    /// Reads the token whose first cluster `c` the lexer has just taken.
    fn read_token(&mut self, c: &str, start: &LexPoint) -> (res: Result<Token, OlympusError>)
        requires
            old(self).wf(),
            1 <= old(self).curr_point.segment_idx,
            c@ == old(self).gs()[old(self).curr_point.segment_idx - 1],
            *start == point_at(old(self).gs(), old(self).curr_point.segment_idx - 1),
        ensures
            old(self).moved_to(final(self)),
            ({
                let gs = old(self).gs();
                let at = old(self).curr_point.segment_idx - 1;
                &&& final(self).curr_point.segment_idx == lex_step(gs, at).end()
                &&& match lex_step(gs, at) {
                    LexStep::Token { token, .. } => res matches Ok(t) && t.deep_view() == token,
                    LexStep::Fail { message, end } => res matches Err(err) && err@ == simple_error(
                        message,
                        span_of(gs, at, end),
                    ),
                }
            }),
    {
        let ghost gs = self.gs();
        let ghost at = self.curr_point.segment_idx - 1;
        if is_char(c, '#') {
            Ok(self.read_comment())
        } else if let Some(ascii) = lookup_punctuation(c) {
            Ok(Token::Ascii(ascii))
        } else if is_char(c, '-') && self.pop_if(
            |g: &String| -> (b: bool) ensures b == single(g@, '>') { is_char(g.as_str(), '>') },
        ).is_some() {
            Ok(Token::Arrow)
        } else if is_char(c, '@') && self.next_starts_ident() {
            self.read_builtin(start)
        } else if is_ident_start(c) {
            self.read_word(c, start)
        } else if Self::is_digits(c) {
            self.read_number(c, start)
        } else {
            let mut message = String::from_str("Unexpected character: ");
            message.append(c);
            Err(OlympusError::error(message.as_str(), self.get_span(start)))
        }
    }

    /// Reads tokens until the clusters run out or one cannot be read. The
    /// tokens are appended to `tokens`; the first failure is returned.
    pub fn lex(&mut self) -> (res: Result<(), OlympusError>)
        requires
            old(self).wf(),
        ensures
            final(self).wf(),
            final(self).source == old(self).source,
            final(self).graphemes@ == old(self).graphemes@,
            ({
                let out = lex_all(old(self).gs(), old(self).curr_point.segment_idx as int);
                &&& final(self).tokens.deep_view() == old(self).tokens.deep_view() + out.tokens
                &&& final(self).curr_point.segment_idx == out.end
                &&& match res {
                    Ok(_) => out.error is None,
                    Err(err) => out.error == Some(err@),
                }
            }),
    {
        let ghost gs = self.gs();
        let ghost from = self.curr_point.segment_idx as int;
        let ghost before = self.tokens.deep_view();
        let ghost total = lex_all(gs, from);
        assert(before + Seq::<Spanned<TokenView>>::empty() =~= before);
        loop
            invariant
                self.wf(),
                self.source == old(self).source,
                self.graphemes@ == old(self).graphemes@,
                gs == self.gs(),
                gs == old(self).gs(),
                from == old(self).curr_point.segment_idx,
                before == old(self).tokens.deep_view(),
                total == lex_all(gs, from),
                self.tokens.deep_view() + lex_all(gs, self.curr_point.segment_idx as int).tokens
                    == before + total.tokens,
                lex_all(gs, self.curr_point.segment_idx as int).error == total.error,
                lex_all(gs, self.curr_point.segment_idx as int).end == total.end,
            decreases gs.len() - self.curr_point.segment_idx,
        {
            let ghost here = self.curr_point.segment_idx as int;
            let ghost sofar = self.tokens.deep_view();
            proof {
                lemma_scan_bounds(gs, here, Run::Space);
            }
            if self.is_eof() {
                assert(sofar + lex_all(gs, here).tokens =~= sofar);
                return Ok(());
            }
            self.skip_whitespace();
            let start = self.curr_point;
            let ghost at = start.segment_idx as int;
            let c = match self.pop() {
                Some(c) => c,
                None => {
                    assert(sofar + lex_all(gs, here).tokens =~= sofar);
                    return Ok(());
                },
            };
            proof {
                lemma_step_end(gs, at);
            }
            let token = match self.read_token(c.as_str(), &start) {
                Ok(token) => token,
                Err(err) => {
                    assert(sofar + lex_all(gs, here).tokens =~= sofar);
                    return Err(err);
                },
            };
            let ghost end = self.curr_point.segment_idx as int;
            self.add(token, &start);
            proof {
                let first = Spanned { value: token.deep_view(), span: span_of(gs, at, end) };
                assert(lex_all(gs, here).tokens == seq![first] + lex_all(gs, end).tokens);
                assert(self.tokens.deep_view() + lex_all(gs, end).tokens =~= sofar + lex_all(
                    gs,
                    here,
                ).tokens);
            }
        }
    }

    /// True when the cluster the lexer stands at is made of characters that may start an identifier.
    fn next_starts_ident(&self) -> (starts: bool)
        requires
            self.wf(),
        ensures
            starts == (self.curr_point.segment_idx < self.gs().len() && ident_start(
                self.gs()[self.curr_point.segment_idx as int],
            )),
    {
        match self.peek() {
            Some(g) => is_ident_start(g.as_str()),
            None => false,
        }
    }

    /// True when every character of the cluster is a decimal digit.
    fn is_digits(g: &str) -> (all: bool)
        ensures
            all == digits(g@),
    {
        let n = g.unicode_len();
        let mut i: usize = 0;
        while i < n
            invariant
                i <= n,
                n == g@.len(),
                forall|k: int| 0 <= k < i ==> is_digit(#[trigger] g@[k]),
            decreases n - i,
        {
            let c = g.get_char(i);
            if !('0' <= c && c <= '9') {
                return false;
            }
            i += 1;
        }
        true
    }
}

/// The text of clusters that are all digits is all digits.
pub proof fn lemma_digits_text(gs: Seq<Seq<char>>, from: int, to: int)
    requires
        0 <= from <= to <= gs.len(),
        forall|k: int| from <= k < to ==> digits(#[trigger] gs[k]),
    ensures
        digits(text(gs, from, to)),
    decreases to - from,
{
    if from < to {
        lemma_digits_text(gs, from, to - 1);
        assert(digits(gs[to - 1]));
    }
}

} // verus!
