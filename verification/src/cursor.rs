//! A cursor over the characters of a source text.
//!
//! Every character is kept with the place it stands at: its line and its
//! index in that line, both counted from zero, and its byte offset.

use vstd::prelude::*;
use vstd::utf8::{encode_scalar, encode_utf8};

verus! {

#[derive(Debug, Clone, Copy, PartialEq, Eq, Structural)]
pub struct CodeCursorPoint {
    pub value: char,
    pub line: usize,
    pub line_idx: usize,
    pub file_idx: usize,
}

#[derive(Debug)]
pub struct CodeCursor {
    pub inner: Vec<CodeCursorPoint>,
    pub read_idx: usize,
}

/// What `char::is_whitespace` gives for the character: true for white
/// space as Unicode defines it.
pub uninterp spec fn unicode_whitespace(c: char) -> bool;

/// `char::is_whitespace`: true for the characters with the Unicode
/// property `White_Space`.
#[verifier::external_body]
fn is_whitespace(c: char) -> (white: bool)
    ensures
        white == unicode_whitespace(c),
{
    c.is_whitespace()
}

/// The number of line feeds among the first `i` characters.
pub open spec fn lines_before(chars: Seq<char>, i: int) -> nat
    decreases i,
{
    if i <= 0 {
        0
    } else {
        lines_before(chars, i - 1) + if chars[i - 1] == '\n' {
            1nat
        } else {
            0nat
        }
    }
}

/// The number of characters between the start of its line and character `i`.
pub open spec fn column_of(chars: Seq<char>, i: int) -> nat
    decreases i,
{
    if i <= 0 || chars[i - 1] == '\n' {
        0
    } else {
        column_of(chars, i - 1) + 1
    }
}

/// The number of bytes that the first `i` characters take in UTF-8.
pub open spec fn offset_of(chars: Seq<char>, i: int) -> nat
    decreases i,
{
    if i <= 0 {
        0
    } else {
        offset_of(chars, i - 1) + encode_scalar(chars[i - 1] as u32).len()
    }
}

/// The point of character `i`.
pub open spec fn point_of(chars: Seq<char>, i: int) -> CodeCursorPoint {
    CodeCursorPoint {
        value: chars[i],
        line: lines_before(chars, i) as usize,
        line_idx: column_of(chars, i) as usize,
        file_idx: offset_of(chars, i) as usize,
    }
}

/// The points of a text.
pub open spec fn points_of(chars: Seq<char>) -> Seq<CodeCursorPoint> {
    Seq::new(chars.len(), |i: int| point_of(chars, i))
}

/// The index of the first point from `from` on that holds `c`, or the
/// number of points where none does.
pub open spec fn find_char(points: Seq<CodeCursorPoint>, from: int, c: char) -> int
    decreases points.len() - from,
{
    if from < 0 || from >= points.len() {
        points.len() as int
    } else if points[from].value == c {
        from
    } else {
        find_char(points, from + 1, c)
    }
}

/// The index of the first point from `from` on that holds `c` or a line
/// feed, or the number of points where none does.
pub open spec fn find_char_or_break(points: Seq<CodeCursorPoint>, from: int, c: char) -> int
    decreases points.len() - from,
{
    if from < 0 || from >= points.len() {
        points.len() as int
    } else if points[from].value == '\n' || points[from].value == c {
        from
    } else {
        find_char_or_break(points, from + 1, c)
    }
}

proof fn lemma_find_char(points: Seq<CodeCursorPoint>, from: int, c: char)
    requires
        0 <= from <= points.len(),
    ensures
        from <= find_char(points, from, c) <= points.len(),
        from <= find_char_or_break(points, from, c) <= points.len(),
    decreases points.len() - from,
{
    if from < points.len() {
        lemma_find_char(points, from + 1, c);
    }
}

proof fn lemma_offsets(chars: Seq<char>, i: int)
    requires
        0 <= i <= chars.len(),
    ensures
        offset_of(chars, i) == encode_utf8(chars.take(i)).len(),
        lines_before(chars, i) <= i,
        column_of(chars, i) <= i,
        i <= offset_of(chars, i) <= encode_utf8(chars).len(),
    decreases chars.len() - i,
{
    lemma_prefix(chars, i);
    if i < chars.len() {
        lemma_offsets(chars, i + 1);
        lemma_prefix(chars, i + 1);
    } else {
        assert(chars.take(i) =~= chars);
    }
}

proof fn lemma_prefix(chars: Seq<char>, i: int)
    requires
        0 <= i <= chars.len(),
    ensures
        offset_of(chars, i) == encode_utf8(chars.take(i)).len(),
        lines_before(chars, i) <= i,
        column_of(chars, i) <= i,
        i <= offset_of(chars, i),
    decreases i,
{
    if i > 0 {
        lemma_prefix(chars, i - 1);
        crate::lexer::lemma_encode_concat(chars.take(i - 1), seq![chars[i - 1]]);
        assert(chars.take(i) =~= chars.take(i - 1) + seq![chars[i - 1]]);
        assert(encode_utf8(seq![chars[i - 1]]) =~= encode_scalar(chars[i - 1] as u32)) by {
            assert(seq![chars[i - 1]].drop_first() =~= Seq::<char>::empty());
            reveal_with_fuel(encode_utf8, 2);
        }
    } else {
        assert(chars.take(0) =~= Seq::<char>::empty());
    }
}

/// The number of bytes that a character takes in UTF-8.
pub fn utf8_len(c: char) -> (len: usize)
    ensures
        len == encode_scalar(c as u32).len(),
        1 <= len <= 4,
{
    let v = c as u32;
    if v < 0x80 {
        1
    } else if v < 0x800 {
        2
    } else if v < 0x10000 {
        3
    } else {
        4
    }
}

impl CodeCursor {
    /// The cursor stands inside its points or directly behind them.
    pub open spec fn wf(&self) -> bool {
        self.read_idx <= self.inner.len()
    }

    /// A cursor at the start of a text.
    pub fn new(str: &str) -> (cursor: Self)
        ensures
            cursor.wf(),
            cursor.inner@ == points_of(str@),
            cursor.read_idx == 0,
    {
        let ghost chars = str@;
        let size = str.as_bytes().len();
        let mut points: Vec<CodeCursorPoint> = Vec::new();
        let mut line: usize = 0;
        let mut line_idx: usize = 0;
        let mut file_idx: usize = 0;
        for c in iter: str.chars()
            invariant
                chars == str@,
                iter.seq() == chars,
                size == encode_utf8(chars).len(),
                points.len() == iter.index(),
                forall|k: int| 0 <= k < iter.index() ==> (#[trigger] points[k]) == point_of(chars, k),
                line == lines_before(chars, iter.index() as int),
                line_idx == column_of(chars, iter.index() as int),
                file_idx == offset_of(chars, iter.index() as int),
        {
            proof {
                lemma_offsets(chars, iter.index() + 1);
                lemma_offsets(chars, chars.len() as int);
            }
            let ghost before = points@;
            points.push(CodeCursorPoint { value: c, line, line_idx, file_idx });
            assert(points@ == before.push(point_of(chars, iter.index() as int)));
            if c == '\n' {
                line += 1;
                line_idx = 0;
            } else {
                line_idx += 1;
            }
            file_idx += utf8_len(c);
        }
        assert(points@ =~= points_of(chars));
        Self { inner: points, read_idx: 0 }
    }

    pub fn is_eof(&self) -> (eof: bool)
        ensures
            eof == (self.read_idx >= self.inner.len()),
    {
        self.read_idx >= self.inner.len()
    }

    /// The point the cursor stands at.
    pub fn peek(&self) -> (point: Option<&CodeCursorPoint>)
        ensures
            point == if self.read_idx < self.inner.len() {
                Some(&self.inner[self.read_idx as int])
            } else {
                None
            },
    {
        if self.read_idx < self.inner.len() {
            Some(&self.inner[self.read_idx])
        } else {
            None
        }
    }

    /// The point that stands `offset` places behind the one the cursor stands at.
    pub fn peek_n(&self, offset: usize) -> (point: Option<&CodeCursorPoint>)
        ensures
            point == if self.read_idx + offset < self.inner.len() {
                Some(&self.inner[self.read_idx + offset])
            } else {
                None
            },
    {
        if offset < self.inner.len() && self.read_idx < self.inner.len() - offset {
            Some(&self.inner[self.read_idx + offset])
        } else {
            None
        }
    }

    pub fn peek_chr(&self) -> (c: Option<char>)
        ensures
            c == if self.read_idx < self.inner.len() {
                Some(self.inner[self.read_idx as int].value)
            } else {
                None
            },
    {
        match self.peek() {
            Some(point) => Some(point.value),
            None => None,
        }
    }

    pub fn peek_chr_n(&self, offset: usize) -> (c: Option<char>)
        ensures
            c == if self.read_idx + offset < self.inner.len() {
                Some(self.inner[self.read_idx + offset].value)
            } else {
                None
            },
    {
        match self.peek_n(offset) {
            Some(point) => Some(point.value),
            None => None,
        }
    }

    /// Takes the point the cursor stands at.
    pub fn pop(&mut self) -> (point: Option<CodeCursorPoint>)
        requires
            old(self).wf(),
        ensures
            final(self).wf(),
            final(self).inner == old(self).inner,
            match point {
                Some(p) => old(self).read_idx < old(self).inner.len() && p == old(
                    self,
                ).inner[old(self).read_idx as int] && final(self).read_idx == old(self).read_idx
                    + 1,
                None => old(self).read_idx == old(self).inner.len() && final(self).read_idx == old(
                    self,
                ).read_idx,
            },
    {
        if self.is_eof() {
            return None;
        }
        let point = self.inner[self.read_idx];
        self.read_idx += 1;
        Some(point)
    }

    /// Takes the point the cursor stands at if it holds `c`.
    pub fn pop_if(&mut self, c: char) -> (point: Option<CodeCursorPoint>)
        requires
            old(self).wf(),
        ensures
            final(self).wf(),
            final(self).inner == old(self).inner,
            match point {
                Some(p) => old(self).read_idx < old(self).inner.len() && p == old(
                    self,
                ).inner[old(self).read_idx as int] && p.value == c && final(self).read_idx == old(
                    self,
                ).read_idx + 1,
                None => final(self).read_idx == old(self).read_idx && (old(self).read_idx < old(
                    self,
                ).inner.len() ==> old(self).inner[old(self).read_idx as int].value != c),
            },
    {
        match self.peek_chr() {
            Some(v) => {
                if v == c {
                    self.pop()
                } else {
                    None
                }
            },
            None => None,
        }
    }

    /// Takes points up to the first that holds `c`, which is taken too but
    /// not handed back. Where no point holds `c`, every point is taken and
    /// nothing is handed back.
    pub fn pop_until_chr(&mut self, c: char) -> (points: Option<Vec<CodeCursorPoint>>)
        requires
            old(self).wf(),
        ensures
            final(self).wf(),
            final(self).inner == old(self).inner,
            ({
                let at = find_char(old(self).inner@, old(self).read_idx as int, c);
                if at < old(self).inner.len() {
                    &&& points matches Some(found)
                    &&& found@ == old(self).inner@.subrange(old(self).read_idx as int, at)
                    &&& final(self).read_idx == at + 1
                } else {
                    points is None && final(self).read_idx == old(self).inner.len()
                }
            }),
    {
        let ghost all = self.inner@;
        let ghost from = self.read_idx as int;
        let mut points: Vec<CodeCursorPoint> = Vec::new();
        assert(points@ =~= all.subrange(from, from));
        while self.read_idx < self.inner.len()
            invariant
                self.wf(),
                self.inner == old(self).inner,
                all == self.inner@,
                from == old(self).read_idx,
                from <= self.read_idx,
                find_char(all, from, c) == find_char(all, self.read_idx as int, c),
                points@ == all.subrange(from, self.read_idx as int),
            decreases self.inner.len() - self.read_idx,
        {
            let point = self.inner[self.read_idx];
            self.read_idx += 1;
            if point.value == c {
                return Some(points);
            }
            points.push(point);
            assert(points@ =~= all.subrange(from, self.read_idx as int));
        }
        None
    }

    /// Like `pop_until_chr`, but a line feed ends the search: the points
    /// before it are taken, it stays, and nothing is handed back.
    pub fn pop_until_chr_or_break(&mut self, c: char) -> (points: Option<Vec<CodeCursorPoint>>)
        requires
            old(self).wf(),
        ensures
            final(self).wf(),
            final(self).inner == old(self).inner,
            ({
                let at = find_char_or_break(old(self).inner@, old(self).read_idx as int, c);
                if at < old(self).inner.len() && old(self).inner[at].value != '\n' {
                    &&& points matches Some(found)
                    &&& found@ == old(self).inner@.subrange(old(self).read_idx as int, at)
                    &&& final(self).read_idx == at + 1
                } else {
                    points is None && final(self).read_idx == at
                }
            }),
    {
        let ghost all = self.inner@;
        let ghost from = self.read_idx as int;
        let mut points: Vec<CodeCursorPoint> = Vec::new();
        assert(points@ =~= all.subrange(from, from));
        while self.read_idx < self.inner.len()
            invariant
                self.wf(),
                self.inner == old(self).inner,
                all == self.inner@,
                from == old(self).read_idx,
                from <= self.read_idx,
                find_char_or_break(all, from, c) == find_char_or_break(
                    all,
                    self.read_idx as int,
                    c,
                ),
                points@ == all.subrange(from, self.read_idx as int),
            decreases self.inner.len() - self.read_idx,
        {
            let point = self.inner[self.read_idx];
            if point.value == '\n' {
                return None;
            }
            self.read_idx += 1;
            if point.value == c {
                return Some(points);
            }
            points.push(point);
            assert(points@ =~= all.subrange(from, self.read_idx as int));
        }
        None
    }

    /// Takes points as long as the predicate accepts their characters.
    pub fn pop_while<F: Fn(char) -> bool>(&mut self, predicate: F) -> (points: Vec<CodeCursorPoint>)
        requires
            old(self).wf(),
            forall|c: char| predicate.requires((c,)),
        ensures
            final(self).wf(),
            final(self).inner == old(self).inner,
            old(self).read_idx <= final(self).read_idx,
            points@ == old(self).inner@.subrange(
                old(self).read_idx as int,
                final(self).read_idx as int,
            ),
            forall|k: int|
                old(self).read_idx <= k < final(self).read_idx ==> predicate.ensures(
                    ((#[trigger] old(self).inner[k]).value,),
                    true,
                ),
            final(self).read_idx < old(self).inner.len() ==> predicate.ensures(
                (old(self).inner[final(self).read_idx as int].value,),
                false,
            ),
    {
        let ghost all = self.inner@;
        let ghost from = self.read_idx as int;
        let mut points: Vec<CodeCursorPoint> = Vec::new();
        assert(points@ =~= all.subrange(from, from));
        while self.read_idx < self.inner.len()
            invariant
                self.wf(),
                self.inner == old(self).inner,
                all == self.inner@,
                from == old(self).read_idx,
                from <= self.read_idx,
                forall|c: char| predicate.requires((c,)),
                points@ == all.subrange(from, self.read_idx as int),
                forall|k: int|
                    from <= k < self.read_idx ==> predicate.ensures(
                        ((#[trigger] all[k]).value,),
                        true,
                    ),
            decreases self.inner.len() - self.read_idx,
        {
            let point = self.inner[self.read_idx];
            if !predicate(point.value) {
                return points;
            }
            self.read_idx += 1;
            points.push(point);
            assert(points@ =~= all.subrange(from, self.read_idx as int));
        }
        points
    }

    /// Steps over points as long as the predicate accepts their characters.
    pub fn skip_while<F: Fn(char) -> bool>(&mut self, predicate: F)
        requires
            old(self).wf(),
            forall|c: char| predicate.requires((c,)),
        ensures
            final(self).wf(),
            final(self).inner == old(self).inner,
            old(self).read_idx <= final(self).read_idx,
            forall|k: int|
                old(self).read_idx <= k < final(self).read_idx ==> predicate.ensures(
                    ((#[trigger] old(self).inner[k]).value,),
                    true,
                ),
            final(self).read_idx < old(self).inner.len() ==> predicate.ensures(
                (old(self).inner[final(self).read_idx as int].value,),
                false,
            ),
    {
        let ghost all = self.inner@;
        let ghost from = self.read_idx as int;
        while self.read_idx < self.inner.len()
            invariant
                self.wf(),
                self.inner == old(self).inner,
                all == self.inner@,
                from == old(self).read_idx,
                from <= self.read_idx,
                forall|c: char| predicate.requires((c,)),
                forall|k: int|
                    from <= k < self.read_idx ==> predicate.ensures(
                        ((#[trigger] all[k]).value,),
                        true,
                    ),
            decreases self.inner.len() - self.read_idx,
        {
            let point = self.inner[self.read_idx];
            if !predicate(point.value) {
                return ;
            }
            self.read_idx += 1;
        }
    }

    /// Steps over white space.
    pub fn skip_whitespace(&mut self)
        requires
            old(self).wf(),
        ensures
            final(self).wf(),
            final(self).inner == old(self).inner,
            old(self).read_idx <= final(self).read_idx,
            forall|k: int|
                old(self).read_idx <= k < final(self).read_idx ==> unicode_whitespace(
                    (#[trigger] old(self).inner[k]).value,
                ),
            final(self).read_idx < old(self).inner.len() ==> !unicode_whitespace(
                old(self).inner[final(self).read_idx as int].value,
            ),
    {
        self.skip_while(|c: char| -> (b: bool) ensures b == unicode_whitespace(c) { is_whitespace(c) })
    }
}

} // verus!
