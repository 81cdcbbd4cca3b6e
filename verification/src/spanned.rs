//! Source locations and diagnostics.
//!
//! A span is a half-open range of byte offsets into the source text. A
//! diagnostic has a subject and any number of labels, each with a message, a
//! span and a colour.

use std::ops::Range;
use vstd::prelude::*;

verus! {

/// A source text together with the name of the file it came from.
#[derive(Debug, Clone)]
pub struct CodeSource {
    pub file_name: String,
    pub src: String,
}

/// The colour a label is drawn in.
#[derive(Debug, Clone, Copy, PartialEq, Eq, Structural)]
pub enum ErrorColor {
    Red,
    Yellow,
}

/// One labelled place of a diagnostic.
#[derive(Debug, PartialEq, Eq)]
pub struct OlympusErrorLabel {
    pub message: String,
    pub span: Range<usize>,
    pub color: ErrorColor,
}

/// A diagnostic: what went wrong, and the places it concerns.
#[derive(Debug, PartialEq, Eq)]
pub struct OlympusError {
    pub subject: String,
    pub labels: Vec<OlympusErrorLabel>,
}

/// A label as plain values.
pub struct LabelView {
    pub message: Seq<char>,
    pub span: Range<usize>,
    pub color: ErrorColor,
}

/// A diagnostic as plain values.
pub struct ErrorView {
    pub subject: Seq<char>,
    pub labels: Seq<LabelView>,
}

impl View for OlympusErrorLabel {
    type V = LabelView;

    open spec fn view(&self) -> LabelView {
        LabelView { message: self.message@, span: self.span, color: self.color }
    }
}

impl View for OlympusError {
    type V = ErrorView;

    open spec fn view(&self) -> ErrorView {
        ErrorView {
            subject: self.subject@,
            labels: self.labels@.map_values(|l: OlympusErrorLabel| l@),
        }
    }
}

/// The diagnostic with one red label that repeats the subject.
pub open spec fn simple_error(subject: Seq<char>, span: Range<usize>) -> ErrorView {
    ErrorView {
        subject,
        labels: seq![LabelView { message: subject, span, color: ErrorColor::Red }],
    }
}

impl ErrorView {
    /// True when every label lies inside the first `len` bytes of the source.
    pub open spec fn within(self, len: int) -> bool {
        forall|i: int|
            0 <= i < self.labels.len() ==> {
                &&& (#[trigger] self.labels[i]).span.start <= self.labels[i].span.end
                &&& self.labels[i].span.end <= len
            }
    }

    /// The diagnostic with one more label at its end.
    pub open spec fn with_label(self, message: Seq<char>, span: Range<usize>, color: ErrorColor) -> ErrorView {
        ErrorView { subject: self.subject, labels: self.labels.push(LabelView { message, span, color }) }
    }
}

impl OlympusError {
    /// A diagnostic with a single red label that carries the subject as its message.
    pub fn error(subject: &str, span: Range<usize>) -> (err: Self)
        ensures
            err@ == simple_error(subject@, span),
    {
        let mut labels: Vec<OlympusErrorLabel> = Vec::new();
        labels.push(
            OlympusErrorLabel { message: String::from_str(subject), span, color: ErrorColor::Red },
        );
        let err = OlympusError { subject: String::from_str(subject), labels };
        assert(err@.labels =~= simple_error(subject@, span).labels);
        err
    }

    /// A diagnostic without labels.
    pub fn new(subject: &str) -> (err: Self)
        ensures
            err@ == (ErrorView { subject: subject@, labels: Seq::empty() }),
    {
        let err = OlympusError { subject: String::from_str(subject), labels: Vec::new() };
        assert(err@.labels =~= Seq::empty());
        err
    }

    /// Adds a label that repeats the subject as its message.
    pub fn span(self, span: Range<usize>, color: ErrorColor) -> (err: Self)
        ensures
            err@ == self@.with_label(self@.subject, span, color),
    {
        let message = self.subject.clone();
        let mut labels = self.labels;
        labels.push(OlympusErrorLabel { message, span, color });
        let err = OlympusError { subject: self.subject, labels };
        assert(err@.labels =~= self@.with_label(self@.subject, span, color).labels);
        err
    }

    /// Adds a label with a message of its own.
    pub fn label(self, message: &str, span: Range<usize>, color: ErrorColor) -> (err: Self)
        ensures
            err@ == self@.with_label(message@, span, color),
    {
        let mut labels = self.labels;
        labels.push(OlympusErrorLabel { message: String::from_str(message), span, color });
        let err = OlympusError { subject: self.subject, labels };
        assert(err@.labels =~= self@.with_label(message@, span, color).labels);
        err
    }

    /// The smallest start offset among the labels, or `usize::MAX` without labels.
    pub fn lowest_start(&self) -> (low: usize)
        ensures
            forall|i: int| 0 <= i < self.labels.len() ==> low <= (#[trigger] self.labels[i]).span.start,
            self.labels.len() == 0 ==> low == usize::MAX,
            self.labels.len() > 0 ==> exists|i: int|
                0 <= i < self.labels.len() && low == (#[trigger] self.labels[i]).span.start,
    {
        let mut low: usize = usize::MAX;
        let mut i: usize = 0;
        while i < self.labels.len()
            invariant
                i <= self.labels.len(),
                forall|k: int| 0 <= k < i ==> low <= (#[trigger] self.labels[k]).span.start,
                i == 0 ==> low == usize::MAX,
                i > 0 ==> exists|k: int| 0 <= k < i && low == (#[trigger] self.labels[k]).span.start,
            decreases self.labels.len() - i,
        {
            if self.labels[i].span.start <= low {
                low = self.labels[i].span.start;
            }
            i += 1;
        }
        low
    }
}

/// A value together with the span of source text it was read from.
#[derive(Debug, PartialEq, Eq)]
pub struct Spanned<T> {
    pub value: T,
    pub span: Range<usize>,
}

impl<T> Spanned<T> {
    pub fn new(value: T, span: Range<usize>) -> (spanned: Self)
        ensures
            spanned.value == value,
            spanned.span == span,
    {
        Self { value, span }
    }
}

impl<T: DeepView> DeepView for Spanned<T> {
    type V = Spanned<T::V>;

    open spec fn deep_view(&self) -> Spanned<T::V> {
        Spanned { value: self.value.deep_view(), span: self.span }
    }
}

/// A copy of a span.
pub fn copy_span(span: &Range<usize>) -> (copy: Range<usize>)
    ensures
        copy == *span,
{
    span.start..span.end
}

/// A copy of a spanned string.
pub fn copy_spanned(ident: &Spanned<String>) -> (copy: Spanned<String>)
    ensures
        copy.deep_view() == ident.deep_view(),
{
    Spanned { value: ident.value.clone(), span: copy_span(&ident.span) }
}

} // verus!
