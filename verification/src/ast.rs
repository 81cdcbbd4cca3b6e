//! The syntax tree of an interface definition.

use crate::spanned::Spanned;
use crate::token::IntToken;
use vstd::prelude::*;

verus! {

#[derive(Debug, PartialEq, Eq)]
pub struct ParsedEnumVariant {
    pub ident: Spanned<String>,
    pub value: i16,
}

#[derive(Debug, PartialEq, Eq)]
pub struct ParsedEnum {
    pub ident: Spanned<String>,
    pub variants: Vec<ParsedEnumVariant>,
}

#[derive(Debug, PartialEq, Eq)]
pub enum ParsedBultin {
    Nothing,
    Int(IntToken),
    VariableInt(IntToken),
    String,
    Array(Box<Spanned<ParsedTypeKind>>),
    Option(Box<Spanned<ParsedTypeKind>>),
}

#[derive(Debug, PartialEq, Eq)]
pub enum ParsedTypeKind {
    Builtin(ParsedBultin),
    External(String),
}

#[derive(Debug, PartialEq, Eq)]
pub struct ParsedStructField {
    pub ident: Spanned<String>,
    pub kind: Spanned<ParsedTypeKind>,
}

#[derive(Debug, PartialEq, Eq)]
pub struct ParsedStruct {
    pub ident: Spanned<String>,
    pub fields: Vec<ParsedStructField>,
}

#[derive(Debug, PartialEq, Eq)]
pub struct ParsedProcedureParam {
    pub ident: Spanned<String>,
    pub kind: Spanned<ParsedTypeKind>,
}

#[derive(Debug, PartialEq, Eq)]
pub struct ParsedProcedure {
    pub ident: Spanned<String>,
    pub params: Vec<ParsedProcedureParam>,
    pub return_kind: Spanned<ParsedTypeKind>,
}

#[derive(Debug, PartialEq, Eq)]
pub struct ParsedRpcContainer {
    pub procedures: Vec<ParsedProcedure>,
}

/// A reference to a type, as plain values.
pub enum TypeView {
    Nothing,
    Int(IntToken),
    VariableInt(IntToken),
    String,
    Array(Box<Spanned<TypeView>>),
    Option(Box<Spanned<TypeView>>),
    External(Seq<char>),
}

/// An enum variant as plain values.
pub struct VariantView {
    pub ident: Spanned<Seq<char>>,
    pub value: i16,
}

/// An enum declaration as plain values.
pub struct EnumView {
    pub ident: Spanned<Seq<char>>,
    pub variants: Seq<VariantView>,
}

/// A struct field or a procedure parameter as plain values.
pub struct FieldView {
    pub ident: Spanned<Seq<char>>,
    pub kind: Spanned<TypeView>,
}

/// A struct declaration as plain values.
pub struct StructView {
    pub ident: Spanned<Seq<char>>,
    pub fields: Seq<FieldView>,
}

/// A procedure declaration as plain values.
pub struct ProcedureView {
    pub ident: Spanned<Seq<char>>,
    pub params: Seq<FieldView>,
    pub return_kind: Spanned<TypeView>,
}

/// Everything that one source file declares, as plain values. The
/// procedures of all `rpc` blocks stand in one sequence, in source order.
pub struct FileView {
    pub imports: Seq<Spanned<Seq<char>>>,
    pub enums: Seq<EnumView>,
    pub structs: Seq<StructView>,
    pub procedures: Seq<ProcedureView>,
}

/// True when the span is well formed and lies inside the first `len` bytes.
pub open spec fn span_within(ident: Spanned<Seq<char>>, len: int) -> bool {
    ident.span.start <= ident.span.end <= len
}

/// True when every one of the identifiers lies inside the first `len` bytes.
pub open spec fn fields_within(fields: Seq<FieldView>, len: int) -> bool {
    forall|i: int| 0 <= i < fields.len() ==> span_within((#[trigger] fields[i]).ident, len)
}

/// True when every variant's name lies inside the first `len` bytes.
pub open spec fn variants_within(variants: Seq<VariantView>, len: int) -> bool {
    forall|i: int| 0 <= i < variants.len() ==> span_within((#[trigger] variants[i]).ident, len)
}

/// True when every procedure's name lies inside the first `len` bytes, and
/// every name of a parameter.
pub open spec fn procedures_within(procedures: Seq<ProcedureView>, len: int) -> bool {
    forall|i: int|
        0 <= i < procedures.len() ==> span_within((#[trigger] procedures[i]).ident, len)
            && fields_within(procedures[i].params, len)
}

/// True when every name that a file declares lies inside the first `len`
/// bytes of the source.
pub open spec fn file_within(file: FileView, len: int) -> bool {
    &&& forall|i: int|
        0 <= i < file.enums.len() ==> span_within((#[trigger] file.enums[i]).ident, len)
            && variants_within(file.enums[i].variants, len)
    &&& forall|i: int|
        0 <= i < file.structs.len() ==> span_within((#[trigger] file.structs[i]).ident, len)
            && fields_within(file.structs[i].fields, len)
    &&& procedures_within(file.procedures, len)
}

/// The plain value of a type reference.
pub open spec fn type_view(kind: ParsedTypeKind) -> TypeView
    decreases kind,
{
    match kind {
        ParsedTypeKind::Builtin(ParsedBultin::Nothing) => TypeView::Nothing,
        ParsedTypeKind::Builtin(ParsedBultin::Int(width)) => TypeView::Int(width),
        ParsedTypeKind::Builtin(ParsedBultin::VariableInt(width)) => TypeView::VariableInt(width),
        ParsedTypeKind::Builtin(ParsedBultin::String) => TypeView::String,
        ParsedTypeKind::Builtin(ParsedBultin::Array(inner)) => TypeView::Array(
            Box::new(Spanned { value: type_view(inner.value), span: inner.span }),
        ),
        ParsedTypeKind::Builtin(ParsedBultin::Option(inner)) => TypeView::Option(
            Box::new(Spanned { value: type_view(inner.value), span: inner.span }),
        ),
        ParsedTypeKind::External(name) => TypeView::External(name@),
    }
}

impl DeepView for ParsedTypeKind {
    type V = TypeView;

    open spec fn deep_view(&self) -> TypeView {
        type_view(*self)
    }
}

impl DeepView for ParsedEnumVariant {
    type V = VariantView;

    open spec fn deep_view(&self) -> VariantView {
        VariantView { ident: self.ident.deep_view(), value: self.value }
    }
}

impl DeepView for ParsedEnum {
    type V = EnumView;

    open spec fn deep_view(&self) -> EnumView {
        EnumView { ident: self.ident.deep_view(), variants: self.variants.deep_view() }
    }
}

impl DeepView for ParsedStructField {
    type V = FieldView;

    open spec fn deep_view(&self) -> FieldView {
        FieldView { ident: self.ident.deep_view(), kind: self.kind.deep_view() }
    }
}

impl DeepView for ParsedStruct {
    type V = StructView;

    open spec fn deep_view(&self) -> StructView {
        StructView { ident: self.ident.deep_view(), fields: self.fields.deep_view() }
    }
}

impl DeepView for ParsedProcedureParam {
    type V = FieldView;

    open spec fn deep_view(&self) -> FieldView {
        FieldView { ident: self.ident.deep_view(), kind: self.kind.deep_view() }
    }
}

impl DeepView for ParsedProcedure {
    type V = ProcedureView;

    open spec fn deep_view(&self) -> ProcedureView {
        ProcedureView {
            ident: self.ident.deep_view(),
            params: self.params.deep_view(),
            return_kind: self.return_kind.deep_view(),
        }
    }
}

} // verus!
