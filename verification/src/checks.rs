//! The semantic checks on a parsed file.
//!
//! - No two enums or structs have the same name.
//! - Inside an enum no two variants have the same name or the same tag.
//! - Inside a struct no two fields have the same name.
//! - No two procedures have the same name, and inside a procedure no two
//!   parameters have.
//! - Every type that is referred to by name is an enum or struct of the file.
//!
//! The checks run in this order, and the first one that fails gives the
//! diagnostic. For a name or tag that occurs more than once the diagnostic
//! labels its first occurrence in yellow and its last in red.

use crate::ast::{
    fields_within, file_within, procedures_within, span_within, variants_within, EnumView, FieldView, FileView, ParsedBultin, ParsedEnum, ParsedEnumVariant, ParsedProcedure,
    ParsedProcedureParam, ParsedStruct, ParsedStructField, ParsedTypeKind, ProcedureView,
    StructView, TypeView, VariantView,
};
use crate::fnv::{fingerprint, fnv};
use crate::parser::Parser;
use crate::spanned::{
    copy_span, copy_spanned, simple_error, ErrorColor, ErrorView, LabelView, OlympusError, Spanned,
};
use std::ops::Range;
use vstd::prelude::*;

verus! {

/// The greatest index in `i + 1 ..= j` at which the key at `i` occurs again.
pub open spec fn last_match<K>(keys: Seq<K>, i: int, j: int) -> Option<int>
    decreases j - i,
{
    if j <= i || j >= keys.len() {
        None
    } else if keys[j] == keys[i] {
        Some(j)
    } else {
        last_match(keys, i, j - 1)
    }
}

/// The first key from index `i` on that occurs again later, as the index of
/// that occurrence and the index of its last occurrence.
pub open spec fn find_duplicate<K>(keys: Seq<K>, i: int) -> Option<(int, int)>
    decreases keys.len() - i,
{
    if i < 0 || i >= keys.len() {
        None
    } else {
        match last_match(keys, i, keys.len() - 1) {
            Some(j) => Some((i, j)),
            None => find_duplicate(keys, i + 1),
        }
    }
}

/// True when no key occurs twice.
pub open spec fn distinct<K>(keys: Seq<K>) -> bool {
    forall|i: int, j: int| 0 <= i < j < keys.len() ==> keys[i] != keys[j]
}

/// What `last_match` finds: the last place up to `j` where the key at `i`
/// occurs again, or nothing where it occurs at none of them.
pub proof fn lemma_last_match<K>(keys: Seq<K>, i: int, j: int)
    requires
        0 <= i,
        j < keys.len(),
    ensures
        match last_match(keys, i, j) {
            Some(k) => i < k <= j && keys[k] == keys[i] && forall|m: int|
                k < m <= j ==> keys[m] != keys[i],
            None => forall|m: int| i < m <= j ==> keys[m] != keys[i],
        },
    decreases j - i,
{
    if j > i && keys[j] != keys[i] {
        lemma_last_match(keys, i, j - 1);
    }
}

/// What `find_duplicate` finds: nothing exactly where the keys are
/// distinct; else two places with the same key, of which the first is the
/// earliest place whose key occurs again and the second the last place of
/// that key.
pub proof fn lemma_find_duplicate<K>(keys: Seq<K>, i: int)
    requires
        0 <= i,
    ensures
        match find_duplicate(keys, i) {
            Some((a, b)) => {
                &&& i <= a < b < keys.len()
                &&& keys[a] == keys[b]
                &&& forall|m: int| b < m < keys.len() ==> keys[m] != keys[a]
                &&& forall|m: int, n: int| i <= m < a && m < n < keys.len() ==> keys[m] != keys[n]
            },
            None => forall|m: int, n: int| i <= m < n < keys.len() ==> keys[m] != keys[n],
        },
    decreases keys.len() - i,
{
    if i < keys.len() {
        lemma_last_match(keys, i, keys.len() - 1);
        if last_match(keys, i, keys.len() - 1) is None {
            lemma_find_duplicate(keys, i + 1);
        }
    }
}

/// The names of a sequence of identifiers.
pub open spec fn names(idents: Seq<Spanned<Seq<char>>>) -> Seq<Seq<char>> {
    idents.map_values(|ident: Spanned<Seq<char>>| ident.value)
}

pub open spec fn variant_idents(variants: Seq<VariantView>) -> Seq<Spanned<Seq<char>>> {
    variants.map_values(|variant: VariantView| variant.ident)
}

pub open spec fn variant_tags(variants: Seq<VariantView>) -> Seq<i16> {
    variants.map_values(|variant: VariantView| variant.value)
}

pub open spec fn field_idents(fields: Seq<FieldView>) -> Seq<Spanned<Seq<char>>> {
    fields.map_values(|field: FieldView| field.ident)
}

pub open spec fn enum_idents(enums: Seq<EnumView>) -> Seq<Spanned<Seq<char>>> {
    enums.map_values(|parsed: EnumView| parsed.ident)
}

pub open spec fn struct_idents(structs: Seq<StructView>) -> Seq<Spanned<Seq<char>>> {
    structs.map_values(|parsed: StructView| parsed.ident)
}

pub open spec fn procedure_idents(procedures: Seq<ProcedureView>) -> Seq<Spanned<Seq<char>>> {
    procedures.map_values(|procedure: ProcedureView| procedure.ident)
}

/// The identifiers of the types that a file declares: its enums, then its structs.
pub open spec fn declared(file: FileView) -> Seq<Spanned<Seq<char>>> {
    enum_idents(file.enums) + struct_idents(file.structs)
}

/// The diagnostic for something that occurs twice.
pub open spec fn duplicate_error(subject: Seq<char>, original: Range<usize>, duplicate: Range<usize>) -> ErrorView {
    ErrorView {
        subject,
        labels: seq![
            LabelView { message: "Original here"@, span: original, color: ErrorColor::Yellow },
            LabelView { message: "Duplicate here"@, span: duplicate, color: ErrorColor::Red },
        ],
    }
}

/// The diagnostic for identifiers of which two have the same name, if any have.
pub open spec fn duplicate_ident(idents: Seq<Spanned<Seq<char>>>, subject: Seq<char>) -> Option<
    ErrorView,
> {
    match find_duplicate(names(idents), 0) {
        Some((a, b)) => Some(duplicate_error(subject, idents[a].span, idents[b].span)),
        None => None,
    }
}

/// The diagnostic for the variants of one enum, if they break a rule.
pub open spec fn variants_violation(variants: Seq<VariantView>) -> Option<ErrorView> {
    match duplicate_ident(variant_idents(variants), "Duplicate variant ident found"@) {
        Some(e) => Some(e),
        None => match find_duplicate(variant_tags(variants), 0) {
            Some((a, b)) => Some(
                duplicate_error(
                    "Duplicate variant value found"@,
                    variants[a].ident.span,
                    variants[b].ident.span,
                ),
            ),
            None => None,
        },
    }
}

/// The diagnostic of the first enum from index `i` on whose variants break a rule.
pub open spec fn enums_violation(enums: Seq<EnumView>, i: int) -> Option<ErrorView>
    decreases enums.len() - i,
{
    if i < 0 || i >= enums.len() {
        None
    } else {
        match variants_violation(enums[i].variants) {
            Some(e) => Some(e),
            None => enums_violation(enums, i + 1),
        }
    }
}

/// The diagnostic of the first struct from index `i` on with two fields of one name.
pub open spec fn structs_violation(structs: Seq<StructView>, i: int) -> Option<ErrorView>
    decreases structs.len() - i,
{
    if i < 0 || i >= structs.len() {
        None
    } else {
        match duplicate_ident(field_idents(structs[i].fields), "Duplicate field ident found"@) {
            Some(e) => Some(e),
            None => structs_violation(structs, i + 1),
        }
    }
}

/// The diagnostic of the first procedure from index `i` on with two parameters of one name.
pub open spec fn params_violation(procedures: Seq<ProcedureView>, i: int) -> Option<ErrorView>
    decreases procedures.len() - i,
{
    if i < 0 || i >= procedures.len() {
        None
    } else {
        match duplicate_ident(
            field_idents(procedures[i].params),
            "Duplicate proc param ident found"@,
        ) {
            Some(e) => Some(e),
            None => params_violation(procedures, i + 1),
        }
    }
}

/// The name that a type refers to without the file declaring it, if there is one.
pub open spec fn unresolved(kind: TypeView, types: Seq<Seq<char>>) -> Option<Seq<char>>
    decreases kind,
{
    match kind {
        TypeView::External(name) => if types.contains(name) {
            None
        } else {
            Some(name)
        },
        TypeView::Array(inner) => unresolved(inner.value, types),
        TypeView::Option(inner) => unresolved(inner.value, types),
        _ => None,
    }
}

/// The diagnostic for a type that `ident` asks for, if the file does not declare it.
pub open spec fn type_violation(types: Seq<Seq<char>>, ident: Spanned<Seq<char>>, kind: TypeView) -> Option<
    ErrorView,
> {
    match unresolved(kind, types) {
        Some(name) => Some(simple_error("Type '"@ + name + "' not found"@, ident.span)),
        None => None,
    }
}

/// The diagnostic of the first field from index `i` on whose type is not declared.
pub open spec fn fields_types_violation(types: Seq<Seq<char>>, fields: Seq<FieldView>, i: int) -> Option<
    ErrorView,
>
    decreases fields.len() - i,
{
    if i < 0 || i >= fields.len() {
        None
    } else {
        match type_violation(types, fields[i].ident, fields[i].kind.value) {
            Some(e) => Some(e),
            None => fields_types_violation(types, fields, i + 1),
        }
    }
}

pub open spec fn structs_types_violation(types: Seq<Seq<char>>, structs: Seq<StructView>, i: int) -> Option<
    ErrorView,
>
    decreases structs.len() - i,
{
    if i < 0 || i >= structs.len() {
        None
    } else {
        match fields_types_violation(types, structs[i].fields, 0) {
            Some(e) => Some(e),
            None => structs_types_violation(types, structs, i + 1),
        }
    }
}

/// The diagnostic for the types of one procedure: its parameters, then what it returns.
pub open spec fn procedure_types_violation(types: Seq<Seq<char>>, procedure: ProcedureView) -> Option<
    ErrorView,
> {
    match fields_types_violation(types, procedure.params, 0) {
        Some(e) => Some(e),
        None => type_violation(types, procedure.ident, procedure.return_kind.value),
    }
}

pub open spec fn procedures_types_violation(
    types: Seq<Seq<char>>,
    procedures: Seq<ProcedureView>,
    i: int,
) -> Option<ErrorView>
    decreases procedures.len() - i,
{
    if i < 0 || i >= procedures.len() {
        None
    } else {
        match procedure_types_violation(types, procedures[i]) {
            Some(e) => Some(e),
            None => procedures_types_violation(types, procedures, i + 1),
        }
    }
}

/// The first of two diagnostics that is there.
pub open spec fn or_else(first: Option<ErrorView>, second: Option<ErrorView>) -> Option<ErrorView> {
    match first {
        Some(e) => Some(e),
        None => second,
    }
}

/// The diagnostic of the first check that a file fails, if it fails one.
pub open spec fn first_violation(file: FileView) -> Option<ErrorView> {
    let types = names(declared(file));
    or_else(
        duplicate_ident(declared(file), "Duplicate enum/struct ident found"@),
        or_else(
            enums_violation(file.enums, 0),
            or_else(
                structs_violation(file.structs, 0),
                or_else(
                    duplicate_ident(
                        procedure_idents(file.procedures),
                        "Duplicate proc ident found"@,
                    ),
                    or_else(
                        params_violation(file.procedures, 0),
                        or_else(
                            structs_types_violation(types, file.structs, 0),
                            procedures_types_violation(types, file.procedures, 0),
                        ),
                    ),
                ),
            ),
        ),
    )
}

/// True when every field's type is declared.
pub open spec fn fields_resolve(types: Seq<Seq<char>>, fields: Seq<FieldView>) -> bool {
    forall|i: int| 0 <= i < fields.len() ==> unresolved((#[trigger] fields[i]).kind.value, types) is None
}

/// The rules that a file has to keep.
pub open spec fn valid_file(file: FileView) -> bool {
    let types = names(declared(file));
    &&& distinct(types)
    &&& forall|i: int|
        0 <= i < file.enums.len() ==> distinct(
            names(variant_idents((#[trigger] file.enums[i]).variants)),
        ) && distinct(variant_tags(file.enums[i].variants))
    &&& forall|i: int|
        0 <= i < file.structs.len() ==> distinct(
            names(field_idents((#[trigger] file.structs[i]).fields)),
        )
    &&& distinct(names(procedure_idents(file.procedures)))
    &&& forall|i: int|
        0 <= i < file.procedures.len() ==> distinct(
            names(field_idents((#[trigger] file.procedures[i]).params)),
        )
    &&& forall|i: int|
        0 <= i < file.structs.len() ==> fields_resolve(types, (#[trigger] file.structs[i]).fields)
    &&& forall|i: int|
        0 <= i < file.procedures.len() ==> fields_resolve(
            types,
            (#[trigger] file.procedures[i]).params,
        ) && unresolved(file.procedures[i].return_kind.value, types) is None
}

proof fn lemma_duplicate_ident(idents: Seq<Spanned<Seq<char>>>, subject: Seq<char>)
    ensures
        duplicate_ident(idents, subject) is None <==> distinct(names(idents)),
{
    lemma_find_duplicate(names(idents), 0);
}

proof fn lemma_enums_violation(enums: Seq<EnumView>, i: int)
    requires
        0 <= i,
    ensures
        enums_violation(enums, i) is None <==> forall|k: int|
            i <= k < enums.len() ==> distinct(
                names(variant_idents((#[trigger] enums[k]).variants)),
            ) && distinct(variant_tags(enums[k].variants)),
    decreases enums.len() - i,
{
    if i < enums.len() {
        lemma_duplicate_ident(variant_idents(enums[i].variants), "Duplicate variant ident found"@);
        lemma_find_duplicate(variant_tags(enums[i].variants), 0);
        lemma_enums_violation(enums, i + 1);
    }
}

proof fn lemma_structs_violation(structs: Seq<StructView>, i: int)
    requires
        0 <= i,
    ensures
        structs_violation(structs, i) is None <==> forall|k: int|
            i <= k < structs.len() ==> distinct(
                names(field_idents((#[trigger] structs[k]).fields)),
            ),
    decreases structs.len() - i,
{
    if i < structs.len() {
        lemma_duplicate_ident(field_idents(structs[i].fields), "Duplicate field ident found"@);
        lemma_structs_violation(structs, i + 1);
    }
}

proof fn lemma_params_violation(procedures: Seq<ProcedureView>, i: int)
    requires
        0 <= i,
    ensures
        params_violation(procedures, i) is None <==> forall|k: int|
            i <= k < procedures.len() ==> distinct(
                names(field_idents((#[trigger] procedures[k]).params)),
            ),
    decreases procedures.len() - i,
{
    if i < procedures.len() {
        lemma_duplicate_ident(
            field_idents(procedures[i].params),
            "Duplicate proc param ident found"@,
        );
        lemma_params_violation(procedures, i + 1);
    }
}

proof fn lemma_fields_types(types: Seq<Seq<char>>, fields: Seq<FieldView>, i: int)
    requires
        0 <= i,
    ensures
        fields_types_violation(types, fields, i) is None <==> forall|k: int|
            i <= k < fields.len() ==> unresolved((#[trigger] fields[k]).kind.value, types) is None,
    decreases fields.len() - i,
{
    if i < fields.len() {
        lemma_fields_types(types, fields, i + 1);
    }
}

proof fn lemma_structs_types(types: Seq<Seq<char>>, structs: Seq<StructView>, i: int)
    requires
        0 <= i,
    ensures
        structs_types_violation(types, structs, i) is None <==> forall|k: int|
            i <= k < structs.len() ==> fields_resolve(types, (#[trigger] structs[k]).fields),
    decreases structs.len() - i,
{
    if i < structs.len() {
        lemma_fields_types(types, structs[i].fields, 0);
        lemma_structs_types(types, structs, i + 1);
    }
}

proof fn lemma_procedures_types(types: Seq<Seq<char>>, procedures: Seq<ProcedureView>, i: int)
    requires
        0 <= i,
    ensures
        procedures_types_violation(types, procedures, i) is None <==> forall|k: int|
            i <= k < procedures.len() ==> fields_resolve(types, (#[trigger] procedures[k]).params)
                && unresolved(procedures[k].return_kind.value, types) is None,
    decreases procedures.len() - i,
{
    if i < procedures.len() {
        lemma_fields_types(types, procedures[i].params, 0);
        lemma_procedures_types(types, procedures, i + 1);
    }
}

/// A file passes every check exactly when it keeps the rules.
pub proof fn lemma_valid_iff_no_violation(file: FileView)
    ensures
        first_violation(file) is None <==> valid_file(file),
{
    let types = names(declared(file));
    lemma_duplicate_ident(declared(file), "Duplicate enum/struct ident found"@);
    lemma_enums_violation(file.enums, 0);
    lemma_structs_violation(file.structs, 0);
    lemma_duplicate_ident(procedure_idents(file.procedures), "Duplicate proc ident found"@);
    lemma_params_violation(file.procedures, 0);
    lemma_structs_types(types, file.structs, 0);
    lemma_procedures_types(types, file.procedures, 0);
}

/// True when the span is that of an identifier whose name another of the
/// identifiers has too.
pub open spec fn repeated(idents: Seq<Spanned<Seq<char>>>, span: Range<usize>) -> bool {
    exists|a: int, b: int|
        #![trigger idents[a], idents[b]]
        0 <= a < idents.len() && 0 <= b < idents.len() && a != b && idents[a].value
            == idents[b].value && idents[a].span == span
}

/// True when the span is that of a variant whose tag another variant has too.
pub open spec fn repeated_tag(variants: Seq<VariantView>, span: Range<usize>) -> bool {
    exists|a: int, b: int|
        #![trigger variants[a], variants[b]]
        0 <= a < variants.len() && 0 <= b < variants.len() && a != b && variants[a].value
            == variants[b].value && variants[a].ident.span == span
}

/// True when the span is that of a field whose type is not declared.
pub open spec fn dangling(types: Seq<Seq<char>>, fields: Seq<FieldView>, span: Range<usize>) -> bool {
    exists|i: int|
        0 <= i < fields.len() && unresolved((#[trigger] fields[i]).kind.value, types) is Some
            && fields[i].ident.span == span
}

/// True when the span is that of an identifier that breaks a rule: one of
/// two declarations, variants, fields, procedures or parameters with the
/// same name, one of two variants with the same tag, or a field, parameter
/// or procedure that asks for a type that is not declared.
pub open spec fn culprit(file: FileView, span: Range<usize>) -> bool {
    let types = names(declared(file));
    ||| repeated(declared(file), span)
    ||| exists|i: int|
        0 <= i < file.enums.len() && (repeated(
            variant_idents((#[trigger] file.enums[i]).variants),
            span,
        ) || repeated_tag(file.enums[i].variants, span))
    ||| exists|i: int|
        0 <= i < file.structs.len() && (repeated(
            field_idents((#[trigger] file.structs[i]).fields),
            span,
        ) || dangling(types, file.structs[i].fields, span))
    ||| repeated(procedure_idents(file.procedures), span)
    ||| exists|i: int|
        0 <= i < file.procedures.len() && {
            ||| repeated(field_idents((#[trigger] file.procedures[i]).params), span)
            ||| dangling(types, file.procedures[i].params, span)
            ||| (unresolved(file.procedures[i].return_kind.value, types) is Some
                && file.procedures[i].ident.span == span)
        }
}

/// True when every label of the diagnostic has a span that `on` accepts,
/// and there is at least one label.
pub open spec fn labels_on(e: ErrorView, on: spec_fn(Range<usize>) -> bool) -> bool {
    e.labels.len() > 0 && forall|l: int| 0 <= l < e.labels.len() ==> on((#[trigger] e.labels[l]).span)
}

proof fn lemma_duplicate_labels(idents: Seq<Spanned<Seq<char>>>, subject: Seq<char>)
    ensures
        duplicate_ident(idents, subject) matches Some(e) ==> labels_on(
            e,
            |span: Range<usize>| repeated(idents, span),
        ),
{
    lemma_find_duplicate(names(idents), 0);
    if let Some((a, b)) = find_duplicate(names(idents), 0) {
        let e = duplicate_ident(idents, subject).unwrap();
        assert(idents[a].value == idents[b].value);
        assert(repeated(idents, idents[a].span)) by {
            let _ = (idents[a], idents[b]);
        }
        assert(repeated(idents, idents[b].span)) by {
            let _ = (idents[b], idents[a]);
        }
        assert(e.labels[0].span == idents[a].span);
        assert(e.labels[1].span == idents[b].span);
    }
}

proof fn lemma_variants_labels(variants: Seq<VariantView>)
    ensures
        variants_violation(variants) matches Some(e) ==> labels_on(
            e,
            |span: Range<usize>|
                repeated(variant_idents(variants), span) || repeated_tag(variants, span),
        ),
{
    lemma_duplicate_labels(variant_idents(variants), "Duplicate variant ident found"@);
    if duplicate_ident(variant_idents(variants), "Duplicate variant ident found"@) is None {
        lemma_find_duplicate(variant_tags(variants), 0);
        if let Some((a, b)) = find_duplicate(variant_tags(variants), 0) {
            let e = variants_violation(variants).unwrap();
            assert(variants[a].value == variants[b].value);
            assert(repeated_tag(variants, variants[a].ident.span)) by {
                let _ = (variants[a], variants[b]);
            }
            assert(repeated_tag(variants, variants[b].ident.span)) by {
                let _ = (variants[b], variants[a]);
            }
            assert(e.labels[0].span == variants[a].ident.span);
            assert(e.labels[1].span == variants[b].ident.span);
        }
    }
}

proof fn lemma_enums_labels(enums: Seq<EnumView>, i: int)
    requires
        0 <= i,
    ensures
        enums_violation(enums, i) matches Some(e) ==> exists|k: int|
            0 <= k < enums.len() && labels_on(
                e,
                |span: Range<usize>|
                    repeated(variant_idents((#[trigger] enums[k]).variants), span) || repeated_tag(
                        enums[k].variants,
                        span,
                    ),
            ),
    decreases enums.len() - i,
{
    if i < enums.len() {
        lemma_variants_labels(enums[i].variants);
        if variants_violation(enums[i].variants) is None {
            lemma_enums_labels(enums, i + 1);
        }
    }
}

proof fn lemma_structs_labels(structs: Seq<StructView>, i: int)
    requires
        0 <= i,
    ensures
        structs_violation(structs, i) matches Some(e) ==> exists|k: int|
            0 <= k < structs.len() && labels_on(
                e,
                |span: Range<usize>| repeated(field_idents((#[trigger] structs[k]).fields), span),
            ),
    decreases structs.len() - i,
{
    if i < structs.len() {
        lemma_duplicate_labels(field_idents(structs[i].fields), "Duplicate field ident found"@);
        if duplicate_ident(field_idents(structs[i].fields), "Duplicate field ident found"@) is None {
            lemma_structs_labels(structs, i + 1);
        }
    }
}

proof fn lemma_params_labels(procedures: Seq<ProcedureView>, i: int)
    requires
        0 <= i,
    ensures
        params_violation(procedures, i) matches Some(e) ==> exists|k: int|
            0 <= k < procedures.len() && labels_on(
                e,
                |span: Range<usize>|
                    repeated(field_idents((#[trigger] procedures[k]).params), span),
            ),
    decreases procedures.len() - i,
{
    if i < procedures.len() {
        lemma_duplicate_labels(
            field_idents(procedures[i].params),
            "Duplicate proc param ident found"@,
        );
        if duplicate_ident(field_idents(procedures[i].params), "Duplicate proc param ident found"@)
            is None {
            lemma_params_labels(procedures, i + 1);
        }
    }
}

proof fn lemma_fields_types_labels(types: Seq<Seq<char>>, fields: Seq<FieldView>, i: int)
    requires
        0 <= i,
    ensures
        fields_types_violation(types, fields, i) matches Some(e) ==> labels_on(
            e,
            |span: Range<usize>| dangling(types, fields, span),
        ),
    decreases fields.len() - i,
{
    if i < fields.len() {
        if type_violation(types, fields[i].ident, fields[i].kind.value) is None {
            lemma_fields_types_labels(types, fields, i + 1);
        } else {
            let e = fields_types_violation(types, fields, i).unwrap();
            assert(e.labels[0].span == fields[i].ident.span);
            assert(dangling(types, fields, fields[i].ident.span));
        }
    }
}

proof fn lemma_structs_types_labels(types: Seq<Seq<char>>, structs: Seq<StructView>, i: int)
    requires
        0 <= i,
    ensures
        structs_types_violation(types, structs, i) matches Some(e) ==> exists|k: int|
            0 <= k < structs.len() && labels_on(
                e,
                |span: Range<usize>| dangling(types, (#[trigger] structs[k]).fields, span),
            ),
    decreases structs.len() - i,
{
    if i < structs.len() {
        lemma_fields_types_labels(types, structs[i].fields, 0);
        if fields_types_violation(types, structs[i].fields, 0) is None {
            lemma_structs_types_labels(types, structs, i + 1);
        }
    }
}

proof fn lemma_procedures_types_labels(
    types: Seq<Seq<char>>,
    procedures: Seq<ProcedureView>,
    i: int,
)
    requires
        0 <= i,
    ensures
        procedures_types_violation(types, procedures, i) matches Some(e) ==> exists|k: int|
            0 <= k < procedures.len() && labels_on(
                e,
                |span: Range<usize>|
                    dangling(types, (#[trigger] procedures[k]).params, span) || (unresolved(
                        procedures[k].return_kind.value,
                        types,
                    ) is Some && procedures[k].ident.span == span),
            ),
    decreases procedures.len() - i,
{
    if i < procedures.len() {
        lemma_fields_types_labels(types, procedures[i].params, 0);
        if procedure_types_violation(types, procedures[i]) is None {
            lemma_procedures_types_labels(types, procedures, i + 1);
        } else if fields_types_violation(types, procedures[i].params, 0) is None {
            let e = procedures_types_violation(types, procedures, i).unwrap();
            assert(e.labels[0].span == procedures[i].ident.span);
        }
    }
}

/// A diagnostic points at what is wrong: it has a label, and each of its
/// labels lies on an identifier that breaks a rule.
pub proof fn lemma_violation_on_culprits(file: FileView)
    ensures
        first_violation(file) matches Some(e) ==> labels_on(
            e,
            |span: Range<usize>| culprit(file, span),
        ),
{
    let types = names(declared(file));
    lemma_duplicate_labels(declared(file), "Duplicate enum/struct ident found"@);
    lemma_enums_labels(file.enums, 0);
    lemma_structs_labels(file.structs, 0);
    lemma_duplicate_labels(procedure_idents(file.procedures), "Duplicate proc ident found"@);
    lemma_params_labels(file.procedures, 0);
    lemma_structs_types_labels(types, file.structs, 0);
    lemma_procedures_types_labels(types, file.procedures, 0);
}

/// A diagnostic of the checks lies inside the source, where the names of
/// the file do.
pub proof fn lemma_violation_within(file: FileView, len: int)
    requires
        file_within(file, len),
    ensures
        first_violation(file) matches Some(e) ==> e.within(len),
{
    lemma_violation_on_culprits(file);
    if let Some(e) = first_violation(file) {
        assert forall|l: int| 0 <= l < e.labels.len() implies (#[trigger] e.labels[l]).span.start
            <= e.labels[l].span.end && e.labels[l].span.end <= len by {
            lemma_culprit_within(file, e.labels[l].span, len);
        }
    }
}

proof fn lemma_repeated_within(idents: Seq<Spanned<Seq<char>>>, span: Range<usize>, len: int)
    requires
        repeated(idents, span),
        forall|i: int| 0 <= i < idents.len() ==> span_within(#[trigger] idents[i], len),
    ensures
        span.start <= span.end <= len,
{
    let (a, b) = choose|a: int, b: int|
        #![trigger idents[a], idents[b]]
        0 <= a < idents.len() && 0 <= b < idents.len() && a != b && idents[a].value
            == idents[b].value && idents[a].span == span;
    assert(span_within(idents[a], len));
}

proof fn lemma_dangling_within(
    types: Seq<Seq<char>>,
    fields: Seq<FieldView>,
    span: Range<usize>,
    len: int,
)
    requires
        dangling(types, fields, span),
        fields_within(fields, len),
    ensures
        span.start <= span.end <= len,
{
    let i = choose|i: int|
        0 <= i < fields.len() && unresolved((#[trigger] fields[i]).kind.value, types) is Some
            && fields[i].ident.span == span;
    assert(span_within(fields[i].ident, len));
}

proof fn lemma_culprit_within(file: FileView, span: Range<usize>, len: int)
    requires
        culprit(file, span),
        file_within(file, len),
    ensures
        span.start <= span.end <= len,
{
    let types = names(declared(file));
    if repeated(declared(file), span) {
        let idents = declared(file);
        assert forall|i: int| 0 <= i < idents.len() implies span_within(
            #[trigger] idents[i],
            len,
        ) by {
            if i < file.enums.len() {
                assert(idents[i] == file.enums[i].ident);
            } else {
                assert(idents[i] == file.structs[i - file.enums.len()].ident);
            }
        }
        lemma_repeated_within(idents, span, len);
    } else if exists|i: int|
        0 <= i < file.enums.len() && (repeated(
            variant_idents((#[trigger] file.enums[i]).variants),
            span,
        ) || repeated_tag(file.enums[i].variants, span)) {
        let i = choose|i: int|
            0 <= i < file.enums.len() && (repeated(
                variant_idents((#[trigger] file.enums[i]).variants),
                span,
            ) || repeated_tag(file.enums[i].variants, span));
        let variants = file.enums[i].variants;
        assert(variants_within(variants, len));
        if repeated(variant_idents(variants), span) {
            lemma_repeated_within(variant_idents(variants), span, len);
        } else {
            let (a, b) = choose|a: int, b: int|
                #![trigger variants[a], variants[b]]
                0 <= a < variants.len() && 0 <= b < variants.len() && a != b && variants[a].value
                    == variants[b].value && variants[a].ident.span == span;
            assert(span_within(variants[a].ident, len));
        }
    } else if exists|i: int|
        0 <= i < file.structs.len() && (repeated(
            field_idents((#[trigger] file.structs[i]).fields),
            span,
        ) || dangling(types, file.structs[i].fields, span)) {
        let i = choose|i: int|
            0 <= i < file.structs.len() && (repeated(
                field_idents((#[trigger] file.structs[i]).fields),
                span,
            ) || dangling(types, file.structs[i].fields, span));
        let fields = file.structs[i].fields;
        assert(fields_within(fields, len));
        if repeated(field_idents(fields), span) {
            lemma_repeated_within(field_idents(fields), span, len);
        } else {
            lemma_dangling_within(types, fields, span, len);
        }
    } else if repeated(procedure_idents(file.procedures), span) {
        let idents = procedure_idents(file.procedures);
        assert forall|i: int| 0 <= i < idents.len() implies span_within(
            #[trigger] idents[i],
            len,
        ) by {
            assert(idents[i] == file.procedures[i].ident);
        }
        lemma_repeated_within(idents, span, len);
    } else {
        let i = choose|i: int|
            0 <= i < file.procedures.len() && {
                ||| repeated(field_idents((#[trigger] file.procedures[i]).params), span)
                ||| dangling(types, file.procedures[i].params, span)
                ||| (unresolved(file.procedures[i].return_kind.value, types) is Some
                    && file.procedures[i].ident.span == span)
            };
        let procedure = file.procedures[i];
        assert(span_within(procedure.ident, len) && fields_within(procedure.params, len));
        if repeated(field_idents(procedure.params), span) {
            lemma_repeated_within(field_idents(procedure.params), span, len);
        } else if dangling(types, procedure.params, span) {
            lemma_dangling_within(types, procedure.params, span, len);
        }
    }
}

/// The first identifier whose name occurs again later, with the last
/// identifier of that name.
pub fn find_duplicate_ident(idents: &Vec<Spanned<String>>) -> (found: Option<
    (Spanned<String>, Spanned<String>),
>)
    ensures
        match find_duplicate(names(idents.deep_view()), 0) {
            Some((a, b)) => {
                &&& 0 <= a < b < idents.len()
                &&& found matches Some((original, duplicate))
                &&& original.deep_view() == idents.deep_view()[a]
                &&& duplicate.deep_view() == idents.deep_view()[b]
            },
            None => found is None,
        },
{
    let ghost keys = names(idents.deep_view());
    let mut i: usize = 0;
    while i < idents.len()
        invariant
            i <= idents.len(),
            keys == names(idents.deep_view()),
            keys.len() == idents.len(),
            find_duplicate(keys, 0) == find_duplicate(keys, i as int),
        decreases idents.len() - i,
    {
        let mut j: usize = idents.len() - 1;
        while j > i
            invariant
                i < idents.len(),
                i <= j < idents.len(),
                keys == names(idents.deep_view()),
                keys.len() == idents.len(),
                find_duplicate(keys, 0) == find_duplicate(keys, i as int),
                last_match(keys, i as int, keys.len() - 1) == last_match(keys, i as int, j as int),
            decreases j,
        {
            if idents[j].value == idents[i].value {
                return Some((copy_spanned(&idents[i]), copy_spanned(&idents[j])));
            }
            j -= 1;
        }
        i += 1;
    }
    None
}

/// The first tag that occurs again later, as the place of that occurrence
/// and the place of its last occurrence.
fn find_duplicate_tag(variants: &Vec<ParsedEnumVariant>) -> (found: Option<(usize, usize)>)
    ensures
        match find_duplicate(variant_tags(variants.deep_view()), 0) {
            Some((a, b)) => found == Some((a as usize, b as usize)) && 0 <= a < b
                < variants.len(),
            None => found is None,
        },
{
    let ghost keys = variant_tags(variants.deep_view());
    let mut i: usize = 0;
    while i < variants.len()
        invariant
            i <= variants.len(),
            keys == variant_tags(variants.deep_view()),
            keys.len() == variants.len(),
            find_duplicate(keys, 0) == find_duplicate(keys, i as int),
        decreases variants.len() - i,
    {
        let mut j: usize = variants.len() - 1;
        while j > i
            invariant
                i < variants.len(),
                i <= j < variants.len(),
                keys == variant_tags(variants.deep_view()),
                keys.len() == variants.len(),
                find_duplicate(keys, 0) == find_duplicate(keys, i as int),
                last_match(keys, i as int, keys.len() - 1) == last_match(keys, i as int, j as int),
            decreases j,
        {
            if variants[j].value == variants[i].value {
                return Some((i, j));
            }
            j -= 1;
        }
        i += 1;
    }
    None
}

/// The diagnostic for two places that hold the same thing.
fn duplicate_found(subject: &str, original: &Range<usize>, duplicate: &Range<usize>) -> (err: OlympusError)
    ensures
        err@ == duplicate_error(subject@, *original, *duplicate),
{
    let err = OlympusError::new(subject).label(
        "Original here",
        copy_span(original),
        ErrorColor::Yellow,
    ).label("Duplicate here", copy_span(duplicate), ErrorColor::Red);
    assert(err@.labels =~= duplicate_error(subject@, *original, *duplicate).labels);
    err
}

/// Fails where two of the identifiers have the same name.
fn check_idents(idents: &Vec<Spanned<String>>, subject: &str) -> (res: Result<(), OlympusError>)
    ensures
        match duplicate_ident(idents.deep_view(), subject@) {
            Some(e) => res matches Err(err) && err@ == e,
            None => res is Ok,
        },
{
    match find_duplicate_ident(idents) {
        Some((original, duplicate)) => Err(
            duplicate_found(subject, &original.span, &duplicate.span),
        ),
        None => Ok(()),
    }
}

fn idents_of_variants(variants: &Vec<ParsedEnumVariant>) -> (idents: Vec<Spanned<String>>)
    ensures
        idents.deep_view() == variant_idents(variants.deep_view()),
{
    let mut idents: Vec<Spanned<String>> = Vec::new();
    let mut i: usize = 0;
    while i < variants.len()
        invariant
            i <= variants.len(),
            idents.len() == i,
            forall|k: int| 0 <= k < i ==> (#[trigger] idents[k]).deep_view() == variants[k].ident.deep_view(),
        decreases variants.len() - i,
    {
        idents.push(copy_spanned(&variants[i].ident));
        i += 1;
    }
    assert(idents.deep_view() =~= variant_idents(variants.deep_view()));
    idents
}

fn idents_of_fields(fields: &Vec<ParsedStructField>) -> (idents: Vec<Spanned<String>>)
    ensures
        idents.deep_view() == field_idents(fields.deep_view()),
{
    let mut idents: Vec<Spanned<String>> = Vec::new();
    let mut i: usize = 0;
    while i < fields.len()
        invariant
            i <= fields.len(),
            idents.len() == i,
            forall|k: int| 0 <= k < i ==> (#[trigger] idents[k]).deep_view() == fields[k].ident.deep_view(),
        decreases fields.len() - i,
    {
        idents.push(copy_spanned(&fields[i].ident));
        i += 1;
    }
    assert(idents.deep_view() =~= field_idents(fields.deep_view()));
    idents
}

fn idents_of_params(params: &Vec<ParsedProcedureParam>) -> (idents: Vec<Spanned<String>>)
    ensures
        idents.deep_view() == field_idents(params.deep_view()),
{
    let mut idents: Vec<Spanned<String>> = Vec::new();
    let mut i: usize = 0;
    while i < params.len()
        invariant
            i <= params.len(),
            idents.len() == i,
            forall|k: int| 0 <= k < i ==> (#[trigger] idents[k]).deep_view() == params[k].ident.deep_view(),
        decreases params.len() - i,
    {
        idents.push(copy_spanned(&params[i].ident));
        i += 1;
    }
    assert(idents.deep_view() =~= field_idents(params.deep_view()));
    idents
}

fn idents_of_procedures(procedures: &Vec<ParsedProcedure>) -> (idents: Vec<Spanned<String>>)
    ensures
        idents.deep_view() == procedure_idents(procedures.deep_view()),
{
    let mut idents: Vec<Spanned<String>> = Vec::new();
    let mut i: usize = 0;
    while i < procedures.len()
        invariant
            i <= procedures.len(),
            idents.len() == i,
            forall|k: int| 0 <= k < i ==> (#[trigger] idents[k]).deep_view() == procedures[k].ident.deep_view(),
        decreases procedures.len() - i,
    {
        idents.push(copy_spanned(&procedures[i].ident));
        i += 1;
    }
    assert(idents.deep_view() =~= procedure_idents(procedures.deep_view()));
    idents
}

/// The identifiers of the enums, then those of the structs.
fn declared_idents(enums: &Vec<ParsedEnum>, structs: &Vec<ParsedStruct>) -> (idents: Vec<
    Spanned<String>,
>)
    ensures
        idents.deep_view() == enum_idents(enums.deep_view()) + struct_idents(structs.deep_view()),
{
    let mut idents: Vec<Spanned<String>> = Vec::new();
    let mut i: usize = 0;
    while i < enums.len()
        invariant
            i <= enums.len(),
            idents.len() == i,
            forall|k: int| 0 <= k < i ==> (#[trigger] idents[k]).deep_view() == enums[k].ident.deep_view(),
        decreases enums.len() - i,
    {
        idents.push(copy_spanned(&enums[i].ident));
        i += 1;
    }
    let mut j: usize = 0;
    while j < structs.len()
        invariant
            j <= structs.len(),
            idents.len() == enums.len() + j,
            forall|k: int|
                0 <= k < enums.len() ==> (#[trigger] idents[k]).deep_view() == enums[k].ident.deep_view(),
            forall|k: int|
                0 <= k < j ==> (#[trigger] idents[enums.len() + k]).deep_view()
                    == structs[k].ident.deep_view(),
        decreases structs.len() - j,
    {
        idents.push(copy_spanned(&structs[j].ident));
        j += 1;
    }
    proof {
        let left = enum_idents(enums.deep_view());
        let right = struct_idents(structs.deep_view());
        assert(left.len() == enums.len());
        assert(right.len() == structs.len());
        assert forall|k: int| 0 <= k < idents.len() implies idents.deep_view()[k] == (left
            + right)[k] by {
            if k >= enums.len() {
                assert(idents[enums.len() + (k - enums.len())].deep_view() == structs[k
                    - enums.len()].ident.deep_view());
            }
        }
        assert(idents.deep_view() =~= left + right);
    }
    idents
}

/// Fails where two variants have the same name or the same tag.
pub fn find_enum_variant_duplicates(variants: &Vec<ParsedEnumVariant>) -> (res: Result<
    (),
    OlympusError,
>)
    ensures
        match variants_violation(variants.deep_view()) {
            Some(e) => res matches Err(err) && err@ == e,
            None => res is Ok,
        },
{
    check_idents(&idents_of_variants(variants), "Duplicate variant ident found")?;
    match find_duplicate_tag(variants) {
        Some((a, b)) => Err(
            duplicate_found(
                "Duplicate variant value found",
                &variants[a].ident.span,
                &variants[b].ident.span,
            ),
        ),
        None => Ok(()),
    }
}

/// Fails where two fields have the same name.
pub fn find_struct_field_duplicates(fields: &Vec<ParsedStructField>) -> (res: Result<
    (),
    OlympusError,
>)
    ensures
        match duplicate_ident(field_idents(fields.deep_view()), "Duplicate field ident found"@) {
            Some(e) => res matches Err(err) && err@ == e,
            None => res is Ok,
        },
{
    check_idents(&idents_of_fields(fields), "Duplicate field ident found")
}

/// Fails where two procedures have the same name.
pub fn find_rpc_procedure_duplicates(procedures: &Vec<ParsedProcedure>) -> (res: Result<
    (),
    OlympusError,
>)
    ensures
        match duplicate_ident(
            procedure_idents(procedures.deep_view()),
            "Duplicate proc ident found"@,
        ) {
            Some(e) => res matches Err(err) && err@ == e,
            None => res is Ok,
        },
{
    check_idents(&idents_of_procedures(procedures), "Duplicate proc ident found")
}

/// Fails where two parameters have the same name.
pub fn find_rpc_procedure_param_duplicates(params: &Vec<ParsedProcedureParam>) -> (res: Result<
    (),
    OlympusError,
>)
    ensures
        match duplicate_ident(
            field_idents(params.deep_view()),
            "Duplicate proc param ident found"@,
        ) {
            Some(e) => res matches Err(err) && err@ == e,
            None => res is Ok,
        },
{
    check_idents(&idents_of_params(params), "Duplicate proc param ident found")
}

/// True when one of the identifiers has the given name.
fn is_declared(accessible_types: &Vec<Spanned<String>>, name: &String) -> (found: bool)
    ensures
        found == names(accessible_types.deep_view()).contains(name@),
{
    let ghost keys = names(accessible_types.deep_view());
    let mut i: usize = 0;
    while i < accessible_types.len()
        invariant
            i <= accessible_types.len(),
            keys == names(accessible_types.deep_view()),
            keys.len() == accessible_types.len(),
            forall|k: int| 0 <= k < i ==> keys[k] != name@,
        decreases accessible_types.len() - i,
    {
        if accessible_types[i].value == *name {
            assert(keys[i as int] == name@);
            return true;
        }
        i += 1;
    }
    false
}

/// A copy of the name that the type refers to without the file declaring it.
fn find_unresolved(accessible_types: &Vec<Spanned<String>>, asking_for: &ParsedTypeKind) -> (missing: Option<
    String,
>)
    ensures
        match unresolved(asking_for.deep_view(), names(accessible_types.deep_view())) {
            Some(name) => missing matches Some(found) && found@ == name,
            None => missing is None,
        },
    decreases asking_for,
{
    match asking_for {
        ParsedTypeKind::External(external) => {
            if is_declared(accessible_types, external) {
                None
            } else {
                Some(external.clone())
            }
        },
        ParsedTypeKind::Builtin(ParsedBultin::Array(inner)) => find_unresolved(
            accessible_types,
            &inner.value,
        ),
        ParsedTypeKind::Builtin(ParsedBultin::Option(inner)) => find_unresolved(
            accessible_types,
            &inner.value,
        ),
        ParsedTypeKind::Builtin(_) => None,
    }
}

/// Fails where the type that `ident` asks for refers to a name that the
/// file does not declare.
pub fn check_accessible_type(
    accessible_types: &Vec<Spanned<String>>,
    ident: &Spanned<String>,
    asking_for: &ParsedTypeKind,
) -> (res: Result<(), OlympusError>)
    ensures
        match type_violation(
            names(accessible_types.deep_view()),
            ident.deep_view(),
            asking_for.deep_view(),
        ) {
            Some(e) => res matches Err(err) && err@ == e,
            None => res is Ok,
        },
{
    match find_unresolved(accessible_types, asking_for) {
        Some(external) => {
            let mut message = String::from_str("Type '");
            message.append(external.as_str());
            message.append("' not found");
            Err(OlympusError::error(message.as_str(), copy_span(&ident.span)))
        },
        None => Ok(()),
    }
}

fn check_fields_types(accessible_types: &Vec<Spanned<String>>, fields: &Vec<ParsedStructField>) -> (res:
    Result<(), OlympusError>)
    ensures
        match fields_types_violation(
            names(accessible_types.deep_view()),
            fields.deep_view(),
            0,
        ) {
            Some(e) => res matches Err(err) && err@ == e,
            None => res is Ok,
        },
{
    let ghost types = names(accessible_types.deep_view());
    let ghost views = fields.deep_view();
    let mut i: usize = 0;
    while i < fields.len()
        invariant
            i <= fields.len(),
            types == names(accessible_types.deep_view()),
            views == fields.deep_view(),
            fields_types_violation(types, views, 0) == fields_types_violation(types, views, i as int),
        decreases fields.len() - i,
    {
        check_accessible_type(accessible_types, &fields[i].ident, &fields[i].kind.value)?;
        i += 1;
    }
    Ok(())
}

fn check_params_types(accessible_types: &Vec<Spanned<String>>, params: &Vec<ParsedProcedureParam>) -> (res:
    Result<(), OlympusError>)
    ensures
        match fields_types_violation(
            names(accessible_types.deep_view()),
            params.deep_view(),
            0,
        ) {
            Some(e) => res matches Err(err) && err@ == e,
            None => res is Ok,
        },
{
    let ghost types = names(accessible_types.deep_view());
    let ghost views = params.deep_view();
    let mut i: usize = 0;
    while i < params.len()
        invariant
            i <= params.len(),
            types == names(accessible_types.deep_view()),
            views == params.deep_view(),
            fields_types_violation(types, views, 0) == fields_types_violation(types, views, i as int),
        decreases params.len() - i,
    {
        check_accessible_type(accessible_types, &params[i].ident, &params[i].kind.value)?;
        i += 1;
    }
    Ok(())
}

/// Fails at the first enum whose variants break a rule.
fn check_enums(enums: &Vec<ParsedEnum>) -> (res: Result<(), OlympusError>)
    ensures
        match enums_violation(enums.deep_view(), 0) {
            Some(e) => res matches Err(err) && err@ == e,
            None => res is Ok,
        },
{
    let ghost views = enums.deep_view();
    let mut i: usize = 0;
    while i < enums.len()
        invariant
            i <= enums.len(),
            views == enums.deep_view(),
            enums_violation(views, 0) == enums_violation(views, i as int),
        decreases enums.len() - i,
    {
        find_enum_variant_duplicates(&enums[i].variants)?;
        i += 1;
    }
    Ok(())
}

/// Fails at the first struct with two fields of one name.
fn check_structs(structs: &Vec<ParsedStruct>) -> (res: Result<(), OlympusError>)
    ensures
        match structs_violation(structs.deep_view(), 0) {
            Some(e) => res matches Err(err) && err@ == e,
            None => res is Ok,
        },
{
    let ghost views = structs.deep_view();
    let mut i: usize = 0;
    while i < structs.len()
        invariant
            i <= structs.len(),
            views == structs.deep_view(),
            structs_violation(views, 0) == structs_violation(views, i as int),
        decreases structs.len() - i,
    {
        find_struct_field_duplicates(&structs[i].fields)?;
        i += 1;
    }
    Ok(())
}

/// Fails at the first procedure with two parameters of one name.
fn check_params(procedures: &Vec<ParsedProcedure>) -> (res: Result<(), OlympusError>)
    ensures
        match params_violation(procedures.deep_view(), 0) {
            Some(e) => res matches Err(err) && err@ == e,
            None => res is Ok,
        },
{
    let ghost views = procedures.deep_view();
    let mut i: usize = 0;
    while i < procedures.len()
        invariant
            i <= procedures.len(),
            views == procedures.deep_view(),
            params_violation(views, 0) == params_violation(views, i as int),
        decreases procedures.len() - i,
    {
        find_rpc_procedure_param_duplicates(&procedures[i].params)?;
        i += 1;
    }
    Ok(())
}

/// Fails at the first struct field whose type is not declared.
fn check_structs_types(accessible_types: &Vec<Spanned<String>>, structs: &Vec<ParsedStruct>) -> (res:
    Result<(), OlympusError>)
    ensures
        match structs_types_violation(
            names(accessible_types.deep_view()),
            structs.deep_view(),
            0,
        ) {
            Some(e) => res matches Err(err) && err@ == e,
            None => res is Ok,
        },
{
    let ghost types = names(accessible_types.deep_view());
    let ghost views = structs.deep_view();
    let mut i: usize = 0;
    while i < structs.len()
        invariant
            i <= structs.len(),
            types == names(accessible_types.deep_view()),
            views == structs.deep_view(),
            structs_types_violation(types, views, 0) == structs_types_violation(
                types,
                views,
                i as int,
            ),
        decreases structs.len() - i,
    {
        check_fields_types(accessible_types, &structs[i].fields)?;
        i += 1;
    }
    Ok(())
}

/// Fails at the first procedure with a parameter or a return type that is not declared.
fn check_procedures_types(
    accessible_types: &Vec<Spanned<String>>,
    procedures: &Vec<ParsedProcedure>,
) -> (res: Result<(), OlympusError>)
    ensures
        match procedures_types_violation(
            names(accessible_types.deep_view()),
            procedures.deep_view(),
            0,
        ) {
            Some(e) => res matches Err(err) && err@ == e,
            None => res is Ok,
        },
{
    let ghost types = names(accessible_types.deep_view());
    let ghost views = procedures.deep_view();
    let mut i: usize = 0;
    while i < procedures.len()
        invariant
            i <= procedures.len(),
            types == names(accessible_types.deep_view()),
            views == procedures.deep_view(),
            procedures_types_violation(types, views, 0) == procedures_types_violation(
                types,
                views,
                i as int,
            ),
        decreases procedures.len() - i,
    {
        check_params_types(accessible_types, &procedures[i].params)?;
        check_accessible_type(
            accessible_types,
            &procedures[i].ident,
            &procedures[i].return_kind.value,
        )?;
        i += 1;
    }
    Ok(())
}

/// The fingerprints of the procedures' names, in order.
pub open spec fn procedure_fingerprints(procedures: Seq<ProcedureView>) -> Seq<u64> {
    procedures.map_values(|procedure: ProcedureView| fingerprint(procedure.ident.value))
}

/// The diagnostic for procedures of which two have names with the same
/// fingerprint, if any have.
pub open spec fn fingerprint_collision(procedures: Seq<ProcedureView>) -> Option<ErrorView> {
    match find_duplicate(procedure_fingerprints(procedures), 0) {
        Some((a, b)) => Some(
            duplicate_error(
                "Procedure names with the same hash found"@,
                procedures[a].ident.span,
                procedures[b].ident.span,
            ),
        ),
        None => None,
    }
}

/// Fails where the names of two procedures have the same fingerprint, so
/// that frames for the one would reach the handler of the other. In a file
/// that passes the checks no two procedures have the same name, so this is
/// a collision of the hash.
pub fn find_fingerprint_collisions(procedures: &Vec<ParsedProcedure>) -> (res: Result<
    (),
    OlympusError,
>)
    ensures
        match fingerprint_collision(procedures.deep_view()) {
            Some(e) => res matches Err(err) && err@ == e,
            None => res is Ok,
        },
        res is Ok <==> distinct(procedure_fingerprints(procedures.deep_view())),
{
    let ghost keys = procedure_fingerprints(procedures.deep_view());
    proof {
        lemma_find_duplicate(keys, 0);
    }
    let mut hashes: Vec<u64> = Vec::new();
    let mut k: usize = 0;
    while k < procedures.len()
        invariant
            k <= procedures.len(),
            keys == procedure_fingerprints(procedures.deep_view()),
            hashes.len() == k,
            forall|m: int| 0 <= m < k ==> (#[trigger] hashes[m]) == keys[m],
        decreases procedures.len() - k,
    {
        hashes.push(fnv(procedures[k].ident.value.as_str()));
        k += 1;
    }
    assert(hashes@ =~= keys);
    let mut i: usize = 0;
    while i < hashes.len()
        invariant
            i <= hashes.len(),
            hashes@ == keys,
            keys == procedure_fingerprints(procedures.deep_view()),
            keys.len() == procedures.len(),
            find_duplicate(keys, 0) == find_duplicate(keys, i as int),
        decreases hashes.len() - i,
    {
        let mut j: usize = hashes.len() - 1;
        while j > i
            invariant
                i < hashes.len(),
                i <= j < hashes.len(),
                hashes@ == keys,
                keys == procedure_fingerprints(procedures.deep_view()),
                keys.len() == procedures.len(),
                find_duplicate(keys, 0) == find_duplicate(keys, i as int),
                last_match(keys, i as int, keys.len() - 1) == last_match(keys, i as int, j as int),
            decreases j,
        {
            if hashes[j] == hashes[i] {
                return Err(
                    duplicate_found(
                        "Procedure names with the same hash found",
                        &procedures[i].ident.span,
                        &procedures[j].ident.span,
                    ),
                );
            }
            j -= 1;
        }
        i += 1;
    }
    Ok(())
}

/// Runs every check on what the parser has read.
pub fn verify_parser_outputs(parser: &Parser) -> (res: Result<(), OlympusError>)
    ensures
        match first_violation(parser.file()) {
            Some(e) => res matches Err(err) && err@ == e,
            None => res is Ok,
        },
        res is Ok <==> valid_file(parser.file()),
{
    proof {
        lemma_valid_iff_no_violation(parser.file());
    }
    let accessible_types = declared_idents(&parser.enums, &parser.structs);
    check_idents(&accessible_types, "Duplicate enum/struct ident found")?;
    check_enums(&parser.enums)?;
    check_structs(&parser.structs)?;
    find_rpc_procedure_duplicates(&parser.rpc_container.procedures)?;
    check_params(&parser.rpc_container.procedures)?;
    check_structs_types(&accessible_types, &parser.structs)?;
    check_procedures_types(&accessible_types, &parser.rpc_container.procedures)?;
    Ok(())
}

} // verus!
