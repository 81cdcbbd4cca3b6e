//! The tokens of the interface-definition language.

use crate::spanned::Spanned;
use crate::text::{int_text, render_int};
use vstd::prelude::*;

verus! {

/// Brackets and punctuation.
#[derive(Debug, Clone, Copy, PartialEq, Eq, Structural)]
pub enum AsciiToken {
    OpenBrace,
    CloseBrace,
    OpenParen,
    CloseParen,
    OpenBracket,
    CloseBracket,
    Comma,
    SemiColon,
}

/// Reserved identifiers.
#[derive(Debug, Clone, Copy, PartialEq, Eq, Structural)]
pub enum KeywordToken {
    Enum,
    Struct,
    Rpc,
    Proc,
    Import,
}

/// Width and signedness of an integer type.
#[derive(Debug, Clone, Copy, PartialEq, Eq, Structural)]
pub enum IntToken {
    Int8,
    Int16,
    Int32,
    Int64,
    UInt8,
    UInt16,
    UInt32,
    UInt64,
}

/// A built-in type name, written with a leading `@`.
#[derive(Debug, Clone, Copy, PartialEq, Eq, Structural)]
pub enum TypeToken {
    Int(IntToken),
    VariableInt(IntToken),
    String,
    Array,
    Option,
}

#[derive(Debug, Clone, PartialEq, Eq)]
pub enum Token {
    Comment(String),
    Ident(String),
    Arrow,
    Keyword(KeywordToken),
    Type(TypeToken),
    Ascii(AsciiToken),
    /// Only used for enum tags.
    Number(i16),
}

impl From<AsciiToken> for Token {
    fn from(val: AsciiToken) -> (token: Token) {
        Token::Ascii(val)
    }
}

impl vstd::std_specs::convert::FromSpecImpl<AsciiToken> for Token {
    open spec fn obeys_from_spec() -> bool {
        true
    }

    open spec fn from_spec(val: AsciiToken) -> Token {
        Token::Ascii(val)
    }
}

impl From<KeywordToken> for Token {
    fn from(val: KeywordToken) -> (token: Token) {
        Token::Keyword(val)
    }
}

impl vstd::std_specs::convert::FromSpecImpl<KeywordToken> for Token {
    open spec fn obeys_from_spec() -> bool {
        true
    }

    open spec fn from_spec(val: KeywordToken) -> Token {
        Token::Keyword(val)
    }
}

impl From<IntToken> for Token {
    fn from(val: IntToken) -> (token: Token) {
        Token::Type(TypeToken::Int(val))
    }
}

impl vstd::std_specs::convert::FromSpecImpl<IntToken> for Token {
    open spec fn obeys_from_spec() -> bool {
        true
    }

    open spec fn from_spec(val: IntToken) -> Token {
        Token::Type(TypeToken::Int(val))
    }
}

impl From<TypeToken> for Token {
    fn from(val: TypeToken) -> (token: Token) {
        Token::Type(val)
    }
}

impl vstd::std_specs::convert::FromSpecImpl<TypeToken> for Token {
    open spec fn obeys_from_spec() -> bool {
        true
    }

    open spec fn from_spec(val: TypeToken) -> Token {
        Token::Type(val)
    }
}

pub type SpannedToken = Spanned<Token>;

/// A token as plain values.
pub enum TokenView {
    Comment(Seq<char>),
    Ident(Seq<char>),
    Arrow,
    Keyword(KeywordToken),
    Type(TypeToken),
    Ascii(AsciiToken),
    Number(i16),
}

impl DeepView for Token {
    type V = TokenView;

    open spec fn deep_view(&self) -> TokenView {
        match self {
            Token::Comment(text) => TokenView::Comment(text@),
            Token::Ident(name) => TokenView::Ident(name@),
            Token::Arrow => TokenView::Arrow,
            Token::Keyword(keyword) => TokenView::Keyword(*keyword),
            Token::Type(ty) => TokenView::Type(*ty),
            Token::Ascii(ascii) => TokenView::Ascii(*ascii),
            Token::Number(number) => TokenView::Number(*number),
        }
    }
}

impl Token {
    /// A copy of the token.
    pub fn duplicate(&self) -> (copy: Token)
        ensures
            copy.deep_view() == self.deep_view(),
    {
        match self {
            Token::Comment(text) => Token::Comment(text.clone()),
            Token::Ident(name) => Token::Ident(name.clone()),
            Token::Arrow => Token::Arrow,
            Token::Keyword(keyword) => Token::Keyword(*keyword),
            Token::Type(ty) => Token::Type(*ty),
            Token::Ascii(ascii) => Token::Ascii(*ascii),
            Token::Number(number) => Token::Number(*number),
        }
    }
}

/// The name of an integer type in diagnostics.
pub open spec fn int_name(width: IntToken) -> Seq<char> {
    match width {
        IntToken::Int8 => "Int8"@,
        IntToken::Int16 => "Int16"@,
        IntToken::Int32 => "Int32"@,
        IntToken::Int64 => "Int64"@,
        IntToken::UInt8 => "UInt8"@,
        IntToken::UInt16 => "UInt16"@,
        IntToken::UInt32 => "UInt32"@,
        IntToken::UInt64 => "UInt64"@,
    }
}

/// The name of a keyword in diagnostics.
pub open spec fn keyword_name(kw: KeywordToken) -> Seq<char> {
    match kw {
        KeywordToken::Enum => "Enum"@,
        KeywordToken::Struct => "Struct"@,
        KeywordToken::Rpc => "Rpc"@,
        KeywordToken::Proc => "Proc"@,
        KeywordToken::Import => "Import"@,
    }
}

/// The name of a punctuation token in diagnostics.
pub open spec fn ascii_name(ascii: AsciiToken) -> Seq<char> {
    match ascii {
        AsciiToken::OpenBrace => "OpenBrace"@,
        AsciiToken::CloseBrace => "CloseBrace"@,
        AsciiToken::OpenParen => "OpenParen"@,
        AsciiToken::CloseParen => "CloseParen"@,
        AsciiToken::OpenBracket => "OpenBracket"@,
        AsciiToken::CloseBracket => "CloseBracket"@,
        AsciiToken::Comma => "Comma"@,
        AsciiToken::SemiColon => "SemiColon"@,
    }
}

/// How a token is shown in diagnostics: the name of its variant, with what
/// it holds in round brackets; text stands between double quotes, unescaped.
pub open spec fn describe(token: TokenView) -> Seq<char> {
    match token {
        TokenView::Comment(text) => "Comment(\""@ + text + "\")"@,
        TokenView::Ident(name) => "Ident(\""@ + name + "\")"@,
        TokenView::Arrow => "Arrow"@,
        TokenView::Keyword(kw) => "Keyword("@ + keyword_name(kw) + ")"@,
        TokenView::Type(TypeToken::Int(width)) => "Type(Int("@ + int_name(width) + "))"@,
        TokenView::Type(TypeToken::VariableInt(width)) => "Type(VariableInt("@ + int_name(width)
            + "))"@,
        TokenView::Type(TypeToken::String) => "Type(String)"@,
        TokenView::Type(TypeToken::Array) => "Type(Array)"@,
        TokenView::Type(TypeToken::Option) => "Type(Option)"@,
        TokenView::Ascii(ascii) => "Ascii("@ + ascii_name(ascii) + ")"@,
        TokenView::Number(number) => "Number("@ + int_text(number as int) + ")"@,
    }
}

fn int_str(width: IntToken) -> (name: &'static str)
    ensures
        name@ == int_name(width),
{
    match width {
        IntToken::Int8 => "Int8",
        IntToken::Int16 => "Int16",
        IntToken::Int32 => "Int32",
        IntToken::Int64 => "Int64",
        IntToken::UInt8 => "UInt8",
        IntToken::UInt16 => "UInt16",
        IntToken::UInt32 => "UInt32",
        IntToken::UInt64 => "UInt64",
    }
}

fn keyword_str(kw: KeywordToken) -> (name: &'static str)
    ensures
        name@ == keyword_name(kw),
{
    match kw {
        KeywordToken::Enum => "Enum",
        KeywordToken::Struct => "Struct",
        KeywordToken::Rpc => "Rpc",
        KeywordToken::Proc => "Proc",
        KeywordToken::Import => "Import",
    }
}

fn ascii_str(ascii: AsciiToken) -> (name: &'static str)
    ensures
        name@ == ascii_name(ascii),
{
    match ascii {
        AsciiToken::OpenBrace => "OpenBrace",
        AsciiToken::CloseBrace => "CloseBrace",
        AsciiToken::OpenParen => "OpenParen",
        AsciiToken::CloseParen => "CloseParen",
        AsciiToken::OpenBracket => "OpenBracket",
        AsciiToken::CloseBracket => "CloseBracket",
        AsciiToken::Comma => "Comma",
        AsciiToken::SemiColon => "SemiColon",
    }
}

/// `open`, then `inner`, then `close`.
fn wrapped(open: &str, inner: &str, close: &str) -> (text: String)
    ensures
        text@ == open@ + inner@ + close@,
{
    let mut text = String::from_str(open);
    text.append(inner);
    text.append(close);
    text
}

impl Token {
    /// The token as it is shown in diagnostics.
    pub fn describe(&self) -> (text: String)
        ensures
            text@ == describe(self.deep_view()),
    {
        match self {
            Token::Comment(text) => wrapped("Comment(\"", text.as_str(), "\")"),
            Token::Ident(name) => wrapped("Ident(\"", name.as_str(), "\")"),
            Token::Arrow => String::from_str("Arrow"),
            Token::Keyword(kw) => wrapped("Keyword(", keyword_str(*kw), ")"),
            Token::Type(TypeToken::Int(width)) => wrapped("Type(Int(", int_str(*width), "))"),
            Token::Type(TypeToken::VariableInt(width)) => wrapped(
                "Type(VariableInt(",
                int_str(*width),
                "))",
            ),
            Token::Type(TypeToken::String) => String::from_str("Type(String)"),
            Token::Type(TypeToken::Array) => String::from_str("Type(Array)"),
            Token::Type(TypeToken::Option) => String::from_str("Type(Option)"),
            Token::Ascii(ascii) => wrapped("Ascii(", ascii_str(*ascii), ")"),
            Token::Number(number) => wrapped(
                "Number(",
                render_int(*number as i32).as_str(),
                ")",
            ),
        }
    }
}

/// The built-in type that a name after `@` stands for, if any.
pub open spec fn builtin_type(name: Seq<char>) -> Option<TypeToken> {
    if name == "int8"@ {
        Some(TypeToken::Int(IntToken::Int8))
    } else if name == "uint8"@ {
        Some(TypeToken::Int(IntToken::UInt8))
    } else if name == "int16"@ {
        Some(TypeToken::Int(IntToken::Int16))
    } else if name == "uint16"@ {
        Some(TypeToken::Int(IntToken::UInt16))
    } else if name == "int32"@ {
        Some(TypeToken::Int(IntToken::Int32))
    } else if name == "uint32"@ {
        Some(TypeToken::Int(IntToken::UInt32))
    } else if name == "int64"@ {
        Some(TypeToken::Int(IntToken::Int64))
    } else if name == "uint64"@ {
        Some(TypeToken::Int(IntToken::UInt64))
    } else if name == "varint8"@ {
        Some(TypeToken::VariableInt(IntToken::Int8))
    } else if name == "varuint8"@ {
        Some(TypeToken::VariableInt(IntToken::UInt8))
    } else if name == "varint16"@ {
        Some(TypeToken::VariableInt(IntToken::Int16))
    } else if name == "varuint16"@ {
        Some(TypeToken::VariableInt(IntToken::UInt16))
    } else if name == "varint32"@ {
        Some(TypeToken::VariableInt(IntToken::Int32))
    } else if name == "varuint32"@ {
        Some(TypeToken::VariableInt(IntToken::UInt32))
    } else if name == "varint64"@ {
        Some(TypeToken::VariableInt(IntToken::Int64))
    } else if name == "varuint64"@ {
        Some(TypeToken::VariableInt(IntToken::UInt64))
    } else if name == "string"@ {
        Some(TypeToken::String)
    } else if name == "array"@ {
        Some(TypeToken::Array)
    } else if name == "option"@ {
        Some(TypeToken::Option)
    } else {
        None
    }
}

/// The keyword that an identifier is reserved for, if any.
pub open spec fn keyword(name: Seq<char>) -> Option<KeywordToken> {
    if name == "struct"@ {
        Some(KeywordToken::Struct)
    } else if name == "rpc"@ {
        Some(KeywordToken::Rpc)
    } else if name == "proc"@ {
        Some(KeywordToken::Proc)
    } else if name == "enum"@ {
        Some(KeywordToken::Enum)
    } else if name == "import"@ {
        Some(KeywordToken::Import)
    } else {
        None
    }
}

/// True when the two strings hold the same characters.
pub fn same_text(a: &str, b: &str) -> (same: bool)
    ensures
        same == (a@ == b@),
{
    let n = a.unicode_len();
    if n != b.unicode_len() {
        return false;
    }
    let mut i: usize = 0;
    while i < n
        invariant
            i <= n,
            n == a@.len(),
            n == b@.len(),
            forall|k: int| 0 <= k < i ==> a@[k] == b@[k],
        decreases n - i,
    {
        if a.get_char(i) != b.get_char(i) {
            return false;
        }
        i += 1;
    }
    assert(a@ =~= b@);
    true
}

/// Looks up the built-in type named by `name`.
pub fn lookup_builtin(name: &str) -> (ty: Option<TypeToken>)
    ensures
        ty == builtin_type(name@),
{
    if same_text(name, "int8") {
        Some(TypeToken::Int(IntToken::Int8))
    } else if same_text(name, "uint8") {
        Some(TypeToken::Int(IntToken::UInt8))
    } else if same_text(name, "int16") {
        Some(TypeToken::Int(IntToken::Int16))
    } else if same_text(name, "uint16") {
        Some(TypeToken::Int(IntToken::UInt16))
    } else if same_text(name, "int32") {
        Some(TypeToken::Int(IntToken::Int32))
    } else if same_text(name, "uint32") {
        Some(TypeToken::Int(IntToken::UInt32))
    } else if same_text(name, "int64") {
        Some(TypeToken::Int(IntToken::Int64))
    } else if same_text(name, "uint64") {
        Some(TypeToken::Int(IntToken::UInt64))
    } else if same_text(name, "varint8") {
        Some(TypeToken::VariableInt(IntToken::Int8))
    } else if same_text(name, "varuint8") {
        Some(TypeToken::VariableInt(IntToken::UInt8))
    } else if same_text(name, "varint16") {
        Some(TypeToken::VariableInt(IntToken::Int16))
    } else if same_text(name, "varuint16") {
        Some(TypeToken::VariableInt(IntToken::UInt16))
    } else if same_text(name, "varint32") {
        Some(TypeToken::VariableInt(IntToken::Int32))
    } else if same_text(name, "varuint32") {
        Some(TypeToken::VariableInt(IntToken::UInt32))
    } else if same_text(name, "varint64") {
        Some(TypeToken::VariableInt(IntToken::Int64))
    } else if same_text(name, "varuint64") {
        Some(TypeToken::VariableInt(IntToken::UInt64))
    } else if same_text(name, "string") {
        Some(TypeToken::String)
    } else if same_text(name, "array") {
        Some(TypeToken::Array)
    } else if same_text(name, "option") {
        Some(TypeToken::Option)
    } else {
        None
    }
}

/// Looks up the keyword that `name` is reserved for.
pub fn lookup_keyword(name: &str) -> (kw: Option<KeywordToken>)
    ensures
        kw == keyword(name@),
{
    if same_text(name, "struct") {
        Some(KeywordToken::Struct)
    } else if same_text(name, "rpc") {
        Some(KeywordToken::Rpc)
    } else if same_text(name, "proc") {
        Some(KeywordToken::Proc)
    } else if same_text(name, "enum") {
        Some(KeywordToken::Enum)
    } else if same_text(name, "import") {
        Some(KeywordToken::Import)
    } else {
        None
    }
}

} // verus!
