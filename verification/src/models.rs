//! The models of the file service, as the generator writes them for this
//! definition:
//!
//! ```text
//! enum Action {
//!   Delete -> 1;
//!   SecureDelete -> 2;
//!   Encrypt -> 3;
//! }
//!
//! struct File {
//!   path -> @string;
//!   size -> @varuint64;
//!   content -> @array[@uint8];
//! }
//!
//! rpc {
//!   proc getServerVersion() -> @int8;
//!   proc getFile(path -> @string, after_action -> @option[Action]) -> File;
//!   proc deleteFile(path -> @string);
//! }
//! ```
//!
//! An enum travels as its tag, a big-endian `u16`. A struct travels as its
//! fields, in the order of their declaration.

use crate::buffer::{
    be_bytes, be_value, buffer_len, contents, lemma_be_bytes_len, lemma_be_bytes_of_value,
    lemma_be_round_trip, lemma_be_value_bound, lemma_pow256_values, new_buffer, put_be,
    put_buffer, take_be,
};
use crate::varint::{Variable, WireError};
use crate::wire::{taken_from, ProcedureInput, ProcedureOutput, WireFormat};
use tokio_util::bytes::BytesMut;
use vstd::prelude::*;

verus! {

#[derive(Debug, Clone, Copy, PartialEq, Eq, Structural)]
pub enum Action {
    Delete,
    SecureDelete,
    Encrypt,
}

impl Action {
    /// The tag of the variant.
    pub open spec fn tag_of(self) -> nat {
        match self {
            Action::Delete => 1,
            Action::SecureDelete => 2,
            Action::Encrypt => 3,
        }
    }

    /// The variant with the tag, if there is one.
    pub open spec fn with_tag(tag: nat) -> Option<Action> {
        if tag == 1 {
            Some(Action::Delete)
        } else if tag == 2 {
            Some(Action::SecureDelete)
        } else if tag == 3 {
            Some(Action::Encrypt)
        } else {
            None
        }
    }

    pub fn tag(&self) -> (tag: u16)
        ensures
            tag == self.tag_of(),
    {
        match self {
            Action::Delete => 1,
            Action::SecureDelete => 2,
            Action::Encrypt => 3,
        }
    }
}

impl DeepView for Action {
    type V = Action;

    open spec fn deep_view(&self) -> Action {
        *self
    }
}

impl ProcedureInput for Action {
    open spec fn decoded(bytes: Seq<u8>) -> Result<(Action, int), WireError> {
        if bytes.len() < 2 {
            Err(WireError::Truncated)
        } else {
            match Action::with_tag(be_value(bytes.take(2))) {
                Some(action) => Ok((action, 2)),
                None => Err(WireError::InvalidTag),
            }
        }
    }

    proof fn decoded_within(bytes: Seq<u8>) {
    }

    fn deserialize(input: &mut BytesMut) -> (res: Result<Self, WireError>) {
        let ghost bytes = contents(*input);
        if buffer_len(input) < 2 {
            assert(bytes.skip(0) =~= bytes);
            return Err(WireError::Truncated);
        }
        let tag = take_be(input, 2);
        if tag == 1 {
            Ok(Action::Delete)
        } else if tag == 2 {
            Ok(Action::SecureDelete)
        } else if tag == 3 {
            Ok(Action::Encrypt)
        } else {
            Err(WireError::InvalidTag)
        }
    }
}

impl ProcedureOutput for Action {
    open spec fn encodable(value: Action) -> bool {
        true
    }

    open spec fn wire(value: Action) -> Seq<u8> {
        be_bytes(value.tag_of(), 2)
    }

    fn serialize(&self) -> (res: Result<BytesMut, WireError>) {
        let mut out = new_buffer();
        put_be(&mut out, self.tag() as u128, 2);
        assert(contents(out) =~= Self::wire(*self));
        Ok(out)
    }
}

impl WireFormat for Action {
    open spec fn nothing() -> bool {
        false
    }

    proof fn never_empty(value: Action) {
        lemma_be_bytes_len(value.tag_of(), 2);
    }

    open spec fn canonical(bytes: Seq<u8>) -> bool {
        true
    }

    proof fn bytes_round_trip(bytes: Seq<u8>) {
        lemma_pow256_values();
        lemma_be_value_bound(bytes.take(2));
        lemma_be_bytes_of_value(bytes.take(2));
    }

    proof fn round_trip(value: Action, rest: Seq<u8>) {
        lemma_pow256_values();
        lemma_be_bytes_len(value.tag_of(), 2);
        lemma_be_round_trip(value.tag_of(), 2);
        assert((Self::wire(value) + rest).take(2) =~= Self::wire(value));
    }
}

#[derive(Debug, PartialEq, Eq)]
pub struct File {
    pub path: String,
    pub size: Variable<u64>,
    pub content: Vec<u8>,
}

/// A file as plain values.
pub struct FileModel {
    pub path: Seq<char>,
    pub size: u64,
    pub content: Seq<u8>,
}

impl DeepView for File {
    type V = FileModel;

    open spec fn deep_view(&self) -> FileModel {
        FileModel {
            path: self.path.deep_view(),
            size: self.size.deep_view(),
            content: self.content.deep_view(),
        }
    }
}

impl ProcedureInput for File {
    open spec fn decoded(bytes: Seq<u8>) -> Result<(FileModel, int), WireError> {
        match String::decoded(bytes) {
            Err(e) => Err(e),
            Ok((path, a)) => match Variable::<u64>::decoded(bytes.skip(a)) {
                Err(e) => Err(e),
                Ok((size, b)) => match Vec::<u8>::decoded(bytes.skip(a + b)) {
                    Err(e) => Err(e),
                    Ok((content, c)) => Ok((FileModel { path, size, content }, a + b + c)),
                },
            },
        }
    }

    proof fn decoded_within(bytes: Seq<u8>) {
        String::decoded_within(bytes);
        if let Ok((_, a)) = String::decoded(bytes) {
            Variable::<u64>::decoded_within(bytes.skip(a));
            if let Ok((_, b)) = Variable::<u64>::decoded(bytes.skip(a)) {
                Vec::<u8>::decoded_within(bytes.skip(a + b));
            }
        }
    }

    fn deserialize(input: &mut BytesMut) -> (res: Result<Self, WireError>) {
        let ghost bytes = contents(*input);
        proof {
            String::decoded_within(bytes);
        }
        let path = String::deserialize(input)?;
        let ghost a = String::decoded(bytes)->Ok_0.1;
        proof {
            Variable::<u64>::decoded_within(bytes.skip(a));
        }
        let size = match Variable::<u64>::deserialize(input) {
            Ok(size) => size,
            Err(e) => {
                proof {
                    lemma_taken(bytes, a, contents(*input));
                }
                return Err(e);
            },
        };
        let ghost b = Variable::<u64>::decoded(bytes.skip(a))->Ok_0.1;
        proof {
            assert(bytes.skip(a).skip(b) =~= bytes.skip(a + b));
            Vec::<u8>::decoded_within(bytes.skip(a + b));
        }
        let content = match Vec::<u8>::deserialize(input) {
            Ok(content) => content,
            Err(e) => {
                proof {
                    lemma_taken(bytes, a + b, contents(*input));
                }
                return Err(e);
            },
        };
        proof {
            let c = Vec::<u8>::decoded(bytes.skip(a + b))->Ok_0.1;
            assert(bytes.skip(a + b).skip(c) =~= bytes.skip(a + b + c));
        }
        Ok(File { path, size, content })
    }
}

proof fn lemma_taken(before: Seq<u8>, used: int, after: Seq<u8>)
    requires
        0 <= used <= before.len(),
        taken_from(before.skip(used), after),
    ensures
        taken_from(before, after),
{
    let more = choose|more: int|
        0 <= more <= before.skip(used).len() && after == #[trigger] before.skip(used).skip(more);
    assert(before.skip(used).skip(more) =~= before.skip(used + more));
}

impl ProcedureOutput for File {
    open spec fn encodable(value: FileModel) -> bool {
        String::encodable(value.path) && Vec::<u8>::encodable(value.content)
    }

    open spec fn wire(value: FileModel) -> Seq<u8> {
        String::wire(value.path) + Variable::<u64>::wire(value.size) + Vec::<u8>::wire(
            value.content,
        )
    }

    fn serialize(&self) -> (res: Result<BytesMut, WireError>) {
        let mut out = new_buffer();
        put_buffer(&mut out, &self.path.serialize()?);
        put_buffer(&mut out, &self.size.serialize()?);
        put_buffer(&mut out, &self.content.serialize()?);
        assert(contents(out) =~= Self::wire(self.deep_view()));
        Ok(out)
    }
}

impl WireFormat for File {
    open spec fn nothing() -> bool {
        false
    }

    proof fn never_empty(value: FileModel) {
        String::never_empty(value.path);
    }

    open spec fn canonical(bytes: Seq<u8>) -> bool {
        match String::decoded(bytes) {
            Err(_) => true,
            Ok((_, a)) => Variable::<u64>::canonical(bytes.skip(a)) && match Variable::<
                u64,
            >::decoded(bytes.skip(a)) {
                Err(_) => true,
                Ok((_, b)) => Vec::<u8>::canonical(bytes.skip(a + b)),
            },
        }
    }

    proof fn bytes_round_trip(bytes: Seq<u8>) {
        String::decoded_within(bytes);
        String::bytes_round_trip(bytes);
        let a = String::decoded(bytes)->Ok_0.1;
        Variable::<u64>::decoded_within(bytes.skip(a));
        Variable::<u64>::bytes_round_trip(bytes.skip(a));
        let b = Variable::<u64>::decoded(bytes.skip(a))->Ok_0.1;
        Vec::<u8>::decoded_within(bytes.skip(a + b));
        Vec::<u8>::bytes_round_trip(bytes.skip(a + b));
        let c = Vec::<u8>::decoded(bytes.skip(a + b))->Ok_0.1;
        assert(bytes.take(a + b + c) =~= bytes.take(a) + bytes.skip(a).take(b) + bytes.skip(
            a + b,
        ).take(c));
    }

    proof fn round_trip(value: FileModel, rest: Seq<u8>) {
        let path = String::wire(value.path);
        let size = Variable::<u64>::wire(value.size);
        let content = Vec::<u8>::wire(value.content);
        let bytes = Self::wire(value) + rest;
        String::round_trip(value.path, size + content + rest);
        assert(bytes =~= path + (size + content + rest));
        Variable::<u64>::round_trip(value.size, content + rest);
        assert(bytes.skip(path.len() as int) =~= size + (content + rest));
        Vec::<u8>::round_trip(value.content, rest);
        assert(bytes.skip((path.len() + size.len()) as int) =~= content + rest);
    }
}

/// The parameters of `getFile`.
#[derive(Debug, PartialEq, Eq)]
pub struct GetFileParams {
    pub path: String,
    pub after_action: Option<Action>,
}

/// The parameters of `getFile` as plain values.
pub struct GetFileParamsModel {
    pub path: Seq<char>,
    pub after_action: Option<Action>,
}

impl DeepView for GetFileParams {
    type V = GetFileParamsModel;

    open spec fn deep_view(&self) -> GetFileParamsModel {
        GetFileParamsModel {
            path: self.path.deep_view(),
            after_action: self.after_action.deep_view(),
        }
    }
}

impl ProcedureInput for GetFileParams {
    open spec fn decoded(bytes: Seq<u8>) -> Result<(GetFileParamsModel, int), WireError> {
        match String::decoded(bytes) {
            Err(e) => Err(e),
            Ok((path, a)) => match Option::<Action>::decoded(bytes.skip(a)) {
                Err(e) => Err(e),
                Ok((after_action, b)) => Ok((GetFileParamsModel { path, after_action }, a + b)),
            },
        }
    }

    proof fn decoded_within(bytes: Seq<u8>) {
        String::decoded_within(bytes);
        if let Ok((_, a)) = String::decoded(bytes) {
            Option::<Action>::decoded_within(bytes.skip(a));
        }
    }

    fn deserialize(input: &mut BytesMut) -> (res: Result<Self, WireError>) {
        let ghost bytes = contents(*input);
        proof {
            String::decoded_within(bytes);
        }
        let path = String::deserialize(input)?;
        let ghost a = String::decoded(bytes)->Ok_0.1;
        proof {
            Option::<Action>::decoded_within(bytes.skip(a));
        }
        let after_action = match Option::<Action>::deserialize(input) {
            Ok(after_action) => after_action,
            Err(e) => {
                proof {
                    lemma_taken(bytes, a, contents(*input));
                }
                return Err(e);
            },
        };
        proof {
            let b = Option::<Action>::decoded(bytes.skip(a))->Ok_0.1;
            assert(bytes.skip(a).skip(b) =~= bytes.skip(a + b));
        }
        Ok(GetFileParams { path, after_action })
    }
}

impl ProcedureOutput for GetFileParams {
    open spec fn encodable(value: GetFileParamsModel) -> bool {
        String::encodable(value.path)
    }

    open spec fn wire(value: GetFileParamsModel) -> Seq<u8> {
        String::wire(value.path) + Option::<Action>::wire(value.after_action)
    }

    fn serialize(&self) -> (res: Result<BytesMut, WireError>) {
        let mut out = new_buffer();
        put_buffer(&mut out, &self.path.serialize()?);
        put_buffer(&mut out, &self.after_action.serialize()?);
        assert(contents(out) =~= Self::wire(self.deep_view()));
        Ok(out)
    }
}

impl WireFormat for GetFileParams {
    open spec fn nothing() -> bool {
        false
    }

    proof fn never_empty(value: GetFileParamsModel) {
        String::never_empty(value.path);
    }

    open spec fn canonical(bytes: Seq<u8>) -> bool {
        match String::decoded(bytes) {
            Err(_) => true,
            Ok((_, a)) => Option::<Action>::canonical(bytes.skip(a)),
        }
    }

    proof fn bytes_round_trip(bytes: Seq<u8>) {
        String::decoded_within(bytes);
        String::bytes_round_trip(bytes);
        let a = String::decoded(bytes)->Ok_0.1;
        Option::<Action>::decoded_within(bytes.skip(a));
        Option::<Action>::bytes_round_trip(bytes.skip(a));
        let b = Option::<Action>::decoded(bytes.skip(a))->Ok_0.1;
        assert(bytes.take(a + b) =~= bytes.take(a) + bytes.skip(a).take(b));
    }

    proof fn round_trip(value: GetFileParamsModel, rest: Seq<u8>) {
        let path = String::wire(value.path);
        let after = Option::<Action>::wire(value.after_action);
        let bytes = Self::wire(value) + rest;
        String::round_trip(value.path, after + rest);
        assert(bytes =~= path + (after + rest));
        Option::<Action>::round_trip(value.after_action, rest);
        assert(bytes.skip(path.len() as int) =~= after + rest);
    }
}

} // verus!
