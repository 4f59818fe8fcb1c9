//! The values that the store keeps, as far as it looks into them.
//!
//! Contract values, their types and contracts themselves belong to the contract language. The
//! store keeps their serialized text and asks the language, through [`Language`], for the rest.

use vstd::prelude::*;

verus! {

/// A value of the contract language.
///
/// The store itself only makes and recognises the first two; every other value is its text.
#[derive(Debug, PartialEq, Eq)]
pub enum Value {
    /// No value: what an absent entry reads as.
    Void,
    /// A truth value: the answer of an insertion or a deletion.
    Bool(bool),
    /// Any other value, by its text.
    Other(String),
}

impl Clone for Value {
    fn clone(&self) -> (res: Self)
        ensures
            res == *self,
    {
        match self {
            Value::Void => Value::Void,
            Value::Bool(b) => Value::Bool(*b),
            Value::Other(text) => Value::Other(text.clone()),
        }
    }
}

/// A type of the contract language, by its serialized text.
#[derive(Debug, PartialEq, Eq)]
pub struct TypeSignature {
    pub text: String,
}

impl View for TypeSignature {
    type V = Seq<char>;

    open spec fn view(&self) -> Seq<char> {
        self.text@
    }
}

impl Clone for TypeSignature {
    fn clone(&self) -> (res: Self)
        ensures
            res == *self,
    {
        TypeSignature { text: self.text.clone() }
    }
}

impl TypeSignature {
    /// The type whose serialized text is `text`.
    pub fn deserialize(text: &str) -> (res: TypeSignature)
        ensures
            res@ == text@,
    {
        TypeSignature { text: text.to_owned() }
    }

    /// The serialized text of this type.
    pub fn serialize(&self) -> (res: String)
        ensures
            res@ == self@,
    {
        self.text.clone()
    }
}

/// A contract, by its serialized text.
#[derive(Debug, PartialEq, Eq)]
pub struct Contract {
    pub text: String,
}

impl View for Contract {
    type V = Seq<char>;

    open spec fn view(&self) -> Seq<char> {
        self.text@
    }
}

impl Contract {
    /// The contract whose serialized text is `text`.
    pub fn deserialize(text: &str) -> (res: Contract)
        ensures
            res@ == text@,
    {
        Contract { text: text.to_owned() }
    }

    /// The serialized text of this contract.
    pub fn serialize(&self) -> (res: String)
        ensures
            res@ == self@,
    {
        self.text.clone()
    }
}

/// The length of a VRF seed in bytes.
pub const VRF_SEED_LENGTH: usize = 32;

/// The seed that a block's verifiable random function gives.
#[derive(Debug, PartialEq, Eq)]
pub struct VRFSeed {
    bytes: Vec<u8>,
}

impl View for VRFSeed {
    type V = Seq<u8>;

    closed spec fn view(&self) -> Seq<u8> {
        self.bytes@
    }
}

impl VRFSeed {
    #[verifier::type_invariant]
    spec fn has_its_length(self) -> bool {
        self.bytes@.len() == VRF_SEED_LENGTH
    }

    /// The seed made of `bytes`, if they are as many as a seed has.
    pub fn from_bytes(bytes: &[u8]) -> (res: Option<VRFSeed>)
        ensures
            res is Some <==> bytes@.len() == VRF_SEED_LENGTH,
            res matches Some(seed) ==> seed@ == bytes@,
    {
        if bytes.len() == VRF_SEED_LENGTH {
            let copy = vstd::slice::slice_to_vec(bytes);
            Some(VRFSeed { bytes: copy })
        } else {
            None
        }
    }

    /// The bytes of this seed.
    pub fn to_bytes(&self) -> (res: &[u8])
        ensures
            res@ == self@,
            res@.len() == VRF_SEED_LENGTH,
    {
        proof {
            use_type_invariant(self);
        }
        self.bytes.as_slice()
    }
}

/// What the store asks of the contract language.
pub struct Language<A, S, D> {
    /// Whether a type admits a value.
    pub admits: A,
    /// The text under which a value is stored.
    pub serialize: S,
    /// The value that a stored text stands for.
    pub deserialize: D,
}

impl<A, S, D> Language<A, S, D> where
    A: Fn(&TypeSignature, &Value) -> bool,
    S: Fn(&Value) -> String,
    D: Fn(&String) -> Value,
 {
    /// The language answers every question.
    pub open spec fn answers(&self) -> bool {
        &&& forall|t: TypeSignature, v: Value| #[trigger] call_requires(self.admits, (&t, &v))
        &&& forall|v: Value| #[trigger] call_requires(self.serialize, (&v,))
        &&& forall|text: String| #[trigger] call_requires(self.deserialize, (&text,))
    }

    /// The language may answer `answer` when asked whether the type written `type_text` admits
    /// `value`.
    pub open spec fn may_admit(&self, type_text: Seq<char>, value: Value, answer: bool) -> bool {
        exists|t: TypeSignature| #[trigger]
            t@ == type_text && call_ensures(self.admits, (&t, &value), answer)
    }

    /// The language may write `value` as `text`.
    pub open spec fn may_write(&self, value: Value, text: Seq<char>) -> bool {
        exists|s: String| #[trigger] s@ == text && call_ensures(self.serialize, (&value,), s)
    }

    /// The language has one way to write `value`.
    pub open spec fn writes_one_way(&self, value: Value) -> bool {
        forall|a: Seq<char>, b: Seq<char>| #[trigger]
            self.may_write(value, a) && #[trigger] self.may_write(value, b) ==> a == b
    }

    /// The language reads what it writes for `value` as `value`.
    pub open spec fn reads_back(&self, value: Value) -> bool {
        forall|text: Seq<char>, read: Value|
            self.may_write(value, text) && #[trigger] self.may_read(text, read) ==> read == value
    }

    /// The language may read `text` as `value`.
    pub open spec fn may_read(&self, text: Seq<char>, value: Value) -> bool {
        exists|s: String| #[trigger] s@ == text && call_ensures(self.deserialize, (&s,), value)
    }
}

/// A map's descriptor: the number under which its entries are kept, and the types of its keys
/// and values.
#[derive(Debug, PartialEq, Eq)]
pub struct SqliteDataMap {
    pub map_identifier: i64,
    pub key_type: TypeSignature,
    pub value_type: TypeSignature,
}

} // verus!
