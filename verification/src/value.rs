//! Loosely typed property values and the decoders that read an expected
//! shape out of them.

use vstd::prelude::*;
use vstd::utf8::*;
use vstd::slice::*;

verus! {

/// One property value of the device-management service.
#[derive(Debug, PartialEq, Eq)]
pub enum Value {
    /// A single byte.
    Byte(u8),
    /// A boolean.
    Bool(bool),
    /// A plain string.
    Str(String),
    /// A reference to another object, by its path.
    ObjectPath(String),
    /// An array of values.
    Array(Vec<Value>),
    /// Any other encoding.
    Other,
}

/// Why a property could not be read.
#[derive(Debug, Clone, Copy, PartialEq, Eq, Structural)]
pub enum DecodeError {
    /// The property is not there.
    Missing,
    /// The value is no plain string.
    NotAString,
    /// The value is no object reference.
    NotAnObjectPath,
    /// The bytes are not UTF-8.
    InvalidUtf8,
    /// The referenced object is not in the catalog.
    ObjectNotFound,
    /// The referenced object lacks the capability asked for.
    NoSuchInterface,
}

/// What a [`Value`] holds, as plain values.
pub ghost enum ValueView {
    Byte(u8),
    Bool(bool),
    Str(Seq<char>),
    ObjectPath(Seq<char>),
    Array(Seq<ValueView>),
    Other,
}

/// What `value` holds, level by level.
pub open spec fn view_of(value: Value) -> ValueView
    decreases value,
{
    match value {
        Value::Byte(byte) => ValueView::Byte(byte),
        Value::Bool(flag) => ValueView::Bool(flag),
        Value::Str(text) => ValueView::Str(text@),
        Value::ObjectPath(path) => ValueView::ObjectPath(path@),
        Value::Array(items) => ValueView::Array(
            Seq::new(
                items@.len(),
                |i: int|
                    if 0 <= i < items@.len() {
                        view_of(items@[i])
                    } else {
                        ValueView::Other
                    },
            ),
        ),
        Value::Other => ValueView::Other,
    }
}

impl View for Value {
    type V = ValueView;

    open spec fn view(&self) -> ValueView {
        view_of(*self)
    }
}

impl DeepView for Value {
    type V = ValueView;

    open spec fn deep_view(&self) -> ValueView {
        self@
    }
}

/// The view of an array is the array of its elements' views.
pub proof fn lemma_array_view(items: Vec<Value>)
    ensures
        Value::Array(items)@ == ValueView::Array(items.deep_view()),
{
    assert(Value::Array(items)@->Array_0 =~= items.deep_view());
}

/// `bytes` without its last byte where that is a NUL, else `bytes` itself.
pub open spec fn strip_nul(bytes: Seq<u8>) -> Seq<u8> {
    if bytes.len() > 0 && bytes.last() == 0 {
        bytes.drop_last()
    } else {
        bytes
    }
}

/// The text that `bytes` encodes once one trailing NUL is taken off, or
/// `None` where what is left is not UTF-8.
pub open spec fn decode_text(bytes: Seq<u8>) -> Option<Seq<char>> {
    if valid_utf8(strip_nul(bytes)) {
        Some(decode_utf8(strip_nul(bytes)))
    } else {
        None
    }
}

/// Whether every element of `items` is a byte.
pub open spec fn all_bytes(items: Seq<ValueView>) -> bool {
    forall|i: int| 0 <= i < items.len() ==> #[trigger] items[i] is Byte
}

/// The bytes of `items`, each of which is taken to be a byte.
pub open spec fn bytes_of(items: Seq<ValueView>) -> Seq<u8> {
    Seq::new(items.len(), |i: int| items[i]->Byte_0)
}

/// The byte sequence that `value` holds: it is one where `value` is an
/// array of nothing but bytes.
pub open spec fn byte_array(value: ValueView) -> Option<Seq<u8>> {
    match value {
        ValueView::Array(items) => if all_bytes(items) {
            Some(bytes_of(items))
        } else {
            None
        },
        _ => None,
    }
}

/// Stripping takes off one NUL and no more: of a sequence that ends in a
/// NUL everything but that last byte is left, and any other sequence is
/// left whole.
pub proof fn lemma_strip_nul(bytes: Seq<u8>)
    ensures
        bytes.len() > 0 && bytes.last() == 0 ==> strip_nul(bytes) == bytes.drop_last(),
        bytes.len() > 0 && bytes.last() == 0 ==> strip_nul(bytes).len() == bytes.len() - 1,
        !(bytes.len() > 0 && bytes.last() == 0) ==> strip_nul(bytes) == bytes,
        forall|body: Seq<u8>| strip_nul(#[trigger] body.push(0u8)) == body,
{
    assert forall|body: Seq<u8>| strip_nul(#[trigger] body.push(0u8)) == body by {
        assert(body.push(0u8).drop_last() =~= body);
    }
}

/// Decoding never substitutes: it yields a text exactly where the stripped
/// bytes are UTF-8, and that text encodes back to those bytes.
pub proof fn lemma_decode_text(bytes: Seq<u8>)
    ensures
        decode_text(bytes) is Some <==> valid_utf8(strip_nul(bytes)),
        decode_text(bytes) is Some ==> encode_utf8(decode_text(bytes)->0) == strip_nul(bytes),
{
    if valid_utf8(strip_nul(bytes)) {
        decode_utf8_encode_utf8(strip_nul(bytes));
    }
}

/// Converts bytes to a text with `String::from_utf8`, which takes them as
/// they are where they are UTF-8 and refuses them otherwise.
#[verifier::external_body]
fn string_from_utf8(bytes: Vec<u8>) -> (text: Option<String>)
    ensures
        match text {
            Some(s) => valid_utf8(bytes@) && s@ == decode_utf8(bytes@),
            None => !valid_utf8(bytes@),
        },
{
    match String::from_utf8(bytes) {
        Ok(s) => Some(s),
        Err(_) => None,
    }
}

/// Decodes a NUL-terminated byte sequence: takes off one trailing NUL if
/// there is one, then reads the rest as UTF-8.
pub fn decode_bytes(bytes: &[u8]) -> (text: Result<String, DecodeError>)
    ensures
        match text {
            Ok(s) => decode_text(bytes@) == Some(s@),
            Err(e) => decode_text(bytes@) is None && e == DecodeError::InvalidUtf8,
        },
{
    let n: usize = bytes.len();
    let body: &[u8] = if n > 0 && bytes[n - 1] == 0 {
        slice_subrange(bytes, 0, n - 1)
    } else {
        bytes
    };
    assert(body@ =~= strip_nul(bytes@));
    match string_from_utf8(slice_to_vec(body)) {
        Some(s) => Ok(s),
        None => Err(DecodeError::InvalidUtf8),
    }
}

/// The bytes of `items` where every one of them is a byte.
fn collect_bytes(items: &Vec<Value>) -> (bytes: Option<Vec<u8>>)
    ensures
        match bytes {
            Some(b) => all_bytes(items.deep_view()) && b@ == bytes_of(items.deep_view()),
            None => !all_bytes(items.deep_view()),
        },
{
    let mut out: Vec<u8> = Vec::new();
    let mut i: usize = 0;
    while i < items.len()
        invariant
            i <= items@.len(),
            out@.len() == i,
            forall|k: int| 0 <= k < i ==> #[trigger] items.deep_view()[k] is Byte,
            forall|k: int| 0 <= k < i ==> out@[k] == items.deep_view()[k]->Byte_0,
        decreases items@.len() - i,
    {
        match &items[i] {
            Value::Byte(b) => {
                out.push(*b);
            },
            _ => {
                assert(!(items.deep_view()[i as int] is Byte));
                return None;
            },
        }
        i = i + 1;
    }
    assert(out@ =~= bytes_of(items.deep_view()));
    Some(out)
}

impl Value {
    /// The bytes of an array of bytes.
    pub fn as_bytes(&self) -> (bytes: Option<Vec<u8>>)
        ensures
            match bytes {
                Some(b) => byte_array(self@) == Some(b@),
                None => byte_array(self@) is None,
            },
    {
        match self {
            Value::Array(items) => {
                proof {
                    lemma_array_view(*items);
                }
                collect_bytes(items)
            },
            _ => None,
        }
    }

    /// The text of a plain string.
    pub fn as_str(&self) -> (text: Option<&String>)
        ensures
            match text {
                Some(s) => self@ == ValueView::Str(s@),
                None => !(self@ is Str),
            },
    {
        match self {
            Value::Str(s) => Some(s),
            _ => None,
        }
    }

    /// The flag of a boolean.
    pub fn as_bool(&self) -> (flag: Option<bool>)
        ensures
            match flag {
                Some(b) => self@ == ValueView::Bool(b),
                None => !(self@ is Bool),
            },
    {
        match self {
            Value::Bool(b) => Some(*b),
            _ => None,
        }
    }

    /// The path of an object reference.
    pub fn as_object_path(&self) -> (path: Option<&String>)
        ensures
            match path {
                Some(p) => self@ == ValueView::ObjectPath(p@),
                None => !(self@ is ObjectPath),
            },
    {
        match self {
            Value::ObjectPath(p) => Some(p),
            _ => None,
        }
    }

    /// The elements of an array.
    pub fn as_array(&self) -> (items: Option<&Vec<Value>>)
        ensures
            match items {
                Some(list) => self@ == ValueView::Array(list.deep_view()),
                None => !(self@ is Array),
            },
    {
        match self {
            Value::Array(list) => {
                proof {
                    lemma_array_view(*list);
                }
                Some(list)
            },
            _ => None,
        }
    }
}

} // verus!
