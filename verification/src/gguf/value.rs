//! Metadata values.

use crate::text::texts;
use vstd::prelude::*;

verus! {

/// A metadata value. Floating-point numbers are held by their IEEE 754 bits.
#[derive(Debug)]
pub enum GgufValue {
    Bool(bool),
    U8(u8),
    I8(i8),
    U16(u16),
    I16(i16),
    U32(u32),
    I32(i32),
    U64(u64),
    I64(i64),
    F32(u32),
    F64(u64),
    String(String),
    U8Vec(Vec<u8>),
    I32Vec(Vec<i32>),
    U64Vec(Vec<u64>),
    F32Vec(Vec<u32>),
    StringVec(Vec<String>),
}

/// What a metadata value holds, with texts and lists as sequences.
#[verifier::ext_equal]
pub enum ValueView {
    Bool(bool),
    U8(u8),
    I8(i8),
    U16(u16),
    I16(i16),
    U32(u32),
    I32(i32),
    U64(u64),
    I64(i64),
    F32(u32),
    F64(u64),
    String(Seq<char>),
    U8Vec(Seq<u8>),
    I32Vec(Seq<i32>),
    U64Vec(Seq<u64>),
    F32Vec(Seq<u32>),
    StringVec(Seq<Seq<char>>),
}

impl View for GgufValue {
    type V = ValueView;

    open spec fn view(&self) -> ValueView {
        match self {
            GgufValue::Bool(v) => ValueView::Bool(*v),
            GgufValue::U8(v) => ValueView::U8(*v),
            GgufValue::I8(v) => ValueView::I8(*v),
            GgufValue::U16(v) => ValueView::U16(*v),
            GgufValue::I16(v) => ValueView::I16(*v),
            GgufValue::U32(v) => ValueView::U32(*v),
            GgufValue::I32(v) => ValueView::I32(*v),
            GgufValue::U64(v) => ValueView::U64(*v),
            GgufValue::I64(v) => ValueView::I64(*v),
            GgufValue::F32(v) => ValueView::F32(*v),
            GgufValue::F64(v) => ValueView::F64(*v),
            GgufValue::String(v) => ValueView::String(v@),
            GgufValue::U8Vec(v) => ValueView::U8Vec(v@),
            GgufValue::I32Vec(v) => ValueView::I32Vec(v@),
            GgufValue::U64Vec(v) => ValueView::U64Vec(v@),
            GgufValue::F32Vec(v) => ValueView::F32Vec(v@),
            GgufValue::StringVec(v) => ValueView::StringVec(texts(v@)),
        }
    }
}

impl Clone for GgufValue {
    fn clone(&self) -> (r: Self)
        ensures
            r@ == self@,
    {
        let r = match self {
            GgufValue::Bool(v) => GgufValue::Bool(*v),
            GgufValue::U8(v) => GgufValue::U8(*v),
            GgufValue::I8(v) => GgufValue::I8(*v),
            GgufValue::U16(v) => GgufValue::U16(*v),
            GgufValue::I16(v) => GgufValue::I16(*v),
            GgufValue::U32(v) => GgufValue::U32(*v),
            GgufValue::I32(v) => GgufValue::I32(*v),
            GgufValue::U64(v) => GgufValue::U64(*v),
            GgufValue::I64(v) => GgufValue::I64(*v),
            GgufValue::F32(v) => GgufValue::F32(*v),
            GgufValue::F64(v) => GgufValue::F64(*v),
            GgufValue::String(v) => GgufValue::String(v.clone()),
            GgufValue::U8Vec(v) => GgufValue::U8Vec(v.clone()),
            GgufValue::I32Vec(v) => GgufValue::I32Vec(v.clone()),
            GgufValue::U64Vec(v) => GgufValue::U64Vec(v.clone()),
            GgufValue::F32Vec(v) => GgufValue::F32Vec(v.clone()),
            GgufValue::StringVec(v) => GgufValue::StringVec(v.clone()),
        };
        assert(r@ =~~= self@);
        r
    }
}

impl GgufValue {
    pub fn as_str(&self) -> (r: Option<&str>)
        ensures
            r is Some <==> self@ is String,
            r matches Some(s) ==> self@ == ValueView::String(s@),
    {
        match self {
            GgufValue::String(s) => Some(s.as_str()),
            _ => None,
        }
    }

    /// The bits of a 32-bit floating-point value.
    pub fn as_f32(&self) -> (r: Option<u32>)
        ensures
            r is Some <==> self@ is F32,
            r matches Some(v) ==> self@ == ValueView::F32(v),
    {
        match self {
            GgufValue::F32(v) => Some(*v),
            _ => None,
        }
    }

    pub fn as_bool(&self) -> (r: Option<bool>)
        ensures
            r is Some <==> self@ is Bool,
            r matches Some(v) ==> self@ == ValueView::Bool(v),
    {
        match self {
            GgufValue::Bool(v) => Some(*v),
            _ => None,
        }
    }

    pub fn as_i32(&self) -> (r: Option<i32>)
        ensures
            r is Some <==> self@ is I32,
            r matches Some(v) ==> self@ == ValueView::I32(v),
    {
        match self {
            GgufValue::I32(v) => Some(*v),
            _ => None,
        }
    }

    pub fn as_u32(&self) -> (r: Option<u32>)
        ensures
            r is Some <==> self@ is U32,
            r matches Some(v) ==> self@ == ValueView::U32(v),
    {
        match self {
            GgufValue::U32(v) => Some(*v),
            _ => None,
        }
    }

    pub fn as_u64(&self) -> (r: Option<u64>)
        ensures
            r is Some <==> self@ is U64,
            r matches Some(v) ==> self@ == ValueView::U64(v),
    {
        match self {
            GgufValue::U64(v) => Some(*v),
            _ => None,
        }
    }

    pub fn as_i64(&self) -> (r: Option<i64>)
        ensures
            r is Some <==> self@ is I64,
            r matches Some(v) ==> self@ == ValueView::I64(v),
    {
        match self {
            GgufValue::I64(v) => Some(*v),
            _ => None,
        }
    }

    pub fn as_string_vec(&self) -> (r: Option<&Vec<String>>)
        ensures
            r is Some <==> self@ is StringVec,
            r matches Some(v) ==> self@ == ValueView::StringVec(texts(v@)),
    {
        match self {
            GgufValue::StringVec(v) => Some(v),
            _ => None,
        }
    }

    pub fn as_i32_vec(&self) -> (r: Option<&Vec<i32>>)
        ensures
            r is Some <==> self@ is I32Vec,
            r matches Some(v) ==> self@ == ValueView::I32Vec(v@),
    {
        match self {
            GgufValue::I32Vec(v) => Some(v),
            _ => None,
        }
    }

    /// The bits of a list of 32-bit floating-point values.
    pub fn as_f32_vec(&self) -> (r: Option<&Vec<u32>>)
        ensures
            r is Some <==> self@ is F32Vec,
            r matches Some(v) ==> self@ == ValueView::F32Vec(v@),
    {
        match self {
            GgufValue::F32Vec(v) => Some(v),
            _ => None,
        }
    }
}

} // verus!
