//! The data of a tensor in a safetensors file.

use crate::bytes::{get_u16, get_u32, get_u64, u16_at, u32_at, u64_at};
use crate::text::str_eq;
use vstd::prelude::*;

verus! {

/// An element of a tensor: the bits of a number, or a whole number.
#[derive(Debug, Clone, Copy, PartialEq, Eq, Structural)]
pub enum MlxTerm {
    /// The bits of a single-precision number.
    Value(u32),
    /// The bits of a half-precision number.
    Half(u16),
    Whole(i64),
}

/// The types of elements that are read.
#[derive(Debug, Clone, Copy, PartialEq, Eq, Structural)]
pub enum MlxDtype {
    F32,
    Half,
    /// The upper half of a single-precision number.
    BF16,
    I32,
    I64,
}

impl MlxDtype {
    /// The type with a name, if it is read.
    pub open spec fn named(name: Seq<char>) -> Option<MlxDtype> {
        if name == "F32"@ {
            Some(MlxDtype::F32)
        } else if name == "F16"@ {
            Some(MlxDtype::Half)
        } else if name == "BF16"@ {
            Some(MlxDtype::BF16)
        } else if name == "I32"@ {
            Some(MlxDtype::I32)
        } else if name == "I64"@ {
            Some(MlxDtype::I64)
        } else {
            None
        }
    }

    /// The type with a name, if it is read.
    pub fn from_name(name: &str) -> (r: Option<MlxDtype>)
        ensures
            r == Self::named(name@),
    {
        if str_eq(name, "F32") {
            Some(MlxDtype::F32)
        } else if str_eq(name, "F16") {
            Some(MlxDtype::Half)
        } else if str_eq(name, "BF16") {
            Some(MlxDtype::BF16)
        } else if str_eq(name, "I32") {
            Some(MlxDtype::I32)
        } else if str_eq(name, "I64") {
            Some(MlxDtype::I64)
        } else {
            None
        }
    }

    /// The bytes of an element.
    pub open spec fn spec_size(self) -> nat {
        match self {
            MlxDtype::F32 | MlxDtype::I32 => 4,
            MlxDtype::Half | MlxDtype::BF16 => 2,
            MlxDtype::I64 => 8,
        }
    }

    /// The bytes of an element.
    pub fn size(&self) -> (r: usize)
        ensures
            r == self.spec_size(),
    {
        match self {
            MlxDtype::F32 | MlxDtype::I32 => 4,
            MlxDtype::Half | MlxDtype::BF16 => 2,
            MlxDtype::I64 => 8,
        }
    }

    /// The element whose bytes start at a position.
    pub open spec fn term(self, data: Seq<u8>, at: int) -> MlxTerm {
        match self {
            MlxDtype::F32 => MlxTerm::Value(u32_at(data, at)),
            MlxDtype::Half => MlxTerm::Half(u16_at(data, at)),
            MlxDtype::BF16 => MlxTerm::Value((u16_at(data, at) * 0x1_0000) as u32),
            MlxDtype::I32 => MlxTerm::Whole((u32_at(data, at) as i32) as i64),
            MlxDtype::I64 => MlxTerm::Whole(u64_at(data, at) as i64),
        }
    }

    /// The elements that bytes hold.
    pub open spec fn terms(self, data: Seq<u8>) -> Seq<MlxTerm> {
        Seq::new(
            data.len() / self.spec_size(),
            |i: int| self.term(data, i * self.spec_size()),
        )
    }

    /// Reads the elements of a tensor.
    pub fn decode(&self, data: &[u8]) -> (r: Vec<MlxTerm>)
        requires
            data@.len() % self.spec_size() == 0,
        ensures
            r@ == self.terms(data@),
            r@.len() * self.spec_size() == data@.len(),
    {
        let size: usize = self.size();
        assert(data.len() <= usize::MAX);
        let ghost all = self.terms(data@);
        let mut out: Vec<MlxTerm> = Vec::new();
        let mut at: usize = 0;
        proof {
            vstd::arithmetic::div_mod::lemma_fundamental_div_mod(
                data@.len() as int,
                self.spec_size() as int,
            );
            assert(self.spec_size() * (data@.len() / self.spec_size()) == data@.len());
            assert(data@.len() / self.spec_size() * self.spec_size() == data@.len())
                by (nonlinear_arith)
                requires
                    self.spec_size() * (data@.len() / self.spec_size()) == data@.len(),
            ;
            assert(0 * self.spec_size() == 0) by (nonlinear_arith);
        }
        while at < data.len()
            invariant
                size == self.spec_size(),
                all == self.terms(data@),
                all.len() * self.spec_size() == data@.len(),
                data@.len() <= usize::MAX,
                at == out@.len() * self.spec_size(),
                out@.len() <= all.len(),
                out@ == all.take(out@.len() as int),
            decreases data@.len() - at,
        {
            let ghost n = out@.len();
            let ghost s = self.spec_size();
            proof {
                assert(n < all.len()) by (nonlinear_arith)
                    requires
                        n * s < all.len() * s,
                        s > 0,
                ;
                assert((n + 1) * s <= all.len() * s) by (nonlinear_arith)
                    requires
                        n + 1 <= all.len(),
                ;
                assert((n + 1) * s == n * s + s) by (nonlinear_arith);
            }
            let term = match self {
                MlxDtype::F32 => MlxTerm::Value(get_u32(data, at)),
                MlxDtype::Half => MlxTerm::Half(get_u16(data, at)),
                MlxDtype::BF16 => MlxTerm::Value(get_u16(data, at) as u32 * 0x1_0000),
                MlxDtype::I32 => MlxTerm::Whole((get_u32(data, at) as i32) as i64),
                MlxDtype::I64 => MlxTerm::Whole(get_u64(data, at) as i64),
            };
            out.push(term);
            at += size;
            assert(out@ =~= all.take(out@.len() as int));
        }
        proof {
            assert(out@.len() == all.len()) by (nonlinear_arith)
                requires
                    out@.len() * self.spec_size() >= all.len() * self.spec_size(),
                    out@.len() <= all.len(),
                    self.spec_size() > 0,
            ;
        }
        assert(out@ =~= all);
        out
    }
}

} // verus!
