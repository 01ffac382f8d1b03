//! Deriving a stable display colour for an excuse category.
//!
//! The colour is taken from the same stable FNV-1a hash the library uses
//! elsewhere, so a category keeps its colour across runs and machines.

use vstd::prelude::*;
use vstd::utf8::encode_utf8;

use crate::excuse::{ExcuseKind, ExcuseType};
use crate::surrogate::{fnv1a, fnv1a_bytes};
use vstd::string::StrSliceExecFns;

verus! {

/// An RGB colour.
#[derive(Copy, Clone, Debug, PartialEq, Eq, Structural, Hash)]
pub struct Color {
    pub r: u8,
    pub g: u8,
    pub b: u8,
}

/// The byte string a category is hashed over: a tag byte per variant, then
/// the description's UTF-8 bytes for an excused absence.
pub open spec fn excuse_bytes(k: ExcuseKind) -> Seq<u8> {
    match k {
        ExcuseKind::ToBeExcused => seq![0u8],
        ExcuseKind::Unexcused => seq![1u8],
        ExcuseKind::Excused(desc) => seq![2u8] + encode_utf8(desc),
    }
}

/// The colour of a category: three bytes of its hash.
pub open spec fn color_of(k: ExcuseKind) -> Color {
    let h = fnv1a(excuse_bytes(k));
    Color { r: ((h >> 24) & 0xff) as u8, g: ((h >> 16) & 0xff) as u8, b: ((h >> 8) & 0xff) as u8 }
}

/// Derives the stable display colour of an excuse category.
pub fn hash_to_color(value: &ExcuseType) -> (c: Color)
    ensures
        c == color_of(value@),
{
    let mut data: Vec<u8> = Vec::new();
    match value {
        ExcuseType::ToBeExcused => {
            data.push(0);
        },
        ExcuseType::Unexcused => {
            data.push(1);
        },
        ExcuseType::Excused(desc) => {
            data.push(2);
            let mut bytes = desc.as_str().as_bytes_vec();
            data.append(&mut bytes);
        },
    }
    proof {
        assert(data@ =~= excuse_bytes(value@));
    }
    let h = fnv1a_bytes(&data);
    Color {
        r: ((h >> 24) & 0xff) as u8,
        g: ((h >> 16) & 0xff) as u8,
        b: ((h >> 8) & 0xff) as u8,
    }
}

} // verus!
