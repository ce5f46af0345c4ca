//! Keywords of the language and their recognition.
use vstd::prelude::*;

use crate::lexical::{has_tag, tag_at};

verus! {

broadcast use vstd::array::group_array_axioms;

/// The fixed words of the grammar.
#[derive(Clone, Copy, PartialEq, Eq, Structural)]
pub enum Keyword {
    Package,
    Import,
    Class,
    Public,
    Protected,
    Private,
    StringType,
    BoxedBoolean,
    Boolean,
    Long,
    BoxedLong,
    Int,
    Integer,
    Short,
}

/// The bytes of a keyword.
pub open spec fn keyword_bytes(k: Keyword) -> Seq<u8> {
    match k {
        Keyword::Package => seq![0x70u8, 0x61u8, 0x63u8, 0x6bu8, 0x61u8, 0x67u8, 0x65u8],
        Keyword::Import => seq![0x69u8, 0x6du8, 0x70u8, 0x6fu8, 0x72u8, 0x74u8],
        Keyword::Class => seq![0x63u8, 0x6cu8, 0x61u8, 0x73u8, 0x73u8],
        Keyword::Public => seq![0x70u8, 0x75u8, 0x62u8, 0x6cu8, 0x69u8, 0x63u8],
        Keyword::Protected => seq![0x70u8, 0x72u8, 0x6fu8, 0x74u8, 0x65u8, 0x63u8, 0x74u8, 0x65u8, 0x64u8],
        Keyword::Private => seq![0x70u8, 0x72u8, 0x69u8, 0x76u8, 0x61u8, 0x74u8, 0x65u8],
        Keyword::StringType => seq![0x53u8, 0x74u8, 0x72u8, 0x69u8, 0x6eu8, 0x67u8],
        Keyword::BoxedBoolean => seq![0x42u8, 0x6fu8, 0x6fu8, 0x6cu8, 0x65u8, 0x61u8, 0x6eu8],
        Keyword::Boolean => seq![0x62u8, 0x6fu8, 0x6fu8, 0x6cu8, 0x65u8, 0x61u8, 0x6eu8],
        Keyword::Long => seq![0x6cu8, 0x6fu8, 0x6eu8, 0x67u8],
        Keyword::BoxedLong => seq![0x4cu8, 0x6fu8, 0x6eu8, 0x67u8],
        Keyword::Int => seq![0x69u8, 0x6eu8, 0x74u8],
        Keyword::Integer => seq![0x49u8, 0x6eu8, 0x74u8, 0x65u8, 0x67u8, 0x65u8, 0x72u8],
        Keyword::Short => seq![0x73u8, 0x68u8, 0x6fu8, 0x72u8, 0x74u8],
    }
}

/// Whether keyword `k` occurs in `s` at `p`.
pub fn keyword_at(s: &[u8], p: usize, k: Keyword) -> (r: bool)
    ensures
        r == has_tag(s@, p as int, keyword_bytes(k)),
{
    match k {
        Keyword::Package => {
            let b: [u8; 7] = [0x70u8, 0x61u8, 0x63u8, 0x6bu8, 0x61u8, 0x67u8, 0x65u8];
            assert(b@ =~= keyword_bytes(k));
            tag_at(s, p, b.as_slice())
        },
        Keyword::Import => {
            let b: [u8; 6] = [0x69u8, 0x6du8, 0x70u8, 0x6fu8, 0x72u8, 0x74u8];
            assert(b@ =~= keyword_bytes(k));
            tag_at(s, p, b.as_slice())
        },
        Keyword::Class => {
            let b: [u8; 5] = [0x63u8, 0x6cu8, 0x61u8, 0x73u8, 0x73u8];
            assert(b@ =~= keyword_bytes(k));
            tag_at(s, p, b.as_slice())
        },
        Keyword::Public => {
            let b: [u8; 6] = [0x70u8, 0x75u8, 0x62u8, 0x6cu8, 0x69u8, 0x63u8];
            assert(b@ =~= keyword_bytes(k));
            tag_at(s, p, b.as_slice())
        },
        Keyword::Protected => {
            let b: [u8; 9] = [0x70u8, 0x72u8, 0x6fu8, 0x74u8, 0x65u8, 0x63u8, 0x74u8, 0x65u8, 0x64u8];
            assert(b@ =~= keyword_bytes(k));
            tag_at(s, p, b.as_slice())
        },
        Keyword::Private => {
            let b: [u8; 7] = [0x70u8, 0x72u8, 0x69u8, 0x76u8, 0x61u8, 0x74u8, 0x65u8];
            assert(b@ =~= keyword_bytes(k));
            tag_at(s, p, b.as_slice())
        },
        Keyword::StringType => {
            let b: [u8; 6] = [0x53u8, 0x74u8, 0x72u8, 0x69u8, 0x6eu8, 0x67u8];
            assert(b@ =~= keyword_bytes(k));
            tag_at(s, p, b.as_slice())
        },
        Keyword::BoxedBoolean => {
            let b: [u8; 7] = [0x42u8, 0x6fu8, 0x6fu8, 0x6cu8, 0x65u8, 0x61u8, 0x6eu8];
            assert(b@ =~= keyword_bytes(k));
            tag_at(s, p, b.as_slice())
        },
        Keyword::Boolean => {
            let b: [u8; 7] = [0x62u8, 0x6fu8, 0x6fu8, 0x6cu8, 0x65u8, 0x61u8, 0x6eu8];
            assert(b@ =~= keyword_bytes(k));
            tag_at(s, p, b.as_slice())
        },
        Keyword::Long => {
            let b: [u8; 4] = [0x6cu8, 0x6fu8, 0x6eu8, 0x67u8];
            assert(b@ =~= keyword_bytes(k));
            tag_at(s, p, b.as_slice())
        },
        Keyword::BoxedLong => {
            let b: [u8; 4] = [0x4cu8, 0x6fu8, 0x6eu8, 0x67u8];
            assert(b@ =~= keyword_bytes(k));
            tag_at(s, p, b.as_slice())
        },
        Keyword::Int => {
            let b: [u8; 3] = [0x69u8, 0x6eu8, 0x74u8];
            assert(b@ =~= keyword_bytes(k));
            tag_at(s, p, b.as_slice())
        },
        Keyword::Integer => {
            let b: [u8; 7] = [0x49u8, 0x6eu8, 0x74u8, 0x65u8, 0x67u8, 0x65u8, 0x72u8];
            assert(b@ =~= keyword_bytes(k));
            tag_at(s, p, b.as_slice())
        },
        Keyword::Short => {
            let b: [u8; 5] = [0x73u8, 0x68u8, 0x6fu8, 0x72u8, 0x74u8];
            assert(b@ =~= keyword_bytes(k));
            tag_at(s, p, b.as_slice())
        },
    }
}

/// The length of a keyword.
pub fn keyword_len(k: Keyword) -> (r: usize)
    ensures
        r == keyword_bytes(k).len(),
{
    match k {
        Keyword::Package => 7,
        Keyword::Import => 6,
        Keyword::Class => 5,
        Keyword::Public => 6,
        Keyword::Protected => 9,
        Keyword::Private => 7,
        Keyword::StringType => 6,
        Keyword::BoxedBoolean => 7,
        Keyword::Boolean => 7,
        Keyword::Long => 4,
        Keyword::BoxedLong => 4,
        Keyword::Int => 3,
        Keyword::Integer => 7,
        Keyword::Short => 5,
    }
}

} // verus!
