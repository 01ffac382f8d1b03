//! The deterministic surrogate join key: a 64-bit FNV-1a hash over the
//! Budapest-local calendar date of a record's defining instant and its
//! subject uid.
//!
//! Records with the same local date and the same subject uid always produce
//! the same key, in every process and on every machine; collisions are an
//! accepted limitation and are not corrected.

use vstd::prelude::*;
use vstd::utf8::encode_utf8;
use vstd::wrapping::u64_specs;

use crate::clock::{bud_ymd, budapest_year_month_day};
use crate::stamp::Timestamp;

verus! {

/// FNV-1a over a byte sequence, 64-bit.
pub open spec fn fnv1a(s: Seq<u8>) -> u64
    decreases s.len(),
{
    if s.len() == 0 {
        14695981039346656037u64
    } else {
        u64_specs::wrapping_mul(fnv1a(s.drop_last()) ^ (s.last() as u64), 1099511628211u64)
    }
}

/// The four little-endian bytes of a value below 2^32.
pub open spec fn le4(x: int) -> Seq<u8> {
    seq![
        (x % 256) as u8,
        ((x / 256) % 256) as u8,
        ((x / 65536) % 256) as u8,
        ((x / 16777216) % 256) as u8,
    ]
}

/// The Budapest-local calendar date of an instant, folded into one number:
/// year * 10000 + month * 100 + day.
pub open spec fn local_date_code(t: int) -> int {
    bud_ymd(t).0 * 10000 + bud_ymd(t).1 * 100 + bud_ymd(t).2
}

/// The surrogate key of a record whose defining instant is `t` and whose
/// subject uid reads `uid`: FNV-1a over the local date code's bytes followed
/// by the uid's UTF-8 bytes.
pub open spec fn surrogate_key(t: int, uid: Seq<char>) -> u64 {
    fnv1a(le4(local_date_code(t)) + encode_utf8(uid))
}

/// FNV-1a over the bytes of a vector.
pub(crate) fn fnv1a_bytes(data: &Vec<u8>) -> (h: u64)
    ensures
        h == fnv1a(data@),
{
    let mut h: u64 = 14695981039346656037;
    let mut i: usize = 0;
    proof {
        assert(data@.subrange(0, 0) =~= Seq::<u8>::empty());
    }
    while i < data.len()
        invariant
            i <= data@.len(),
            h == fnv1a(data@.subrange(0, i as int)),
        decreases data@.len() - i,
    {
        h = (h ^ (data[i] as u64)).wrapping_mul(1099511628211);
        i = i + 1;
        proof {
            let p = data@.subrange(0, i as int);
            assert(p.drop_last() =~= data@.subrange(0, i as int - 1));
            assert(p.last() == data@[i as int - 1]);
        }
    }
    proof {
        assert(data@.subrange(0, data@.len() as int) =~= data@);
    }
    h
}

/// The surrogate key of the pair (defining instant, subject uid).
pub fn compute_surrogate_key(t: Timestamp, subject_uid: &str) -> (r: u64)
    requires
        t.in_window(),
    ensures
        r == surrogate_key(t.secs as int, subject_uid@),
{
    let (y, m, d) = budapest_year_month_day(t.secs);
    let code: u64 = (y as u64) * 10000 + (m as u64) * 100 + (d as u64);
    let mut data: Vec<u8> = Vec::new();
    data.push((code % 256) as u8);
    data.push(((code / 256) % 256) as u8);
    data.push(((code / 65536) % 256) as u8);
    data.push(((code / 16777216) % 256) as u8);
    let mut uid_bytes = subject_uid.as_bytes_vec();
    proof {
        assert(data@ =~= le4(local_date_code(t.secs as int)));
    }
    data.append(&mut uid_bytes);
    proof {
        assert(data@ =~= le4(local_date_code(t.secs as int)) + encode_utf8(subject_uid@));
    }
    fnv1a_bytes(&data)
}

/// Two records with the same local calendar date and the same subject uid
/// always produce the same surrogate key, regardless of their time of day or
/// which stream they came from.
pub proof fn lemma_surrogate_key_same_date(t1: int, t2: int, uid: Seq<char>)
    requires
        bud_ymd(t1) == bud_ymd(t2),
    ensures
        surrogate_key(t1, uid) == surrogate_key(t2, uid),
{
}

} // verus!
