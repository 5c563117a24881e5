//! Where the confidence map of a depth map is.

use vstd::prelude::*;
use vstd::string::*;
use vstd::utf8::*;

use crate::names::PathName;
use crate::text::{ascii, law_ascii_is_utf8};

verus! {

/// `bytes` with every occurrence of `from` replaced by `to`; occurrences are
/// taken from the left and do not overlap.
pub open spec fn replaced(bytes: Seq<u8>, from: Seq<u8>, to: Seq<u8>) -> Seq<u8>
    decreases bytes.len(),
{
    if bytes.len() == 0 || from.len() == 0 {
        bytes
    } else if from.is_prefix_of(bytes) {
        to + replaced(bytes.skip(from.len() as int), from, to)
    } else {
        seq![bytes.first()] + replaced(bytes.drop_first(), from, to)
    }
}

/// The ending of a depth map's file name.
pub open spec fn depth_ending() -> Seq<u8> {
    ascii("_depth.bin"@)
}

/// The ending of a confidence map's file name.
pub open spec fn confidence_ending() -> Seq<u8> {
    ascii("_confidence.bin"@)
}

/// Whether `part` occurs in `bytes` at place `at`.
pub open spec fn occurs_at(bytes: Seq<u8>, part: Seq<u8>, at: int) -> bool {
    0 <= at && at + part.len() <= bytes.len() && bytes.subrange(at, at + part.len()) == part
}

/// Calls `std::str::from_utf8`, which succeeds exactly on bytes that are valid
/// UTF-8.
#[verifier::external_body]
fn is_utf8(bytes: &[u8]) -> (valid: bool)
    ensures
        valid == valid_utf8(bytes@),
{
    std::str::from_utf8(bytes).is_ok()
}

/// The bytes of an ASCII text.
fn ascii_bytes(text: &str) -> (bytes: Vec<u8>)
    requires
        is_ascii_chars(text@),
    ensures
        bytes@ == ascii(text@),
{
    proof {
        is_ascii_chars_encode_utf8(text@);
    }
    let mut bytes: Vec<u8> = Vec::new();
    bytes.extend_from_slice(text.as_bytes());
    assert(bytes@ =~= ascii(text@));
    bytes
}

/// Whether `part` occurs in `bytes` at place `at`.
fn matches_at(bytes: &Vec<u8>, part: &Vec<u8>, at: usize) -> (r: bool)
    requires
        at <= bytes@.len(),
    ensures
        r == part@.is_prefix_of(bytes@.skip(at as int)),
{
    if part.len() > bytes.len() - at {
        return false;
    }
    let mut i: usize = 0;
    while i < part.len()
        invariant
            i <= part@.len(),
            part@.len() == part.len(),
            bytes@.len() == bytes.len(),
            at + part@.len() <= bytes@.len(),
            forall|j: int| 0 <= j < i ==> part@[j] == bytes@[at + j],
        decreases part.len() - i,
    {
        if part[i] != bytes[at + i] {
            proof {
                let rest = bytes@.skip(at as int);
                assert(rest.subrange(0, part@.len() as int)[i as int] == bytes@[at + i]);
            }
            return false;
        }
        i = i + 1;
    }
    assert(bytes@.skip(at as int).subrange(0, part@.len() as int) =~= part@);
    true
}

/// `bytes` with every occurrence of `from` replaced by `to`.
fn replace(bytes: &Vec<u8>, from: &Vec<u8>, to: &Vec<u8>) -> (out: Vec<u8>)
    requires
        from@.len() > 0,
    ensures
        out@ == replaced(bytes@, from@, to@),
{
    let mut out: Vec<u8> = Vec::new();
    let mut i: usize = 0;
    assert(bytes@.skip(0) =~= bytes@);
    while i < bytes.len()
        invariant
            i <= bytes@.len(),
            from@.len() > 0,
            bytes@.len() == bytes.len(),
            out@ + replaced(bytes@.skip(i as int), from@, to@) == replaced(bytes@, from@, to@),
        decreases bytes.len() - i,
    {
        let ghost rest = bytes@.skip(i as int);
        let ghost before = out@;
        if matches_at(bytes, from, i) {
            proof {
                assert(rest.skip(from@.len() as int) =~= bytes@.skip(i + from@.len()));
            }
            out.extend_from_slice(to.as_slice());
            i = i + from.len();
            assert(out@ + replaced(bytes@.skip(i as int), from@, to@) =~= before + replaced(
                rest,
                from@,
                to@,
            ));
        } else {
            proof {
                assert(rest.drop_first() =~= bytes@.skip(i + 1));
            }
            out.push(bytes[i]);
            i = i + 1;
            assert(out@ + replaced(bytes@.skip(i as int), from@, to@) =~= before + replaced(
                rest,
                from@,
                to@,
            ));
        }
    }
    assert(out@ + replaced(bytes@.skip(i as int), from@, to@) =~= out@);
    out
}

/// The path of the confidence map that belongs to the depth map at `path`;
/// `None` where `path` is not UTF-8.
pub fn confidence_path(path: &PathName) -> (found: Option<PathName>)
    ensures
        match found {
            Some(p) => valid_utf8(path@) && p@ == replaced(
                path@,
                depth_ending(),
                confidence_ending(),
            ),
            None => !valid_utf8(path@),
        },
{
    if !is_utf8(path.bytes.as_slice()) {
        return None;
    }
    proof {
        reveal_strlit("_depth.bin");
        reveal_strlit("_confidence.bin");
    }
    let from = ascii_bytes("_depth.bin");
    let to = ascii_bytes("_confidence.bin");
    Some(PathName { bytes: replace(&path.bytes, &from, &to) })
}

/// A path in which the ending of depth maps does not occur is its own
/// confidence path.
pub proof fn law_other_paths_stay(path: Seq<u8>)
    requires
        forall|at: int| !occurs_at(path, depth_ending(), at),
    ensures
        replaced(path, depth_ending(), confidence_ending()) == path,
    decreases path.len(),
{
    let d = depth_ending();
    if path.len() > 0 {
        assert(!d.is_prefix_of(path)) by {
            assert(!occurs_at(path, d, 0));
        }
        assert forall|at: int| !occurs_at(path.drop_first(), d, at) by {
            assert(!occurs_at(path, d, at + 1));
            if occurs_at(path.drop_first(), d, at) {
                assert(path.subrange(at + 1, at + 1 + d.len()) =~= path.drop_first().subrange(
                    at,
                    at + d.len(),
                ));
            }
        }
        law_other_paths_stay(path.drop_first());
        assert(seq![path.first()] + path.drop_first() =~= path);
    }
}

/// The confidence map of `X_depth.bin` is `X_confidence.bin`, for every `X` in
/// which the ending of depth maps does not itself occur.
pub proof fn law_confidence_beside_depth(stem: Seq<u8>)
    requires
        forall|at: int| !occurs_at(stem, depth_ending(), at),
    ensures
        replaced(stem + depth_ending(), depth_ending(), confidence_ending()) == stem
            + confidence_ending(),
    decreases stem.len(),
{
    reveal_strlit("_depth.bin");
    let d = depth_ending();
    let c = confidence_ending();
    let path = stem + d;
    if stem.len() == 0 {
        assert(path =~= d);
        assert(d.subrange(0, d.len() as int) =~= d);
        assert(d.is_prefix_of(path));
        assert(path.skip(d.len() as int) =~= Seq::<u8>::empty());
        assert(replaced(Seq::<u8>::empty(), d, c) =~= Seq::<u8>::empty());
        assert(replaced(path, d, c) =~= c);
        assert(stem + c =~= c);
    } else {
        assert(!d.is_prefix_of(path)) by {
            if d.is_prefix_of(path) {
                let n = stem.len() as int;
                if n >= d.len() {
                    assert(stem.subrange(0, d.len() as int) =~= path.subrange(0, d.len() as int));
                    assert(occurs_at(stem, d, 0));
                } else {
                    assert(path.subrange(0, d.len() as int)[n] == path[n]);
                    assert(path[n] == d[0]);
                    assert(d[n] == d[0]);
                }
            }
        }
        let rest = stem.drop_first();
        assert forall|at: int| !occurs_at(rest, d, at) by {
            assert(!occurs_at(stem, d, at + 1));
            if occurs_at(rest, d, at) {
                assert(stem.subrange(at + 1, at + 1 + d.len()) =~= rest.subrange(
                    at,
                    at + d.len(),
                ));
            }
        }
        law_confidence_beside_depth(rest);
        assert(path.drop_first() =~= rest + d);
        assert(seq![path.first()] + (rest + c) =~= stem + c);
    }
}

/// A depth map's ending is replaced wherever it occurs: after the first
/// occurrence, behind `stem`, the rest is treated as a path by itself.
pub proof fn law_every_ending_is_replaced(stem: Seq<u8>, rest: Seq<u8>)
    requires
        forall|at: int| !occurs_at(stem, encode_utf8("_depth.bin"@), at),
    ensures
        replaced(
            stem + encode_utf8("_depth.bin"@) + rest,
            depth_ending(),
            confidence_ending(),
        ) == stem + encode_utf8("_confidence.bin"@) + replaced(
            rest,
            depth_ending(),
            confidence_ending(),
        ),
    decreases stem.len(),
{
    reveal_strlit("_depth.bin");
    reveal_strlit("_confidence.bin");
    law_ascii_is_utf8("_depth.bin"@);
    law_ascii_is_utf8("_confidence.bin"@);
    let d = depth_ending();
    let c = confidence_ending();
    let path = stem + d + rest;
    if stem.len() == 0 {
        assert(path.subrange(0, d.len() as int) =~= d);
        assert(d.is_prefix_of(path));
        assert(path.skip(d.len() as int) =~= rest);
        assert(stem + c + replaced(rest, d, c) =~= c + replaced(rest, d, c));
    } else {
        assert(!d.is_prefix_of(path)) by {
            if d.is_prefix_of(path) {
                let n = stem.len() as int;
                if n >= d.len() {
                    assert(stem.subrange(0, d.len() as int) =~= path.subrange(0, d.len() as int));
                    assert(occurs_at(stem, d, 0));
                } else {
                    assert(path.subrange(0, d.len() as int)[n] == path[n]);
                    assert(path[n] == d[0]);
                    assert(d[n] == d[0]);
                }
            }
        }
        let shorter = stem.drop_first();
        assert forall|at: int| !occurs_at(shorter, d, at) by {
            assert(!occurs_at(stem, d, at + 1));
            if occurs_at(shorter, d, at) {
                assert(stem.subrange(at + 1, at + 1 + d.len()) =~= shorter.subrange(
                    at,
                    at + d.len(),
                ));
            }
        }
        law_every_ending_is_replaced(shorter, rest);
        assert(path.drop_first() =~= shorter + d + rest);
        assert(seq![path.first()] + (shorter + c + replaced(rest, d, c)) =~= stem + c + replaced(
            rest,
            d,
            c,
        ));
    }
}

/// A part occurs in bytes where these are the part, byte for byte.
pub proof fn law_occurrence(bytes: Seq<u8>, part: Seq<u8>, at: int)
    ensures
        occurs_at(bytes, part, at) <==> (0 <= at && at + part.len() <= bytes.len() && forall|i: int|
            0 <= i < part.len() ==> bytes[at + i] == #[trigger] part[i]),
{
    if 0 <= at && at + part.len() <= bytes.len() {
        let there = bytes.subrange(at, at + part.len());
        if forall|i: int| 0 <= i < part.len() ==> bytes[at + i] == #[trigger] part[i] {
            assert(there =~= part);
        }
        if there == part {
            assert forall|i: int| 0 <= i < part.len() implies bytes[at + i] == #[trigger] part[i] by {
                assert(there[i] == part[i]);
            }
        }
    }
}

} // verus!
