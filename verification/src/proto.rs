//! Decoding the persisted transducer.
//!
//! The persisted form is a concatenation of length-delimited records; each
//! record carries the six transition fields under fixed numeric tags: the
//! symbol (1), the last-of-state flag (2), the final-state flag (3), the
//! next pointer (4), the output (5) and the final output (6). Numeric fields
//! are variable-length unsigned integers; the two string fields are
//! length-delimited UTF-8. Later occurrences of a field overwrite earlier
//! ones, missing fields keep their defaults, and a truncated or malformed
//! record, an unknown tag or invalid UTF-8 refuses the whole stream.

use vstd::prelude::*;
use vstd::utf8::decode_utf8;
use vstd::utf8::valid_utf8;

use crate::chars::string_from_utf8;
use crate::fst::TransData;
use crate::fst::Transition;
use crate::small_string::SmallString;

verus! {

/// The field values of a record before any field is read.
pub open spec fn default_record() -> TransData {
    TransData {
        symbol: 0,
        is_last_of_state: false,
        is_final_state: false,
        next: 0,
        output: Seq::empty(),
        final_output: Seq::empty(),
    }
}

/// A variable-length unsigned integer at `i`, confined to `bytes[..end]`:
/// its value and the position after it. Seven value bits per byte, least
/// significant group first; encodings of more than ten bytes or beyond
/// `u64` are refused.
pub open spec fn spec_varint(bytes: Seq<u8>, i: int, end: int) -> Option<(u64, int)>
    decreases end - i,
{
    if i < 0 || i >= end || end > bytes.len() {
        None
    } else {
        let b = bytes[i];
        if b < 0x80 {
            Some(((b & 0x7f) as u64, i + 1))
        } else {
            match spec_varint(bytes, i + 1, end) {
                None => None,
                Some(vn) => {
                    let val = (b & 0x7f) as int + vn.0 as int * 128;
                    if vn.1 - i > 10 || val > u64::MAX as int {
                        None
                    } else {
                        Some((val as u64, vn.1))
                    }
                },
            }
        }
    }
}

pub proof fn lemma_spec_varint_props(bytes: Seq<u8>, i: int, end: int)
    ensures
        spec_varint(bytes, i, end) matches Some(vn) ==> i < vn.1 <= end <= bytes.len(),
    decreases end - i,
{
    if i < 0 || i >= end || end > bytes.len() {
    } else if bytes[i] >= 0x80 {
        lemma_spec_varint_props(bytes, i + 1, end);
    }
}

/// The fields of one record, read from `bytes[i..end)` over the accumulated
/// values `acc`.
pub open spec fn spec_fields(bytes: Seq<u8>, i: int, end: int, acc: TransData) -> Option<TransData>
    decreases end - i,
    via spec_fields_decreases
{
    if i < 0 || i > end || end > bytes.len() {
        None
    } else if i == end {
        Some(acc)
    } else {
        match spec_varint(bytes, i, end) {
            None => None,
            Some(kj) => {
                let key = kj.0;
                let j = kj.1;
                let field = key >> 3;
                let wire = key & 7;
                if wire == 0 && 1 <= field <= 4 {
                    match spec_varint(bytes, j, end) {
                        None => None,
                        Some(vj) => {
                            let v = vj.0;
                            let j2 = vj.1;
                            if field == 1 {
                                if v > u32::MAX as u64 {
                                    None
                                } else {
                                    spec_fields(
                                        bytes,
                                        j2,
                                        end,
                                        TransData { symbol: v as u32, ..acc },
                                    )
                                }
                            } else if field == 2 {
                                spec_fields(
                                    bytes,
                                    j2,
                                    end,
                                    TransData { is_last_of_state: v != 0, ..acc },
                                )
                            } else if field == 3 {
                                spec_fields(
                                    bytes,
                                    j2,
                                    end,
                                    TransData { is_final_state: v != 0, ..acc },
                                )
                            } else {
                                if v > u32::MAX as u64 {
                                    None
                                } else {
                                    spec_fields(bytes, j2, end, TransData { next: v as u32, ..acc })
                                }
                            }
                        },
                    }
                } else if wire == 2 && (field == 5 || field == 6) {
                    match spec_varint(bytes, j, end) {
                        None => None,
                        Some(nj) => {
                            let n = nj.0;
                            let j2 = nj.1;
                            if n as int > end - j2 {
                                None
                            } else {
                                let chunk = bytes.subrange(j2, j2 + n);
                                if !valid_utf8(chunk) {
                                    None
                                } else if field == 5 {
                                    spec_fields(
                                        bytes,
                                        j2 + n,
                                        end,
                                        TransData { output: decode_utf8(chunk), ..acc },
                                    )
                                } else {
                                    spec_fields(
                                        bytes,
                                        j2 + n,
                                        end,
                                        TransData { final_output: decode_utf8(chunk), ..acc },
                                    )
                                }
                            }
                        },
                    }
                } else {
                    None
                }
            },
        }
    }
}

#[via_fn]
proof fn spec_fields_decreases(bytes: Seq<u8>, i: int, end: int, acc: TransData) {
    lemma_spec_varint_props(bytes, i, end);
    if spec_varint(bytes, i, end) is Some {
        let j = spec_varint(bytes, i, end).unwrap().1;
        lemma_spec_varint_props(bytes, j, end);
    }
}

/// The record stream from position `i` on: each record is a length prefix
/// followed by that many bytes of fields.
pub open spec fn spec_records(bytes: Seq<u8>, i: int) -> Option<Seq<TransData>>
    decreases bytes.len() - i,
    via spec_records_decreases
{
    if i < 0 || i > bytes.len() {
        None
    } else if i == bytes.len() {
        Some(Seq::empty())
    } else {
        match spec_varint(bytes, i, bytes.len() as int) {
            None => None,
            Some(lj) => {
                let l = lj.0;
                let j = lj.1;
                if l as int > bytes.len() - j {
                    None
                } else {
                    match spec_fields(bytes, j, j + l, default_record()) {
                        None => None,
                        Some(td) => match spec_records(bytes, j + l) {
                            None => None,
                            Some(rest) => Some(seq![td] + rest),
                        },
                    }
                }
            },
        }
    }
}

#[via_fn]
proof fn spec_records_decreases(bytes: Seq<u8>, i: int) {
    lemma_spec_varint_props(bytes, i, bytes.len() as int);
}

/// The transition table encoded by a full byte stream.
pub open spec fn spec_decode(bytes: Seq<u8>) -> Option<Seq<TransData>> {
    spec_records(bytes, 0)
}

fn read_varint(data: &Vec<u8>, i: usize, end: usize) -> (r: Option<(u64, usize)>)
    requires
        end <= data@.len(),
    ensures
        match r {
            Some(vn) => spec_varint(data@, i as int, end as int) == Some((vn.0, vn.1 as int)) && i
                < vn.1 <= end,
            None => spec_varint(data@, i as int, end as int) is None,
        },
    decreases end - i,
{
    if i >= end {
        return None;
    }
    let b = data[i];
    if b < 0x80 {
        return Some((((b & 0x7f) as u64), i + 1));
    }
    match read_varint(data, i + 1, end) {
        None => None,
        Some((v, j)) => {
            if j - i > 10 {
                None
            } else if v > (u64::MAX - 127) / 128 {
                proof {
                    assert((b & 0x7f) as int + v as int * 128 > u64::MAX as int);
                }
                None
            } else {
                proof {
                    assert((b & 0x7f) < 0x80) by (bit_vector);
                    assert((b & 0x7f) as int + v as int * 128 <= u64::MAX as int);
                }
                Some(((b & 0x7f) as u64 + v * 128, j))
            }
        },
    }
}

fn copy_bytes(data: &Vec<u8>, a: usize, b: usize) -> (r: Vec<u8>)
    requires
        a <= b <= data@.len(),
    ensures
        r@ == data@.subrange(a as int, b as int),
{
    let mut r: Vec<u8> = Vec::new();
    let mut j = a;
    while j < b
        invariant
            a <= j <= b <= data@.len(),
            r@ == data@.subrange(a as int, j as int),
        decreases b - j,
    {
        r.push(data[j]);
        proof {
            assert(data@.subrange(a as int, j + 1 as int) =~= data@.subrange(a as int, j as int).push(
                data@[j as int],
            ));
        }
        j = j + 1;
    }
    proof {
        assert(r@ =~= data@.subrange(a as int, b as int));
    }
    r
}

/// Read the fields of one record.
fn read_fields(data: &Vec<u8>, start: usize, end: usize) -> (r: Option<Transition>)
    requires
        start <= end <= data@.len(),
    ensures
        match r {
            Some(tr) => spec_fields(data@, start as int, end as int, default_record()) == Some(tr@)
                && tr.wf(),
            None => spec_fields(data@, start as int, end as int, default_record()) is None,
        },
{
    let mut symbol: u32 = 0;
    let mut is_last_of_state = false;
    let mut is_final_state = false;
    let mut next: u32 = 0;
    let mut output = SmallString::from_str_slice("");
    let mut final_output = SmallString::from_str_slice("");
    proof {
        reveal_strlit("");
        assert(""@ =~= Seq::<char>::empty());
    }
    let mut pos = start;
    loop
        invariant
            start <= pos <= end <= data@.len(),
            output.wf(),
            final_output.wf(),
            spec_fields(data@, start as int, end as int, default_record()) == spec_fields(
                data@,
                pos as int,
                end as int,
                TransData {
                    symbol: symbol,
                    is_last_of_state: is_last_of_state,
                    is_final_state: is_final_state,
                    next: next,
                    output: output@,
                    final_output: final_output@,
                },
            ),
        decreases end - pos,
    {
        if pos >= end {
            let tr = Transition { symbol, is_last_of_state, is_final_state, next, output, final_output };
            return Some(tr);
        }
        let (key, j) = match read_varint(data, pos, end) {
            None => {
                return None;
            },
            Some(kj) => kj,
        };
        let field = key >> 3u64;
        let wire = key & 7u64;
        if wire == 0 && 1 <= field && field <= 4 {
            let (v, j2) = match read_varint(data, j, end) {
                None => {
                    return None;
                },
                Some(vj) => vj,
            };
            if field == 1 {
                if v > u32::MAX as u64 {
                    return None;
                }
                symbol = v as u32;
            } else if field == 2 {
                is_last_of_state = v != 0;
            } else if field == 3 {
                is_final_state = v != 0;
            } else {
                if v > u32::MAX as u64 {
                    return None;
                }
                next = v as u32;
            }
            pos = j2;
        } else if wire == 2 && (field == 5 || field == 6) {
            let (n, j2) = match read_varint(data, j, end) {
                None => {
                    return None;
                },
                Some(nj) => nj,
            };
            if n > (end - j2) as u64 {
                return None;
            }
            let nn = n as usize;
            let chunk = copy_bytes(data, j2, j2 + nn);
            let s = match string_from_utf8(chunk) {
                None => {
                    return None;
                },
                Some(s) => s,
            };
            let ss = SmallString::from_string(s);
            if field == 5 {
                output = ss;
            } else {
                final_output = ss;
            }
            pos = j2 + nn;
        } else {
            return None;
        }
    }
}

/// Decode the whole record stream into a transition list.
pub fn decode_transitions(data: &Vec<u8>) -> (r: Option<Vec<Transition>>)
    ensures
        match r {
            Some(ts) => spec_decode(data@) == Some(ts@.map_values(|tr: Transition| tr@))
                && forall|j: int| 0 <= j < ts@.len() ==> (#[trigger] ts@[j]).wf(),
            None => spec_decode(data@) is None,
        },
{
    let mut ts: Vec<Transition> = Vec::new();
    let mut pos: usize = 0;
    let n = data.len();
    loop
        invariant
            pos <= n,
            n == data@.len(),
            forall|j: int| 0 <= j < ts@.len() ==> (#[trigger] ts@[j]).wf(),
            match spec_records(data@, pos as int) {
                Some(rest) => spec_decode(data@) == Some(
                    ts@.map_values(|tr: Transition| tr@) + rest,
                ),
                None => spec_records(data@, 0) is None,
            },
        decreases n - pos,
    {
        if pos >= n {
            proof {
                assert(spec_records(data@, pos as int) == Some(Seq::<TransData>::empty()));
                assert(ts@.map_values(|tr: Transition| tr@) + Seq::<TransData>::empty()
                    =~= ts@.map_values(|tr: Transition| tr@));
            }
            return Some(ts);
        }
        let (l, j) = match read_varint(data, pos, n) {
            None => {
                return None;
            },
            Some(lj) => lj,
        };
        if l > (n - j) as u64 {
            return None;
        }
        let ll = l as usize;
        let tr = match read_fields(data, j, j + ll) {
            None => {
                return None;
            },
            Some(tr) => tr,
        };
        let ghost old_map = ts@.map_values(|t2: Transition| t2@);
        let ghost trd = tr@;
        ts.push(tr);
        proof {
            assert(ts@.map_values(|t2: Transition| t2@) =~= old_map + seq![trd]);
            match spec_records(data@, j + ll) {
                Some(rest2) => {
                    assert(spec_records(data@, pos as int) == Some(seq![trd] + rest2));
                    assert(old_map + (seq![trd] + rest2) =~= (old_map + seq![trd]) + rest2);
                },
                None => {},
            }
        }
        pos = j + ll;
    }
}

} // verus!
