//! The routing-metadata envelope of the tagged protocol.
//!
//! The metadata segment of a tagged frame is a sequence of numbered,
//! wire-typed fields: each field starts with a base-128 length-prefixed
//! integer (a varint) holding `field_number * 8 + wire_type`, followed by the
//! field's content. A request carries, inside length-delimited field 1, the
//! service name (field 1) and the method name (field 2); a response carries,
//! inside length-delimited field 2, a numeric error code (field 1). A decoder
//! skips fields it does not know, and when a field repeats the last
//! occurrence wins.
//!
//! Wire types: 0 is a varint, 1 an eight-byte scalar, 2 a length-delimited
//! byte string, 5 a four-byte scalar. Varints are capped at ten bytes and at
//! `u64::MAX`; field number 0 is invalid.
use vstd::prelude::*;

use crate::error::MetaErr;

verus! {

/// Structured request metadata: which service, which method.
#[derive(Debug, Clone, PartialEq, Eq)]
pub struct RequestMeta {
    pub service_name: Vec<u8>,
    pub method_name: Vec<u8>,
}

/// Structured response metadata: the outcome code (`0` means success).
#[derive(Debug, Clone, Copy, PartialEq, Eq, Structural)]
pub struct ResponseMeta {
    pub error_code: u64,
}

/// How many bytes the varint at the front of `b` occupies, or `-1` if `b`
/// ends inside it.
pub open spec fn vint_end(b: Seq<u8>) -> int
    decreases b.len(),
{
    if b.len() == 0 {
        -1
    } else if b[0] < 0x80 {
        1
    } else {
        let r = vint_end(b.skip(1));
        if r == -1 {
            -1
        } else {
            1 + r
        }
    }
}

/// The value of the varint at the front of `b` (meaningful when `vint_end`
/// is not `-1`).
pub open spec fn vint_val(b: Seq<u8>) -> nat
    decreases b.len(),
{
    if b.len() == 0 {
        0
    } else if b[0] < 0x80 {
        b[0] as nat
    } else {
        (b[0] - 0x80) as nat + 128 * vint_val(b.skip(1))
    }
}

/// The varint at the front of `b` is well formed: it terminates within the
/// buffer, within ten bytes, and its value fits a `u64`.
pub open spec fn vint_ok(b: Seq<u8>) -> bool {
    1 <= vint_end(b) <= b.len() && vint_end(b) <= 10 && vint_val(b) <= u64::MAX
}

/// The canonical varint encoding of `n`: seven value bits per byte, least
/// significant group first, the high bit marking continuation.
pub open spec fn vint_enc(n: nat) -> Seq<u8>
    decreases n,
{
    if n < 0x80 {
        seq![n as u8]
    } else {
        seq![(0x80 + n % 0x80) as u8] + vint_enc(n / 0x80)
    }
}

/// 128 to the `k`-th power: the number of values `k` varint bytes can carry.
pub open spec fn exp128(k: nat) -> nat
    decreases k,
{
    if k == 0 {
        1
    } else {
        128 * exp128((k - 1) as nat)
    }
}

/// An encoding of a value below `exp128(k)` takes at most `k` bytes.
proof fn lemma_vint_enc_len_k(n: nat, k: nat)
    requires
        k >= 1,
        n < exp128(k),
    ensures
        1 <= vint_enc(n).len() <= k,
    decreases k,
{
    if n >= 0x80 {
        assert(exp128(k) == 128 * exp128((k - 1) as nat));
        assert(n / 0x80 < exp128((k - 1) as nat)) by (nonlinear_arith)
            requires
                n < 128 * exp128((k - 1) as nat),
        ;
        assert(k >= 2) by {
            if k == 1 {
                assert(exp128(1nat) == 128);
            }
        }
        lemma_vint_enc_len_k(n / 0x80, (k - 1) as nat);
    }
}

/// The encoding of a `u64`-sized value takes at most ten bytes.
pub proof fn lemma_vint_enc_len(n: nat)
    requires
        n <= u64::MAX,
    ensures
        1 <= vint_enc(n).len() <= 10,
{
    assert(exp128(0) == 1);
    assert(exp128(1) == 0x80);
    assert(exp128(2) == 0x4000);
    assert(exp128(3) == 0x200000);
    assert(exp128(4) == 0x10000000);
    assert(exp128(5) == 0x800000000);
    assert(exp128(6) == 0x40000000000);
    assert(exp128(7) == 0x2000000000000);
    assert(exp128(8) == 0x100000000000000);
    assert(exp128(9) == 0x8000000000000000);
    assert(exp128(10) == 0x400000000000000000);
    lemma_vint_enc_len_k(n, 10);
}

/// Round trip: a canonical encoding at the front of a buffer decodes to the
/// value it was built from, occupies exactly its own bytes, and leaves the
/// rest of the buffer untouched.
pub proof fn lemma_vint_round(n: nat, rest: Seq<u8>)
    requires
        n <= u64::MAX,
    ensures
        vint_ok(vint_enc(n) + rest),
        vint_end(vint_enc(n) + rest) == vint_enc(n).len(),
        vint_val(vint_enc(n) + rest) == n,
        (vint_enc(n) + rest).skip(vint_enc(n).len() as int) == rest,
    decreases n,
{
    lemma_vint_enc_len(n);
    let b = vint_enc(n) + rest;
    if n < 0x80 {
        assert(b[0] == n as u8);
        assert(b.skip(1) =~= rest);
    } else {
        assert(b[0] == (0x80 + n % 0x80) as u8);
        assert(b[0] >= 0x80);
        assert(b.skip(1) =~= vint_enc(n / 0x80) + rest);
        lemma_vint_round(n / 0x80, rest);
        assert(vint_end(b) == 1 + vint_end(b.skip(1)));
        assert(vint_val(b) == (b[0] - 0x80) as nat + 128 * vint_val(b.skip(1)));
        assert((b[0] - 0x80) as nat == n % 0x80);
        assert(n % 0x80 + 128 * (n / 0x80) == n) by (nonlinear_arith);
        assert(b.skip(vint_enc(n).len() as int) =~= rest) by {
            assert(b.skip(vint_enc(n).len() as int) =~= b.skip(1).skip(
                vint_enc(n / 0x80).len() as int,
            ));
        }
    }
}

/// Reads the varint starting at `pos`, returning its value and the offset
/// just past it. Fails if the buffer ends inside the varint, if it runs
/// over ten bytes, or if the value exceeds `u64::MAX`.
pub fn read_varint(b: &[u8], pos: usize) -> (r: Result<(u64, usize), MetaErr>)
    requires
        pos <= b@.len(),
    ensures
        r matches Ok((v, end)) ==> vint_ok(b@.skip(pos as int)) && vint_end(b@.skip(pos as int))
            == end - pos && vint_val(b@.skip(pos as int)) == v && pos < end <= b@.len(),
        r is Err ==> !vint_ok(b@.skip(pos as int)),
    decreases b@.len() - pos,
{
    let ghost s = b@.skip(pos as int);
    if pos >= b.len() {
        assert(s.len() == 0);
        return Err(MetaErr::Truncated);
    }
    let x = b[pos];
    proof {
        assert(s[0] == b@[pos as int]);
    }
    if x < 0x80 {
        Ok((x as u64, pos + 1))
    } else {
        proof {
            assert(s.skip(1) =~= b@.skip(pos + 1));
        }
        match read_varint(b, pos + 1) {
            Err(e) => {
                proof {
                    if vint_ok(s) {
                        // the inner varint would be well formed too
                        assert(vint_end(s) == 1 + vint_end(s.skip(1)));
                        assert(vint_val(s) == (x - 0x80) as nat + 128 * vint_val(s.skip(1)));
                        assert(vint_ok(s.skip(1)));
                    }
                }
                Err(e)
            },
            Ok((v, end)) => {
                proof {
                    assert(vint_end(s) == 1 + vint_end(s.skip(1)));
                    assert(vint_val(s) == (x - 0x80) as nat + 128 * vint_val(s.skip(1)));
                }
                if end - pos > 10 {
                    return Err(MetaErr::BadVarint);
                }
                let low = (x - 0x80) as u64;
                if v > (u64::MAX - low) / 128 {
                    proof {
                        assert(low + 128 * v > u64::MAX) by (nonlinear_arith)
                            requires
                                v > (u64::MAX - low) / 128,
                                low <= 127,
                        ;
                    }
                    return Err(MetaErr::BadVarint);
                }
                proof {
                    assert(low + 128 * v <= u64::MAX) by (nonlinear_arith)
                        requires
                            v <= (u64::MAX - low) / 128,
                            low <= 127,
                    ;
                }
                Ok((low + 128 * v, end))
            },
        }
    }
}

/// Appends the canonical varint encoding of `n` to `out`.
pub fn write_varint(out: &mut Vec<u8>, n: u64)
    ensures
        final(out)@ == old(out)@ + vint_enc(n as nat),
    decreases n,
{
    if n < 0x80 {
        out.push(n as u8);
        assert(out@ =~= old(out)@ + vint_enc(n as nat));
    } else {
        out.push((0x80 + (n % 0x80)) as u8);
        let ghost mid = out@;
        write_varint(out, n / 0x80);
        proof {
            assert(vint_enc(n as nat) == seq![(0x80 + (n as nat) % 0x80) as u8] + vint_enc(
                (n as nat) / 0x80,
            ));
            assert(out@ =~= old(out)@ + vint_enc(n as nat));
        }
    }
}

/// The byte range `b` must hold so that it reads as a well-formed sequence
/// of fields: each field is a valid tag varint (field number at least one)
/// followed by content of the length its wire type dictates.
pub open spec fn fields_ok(b: Seq<u8>) -> bool
    decreases b.len(),
{
    if b.len() == 0 {
        true
    } else if !vint_ok(b) {
        false
    } else {
        let tag = vint_val(b);
        let rest = b.skip(vint_end(b));
        if tag < 8 {
            false
        } else if tag % 8 == 0 {
            vint_ok(rest) && fields_ok(rest.skip(vint_end(rest)))
        } else if tag % 8 == 1 {
            rest.len() >= 8 && fields_ok(rest.skip(8))
        } else if tag % 8 == 2 {
            vint_ok(rest) && vint_end(rest) + vint_val(rest) <= rest.len() && fields_ok(
                rest.skip(vint_end(rest) + vint_val(rest)),
            )
        } else if tag % 8 == 5 {
            rest.len() >= 4 && fields_ok(rest.skip(4))
        } else {
            false
        }
    }
}

/// The content of the last length-delimited field numbered `fno` in `b`,
/// if any (meaningful when `fields_ok(b)` holds).
pub open spec fn field_val(b: Seq<u8>, fno: nat) -> Option<Seq<u8>>
    decreases b.len(),
{
    if b.len() == 0 || !vint_ok(b) {
        None
    } else {
        let tag = vint_val(b);
        let rest = b.skip(vint_end(b));
        if tag < 8 {
            None
        } else if tag % 8 == 0 {
            if vint_ok(rest) {
                field_val(rest.skip(vint_end(rest)), fno)
            } else {
                None
            }
        } else if tag % 8 == 1 {
            if rest.len() >= 8 {
                field_val(rest.skip(8), fno)
            } else {
                None
            }
        } else if tag % 8 == 2 {
            if vint_ok(rest) && vint_end(rest) + vint_val(rest) <= rest.len() {
                let te2 = vint_end(rest);
                let l = vint_val(rest);
                let later = field_val(rest.skip(te2 + l), fno);
                if later is Some {
                    later
                } else if tag / 8 == fno {
                    Some(rest.subrange(te2, te2 + l))
                } else {
                    None
                }
            } else {
                None
            }
        } else if tag % 8 == 5 {
            if rest.len() >= 4 {
                field_val(rest.skip(4), fno)
            } else {
                None
            }
        } else {
            None
        }
    }
}

/// Scans the fields of `seg` from `pos` on, looking for the last
/// length-delimited field numbered `fno`; returns the content's byte range.
/// Fails exactly when the remaining bytes are not a well-formed field
/// sequence.
pub fn find_field_from(seg: &[u8], pos: usize, fno: u64) -> (r: Result<
    Option<(usize, usize)>,
    MetaErr,
>)
    requires
        pos <= seg@.len(),
        fno >= 1,
    ensures
        (r is Ok) == fields_ok(seg@.skip(pos as int)),
        r matches Ok(Some((lo, hi))) ==> pos <= lo <= hi <= seg@.len() && field_val(
            seg@.skip(pos as int),
            fno as nat,
        ) == Some(seg@.subrange(lo as int, hi as int)),
        r matches Ok(None) ==> field_val(seg@.skip(pos as int), fno as nat) is None,
    decreases seg@.len() - pos,
{
    let ghost s = seg@.skip(pos as int);
    if pos >= seg.len() {
        assert(s.len() == 0);
        return Ok(None);
    }
    let (tag, p1) = match read_varint(seg, pos) {
        Ok(t) => t,
        Err(e) => {
            return Err(e);
        },
    };
    proof {
        assert(s.skip(vint_end(s)) =~= seg@.skip(p1 as int));
    }
    let ghost rest = s.skip(vint_end(s));
    if tag < 8 {
        return Err(MetaErr::BadWireType);
    }
    let wire = tag % 8;
    if wire == 0 {
        let p2 = match read_varint(seg, p1) {
            Ok((_, p2)) => p2,
            Err(e) => {
                return Err(e);
            },
        };
        proof {
            assert(rest.skip(vint_end(rest)) =~= seg@.skip(p2 as int));
        }
        find_field_from(seg, p2, fno)
    } else if wire == 1 {
        if seg.len() - p1 < 8 {
            return Err(MetaErr::Truncated);
        }
        proof {
            assert(rest.skip(8) =~= seg@.skip(p1 + 8));
        }
        find_field_from(seg, p1 + 8, fno)
    } else if wire == 2 {
        let (l, p2) = match read_varint(seg, p1) {
            Ok(t) => t,
            Err(e) => {
                return Err(e);
            },
        };
        if l > (seg.len() - p2) as u64 {
            proof {
                assert(vint_end(rest) + vint_val(rest) > rest.len());
            }
            return Err(MetaErr::Truncated);
        }
        let end = p2 + l as usize;
        proof {
            assert(vint_end(rest) + vint_val(rest) <= rest.len());
            assert(rest.skip(vint_end(rest) + vint_val(rest)) =~= seg@.skip(end as int));
        }
        let later = match find_field_from(seg, end, fno) {
            Ok(later) => later,
            Err(e) => {
                return Err(e);
            },
        };
        match later {
            Some(range) => Ok(Some(range)),
            None => {
                if tag / 8 == fno {
                    proof {
                        assert(rest.subrange(vint_end(rest), vint_end(rest) + vint_val(rest))
                            =~= seg@.subrange(p2 as int, end as int));
                    }
                    Ok(Some((p2, end)))
                } else {
                    Ok(None)
                }
            },
        }
    } else if wire == 5 {
        if seg.len() - p1 < 4 {
            return Err(MetaErr::Truncated);
        }
        proof {
            assert(rest.skip(4) =~= seg@.skip(p1 + 4));
        }
        find_field_from(seg, p1 + 4, fno)
    } else {
        Err(MetaErr::BadWireType)
    }
}

/// One length-delimited field on the wire: tag, content length, content.
pub open spec fn len_field_enc(fno: nat, payload: Seq<u8>) -> Seq<u8> {
    vint_enc(8 * fno + 2) + vint_enc(payload.len()) + payload
}

/// One varint field on the wire: tag, value.
pub open spec fn varint_field_enc(fno: nat, v: nat) -> Seq<u8> {
    vint_enc(8 * fno) + vint_enc(v)
}

/// Prepending a length-delimited field keeps the field sequence well
/// formed, and field lookups see the new field exactly when no later
/// occurrence of the same number shadows it.
pub proof fn lemma_len_field_prepend(fno: nat, payload: Seq<u8>, rest: Seq<u8>)
    requires
        1 <= fno,
        8 * fno + 2 <= u64::MAX,
        payload.len() <= u64::MAX,
        fields_ok(rest),
    ensures
        fields_ok(len_field_enc(fno, payload) + rest),
        forall|f: nat| field_val(len_field_enc(fno, payload) + rest, f) == (if field_val(
            rest,
            f,
        ) is Some {
            field_val(rest, f)
        } else if f == fno {
            Some(payload)
        } else {
            None::<Seq<u8>>
        }),
{
    let tag = 8 * fno + 2;
    let b = len_field_enc(fno, payload) + rest;
    let rest1 = vint_enc(payload.len()) + payload + rest;
    assert(b =~= vint_enc(tag) + rest1);
    lemma_vint_round(tag, rest1);
    assert(b.skip(vint_end(b)) == rest1);
    assert(tag % 8 == 2 && tag / 8 == fno) by (nonlinear_arith)
        requires
            tag == 8 * fno + 2,
    ;
    lemma_vint_round(payload.len(), payload + rest);
    assert(rest1 =~= vint_enc(payload.len()) + (payload + rest));
    let te2 = vint_end(rest1);
    let l = vint_val(rest1);
    assert(l == payload.len());
    assert(rest1.skip(te2) == payload + rest);
    assert(rest1.skip(te2 + l) =~= (payload + rest).skip(l as int));
    assert((payload + rest).skip(payload.len() as int) =~= rest);
    assert(rest1.subrange(te2, te2 + l) =~= (payload + rest).subrange(0, payload.len() as int));
    assert((payload + rest).subrange(0, payload.len() as int) =~= payload);
    assert(fields_ok(b));
    assert forall|f: nat| field_val(b, f) == (if field_val(rest, f) is Some {
        field_val(rest, f)
    } else if f == fno {
        Some(payload)
    } else {
        None::<Seq<u8>>
    }) by {
        assert(b.len() > 0 && vint_ok(b));
    }
}

/// Prepending a varint field keeps the field sequence well formed and does
/// not affect length-delimited lookups.
pub proof fn lemma_varint_field_prepend(fno: nat, v: nat, rest: Seq<u8>)
    requires
        1 <= fno,
        8 * fno <= u64::MAX,
        v <= u64::MAX,
        fields_ok(rest),
    ensures
        fields_ok(varint_field_enc(fno, v) + rest),
        forall|f: nat|
            field_val(varint_field_enc(fno, v) + rest, f) == field_val(rest, f),
{
    let tag = 8 * fno;
    let b = varint_field_enc(fno, v) + rest;
    let rest1 = vint_enc(v) + rest;
    assert(b =~= vint_enc(tag) + rest1);
    lemma_vint_round(tag, rest1);
    assert(b.skip(vint_end(b)) == rest1);
    assert(tag % 8 == 0 && tag / 8 == fno && tag >= 8) by (nonlinear_arith)
        requires
            tag == 8 * fno,
            fno >= 1,
    ;
    lemma_vint_round(v, rest);
    assert(rest1.skip(vint_end(rest1)) == rest);
    assert(fields_ok(b));
    assert forall|f: nat| field_val(b, f) == field_val(rest, f) by {
        assert(b.len() > 0 && vint_ok(b));
    }
}

/// The metadata segment of a request: the service and method names, nested
/// inside length-delimited field 1.
pub open spec fn req_meta_enc(service: Seq<u8>, method: Seq<u8>) -> Seq<u8> {
    len_field_enc(1, len_field_enc(1, service) + len_field_enc(2, method))
}

/// The metadata segment of a response: the error code, nested inside
/// length-delimited field 2.
pub open spec fn resp_meta_enc(code: u64) -> Seq<u8> {
    len_field_enc(2, varint_field_enc(1, code as nat))
}

/// Whether a byte string decodes as request metadata: well-formed fields,
/// a request submessage present, and both names present inside it.
pub open spec fn req_meta_ok(b: Seq<u8>) -> bool {
    &&& fields_ok(b)
    &&& field_val(b, 1) is Some
    &&& fields_ok(field_val(b, 1).unwrap())
    &&& field_val(field_val(b, 1).unwrap(), 1) is Some
    &&& field_val(field_val(b, 1).unwrap(), 2) is Some
}

/// The service name a request metadata segment carries.
pub open spec fn req_meta_service(b: Seq<u8>) -> Seq<u8> {
    field_val(field_val(b, 1).unwrap(), 1).unwrap()
}

/// The method name a request metadata segment carries.
pub open spec fn req_meta_method(b: Seq<u8>) -> Seq<u8> {
    field_val(field_val(b, 1).unwrap(), 2).unwrap()
}

/// Appends one length-delimited field to `out`.
fn write_len_field(out: &mut Vec<u8>, fno: u64, payload: &[u8])
    requires
        1 <= fno <= 1000,
    ensures
        final(out)@ == old(out)@ + len_field_enc(fno as nat, payload@),
{
    write_varint(out, 8 * fno + 2);
    write_varint(out, payload.len() as u64);
    crate::wire::push_bytes(out, payload);
    assert(out@ =~= old(out)@ + len_field_enc(fno as nat, payload@));
}

/// Serializes request metadata.
pub fn encode_request_meta(rm: &RequestMeta) -> (out: Vec<u8>)
    ensures
        out@ == req_meta_enc(rm.service_name@, rm.method_name@),
{
    let mut inner: Vec<u8> = Vec::new();
    write_len_field(&mut inner, 1, rm.service_name.as_slice());
    write_len_field(&mut inner, 2, rm.method_name.as_slice());
    let mut out: Vec<u8> = Vec::new();
    write_len_field(&mut out, 1, inner.as_slice());
    out
}

/// Serializes response metadata.
pub fn encode_response_meta(rm: &ResponseMeta) -> (out: Vec<u8>)
    ensures
        out@ == resp_meta_enc(rm.error_code),
{
    let mut inner: Vec<u8> = Vec::new();
    write_varint(&mut inner, 8 * 1);
    write_varint(&mut inner, rm.error_code);
    assert(inner@ =~= varint_field_enc(1, rm.error_code as nat));
    let mut out: Vec<u8> = Vec::new();
    write_len_field(&mut out, 2, inner.as_slice());
    out
}

/// Decodes request metadata: succeeds exactly on segments that carry a
/// request submessage with both names, and returns those names.
pub fn decode_request_meta(b: &[u8]) -> (r: Result<RequestMeta, MetaErr>)
    ensures
        (r is Ok) == req_meta_ok(b@),
        r matches Ok(rm) ==> rm.service_name@ == req_meta_service(b@) && rm.method_name@
            == req_meta_method(b@),
{
    proof {
        assert(b@.skip(0) =~= b@);
    }
    let outer = match find_field_from(b, 0, 1) {
        Ok(Some(range)) => range,
        Ok(None) => {
            return Err(MetaErr::MissingField);
        },
        Err(e) => {
            return Err(e);
        },
    };
    let inner = crate::wire::copy_range(b, outer.0, outer.1);
    proof {
        assert(inner@.skip(0) =~= inner@);
    }
    let svc = match find_field_from(inner.as_slice(), 0, 1) {
        Ok(Some(range)) => range,
        Ok(None) => {
            return Err(MetaErr::MissingField);
        },
        Err(e) => {
            return Err(e);
        },
    };
    let mth = match find_field_from(inner.as_slice(), 0, 2) {
        Ok(Some(range)) => range,
        Ok(None) => {
            return Err(MetaErr::MissingField);
        },
        Err(e) => {
            return Err(e);
        },
    };
    Ok(RequestMeta {
        service_name: crate::wire::copy_range(inner.as_slice(), svc.0, svc.1),
        method_name: crate::wire::copy_range(inner.as_slice(), mth.0, mth.1),
    })
}

/// Round trip: encoded request metadata decodes, and to the same names.
pub proof fn lemma_req_meta_round_trip(service: Seq<u8>, method: Seq<u8>)
    requires
        service.len() + method.len() + 24 <= u64::MAX,
    ensures
        req_meta_ok(req_meta_enc(service, method)),
        req_meta_service(req_meta_enc(service, method)) == service,
        req_meta_method(req_meta_enc(service, method)) == method,
{
    let empty = Seq::<u8>::empty();
    assert(fields_ok(empty));
    lemma_len_field_prepend(2, method, empty);
    assert(len_field_enc(2, method) + empty =~= len_field_enc(2, method));
    lemma_vint_enc_len(8 * 2 + 2);
    lemma_vint_enc_len(method.len());
    lemma_len_field_prepend(1, service, len_field_enc(2, method));
    let inner = len_field_enc(1, service) + len_field_enc(2, method);
    assert(fields_ok(inner));
    assert(field_val(inner, 1) == Some(service));
    assert(field_val(inner, 2) == Some(method));
    lemma_vint_enc_len(8 * 1 + 2);
    lemma_vint_enc_len(service.len());
    lemma_len_field_prepend(1, inner, empty);
    assert(len_field_enc(1, inner) + empty =~= req_meta_enc(service, method));
    assert(field_val(req_meta_enc(service, method), 1) == Some(inner));
}

/// Round trip: encoded response metadata is a well-formed field sequence.
pub proof fn lemma_resp_meta_fields_ok(code: u64)
    ensures
        fields_ok(resp_meta_enc(code)),
{
    let empty = Seq::<u8>::empty();
    lemma_varint_field_prepend(1, code as nat, empty);
    assert(varint_field_enc(1, code as nat) + empty =~= varint_field_enc(1, code as nat));
    lemma_vint_enc_len(8);
    lemma_vint_enc_len(code as nat);
    lemma_len_field_prepend(2, varint_field_enc(1, code as nat), empty);
    assert(len_field_enc(2, varint_field_enc(1, code as nat)) + empty =~= resp_meta_enc(code));
}

} // verus!
