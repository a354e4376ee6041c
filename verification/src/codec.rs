//! The bounded byte encoding of job records.
//!
//! A record is laid out as: the id and creation time as 8-byte little-endian
//! words, the title and description as length-prefixed UTF-8 strings, the
//! applicant list as an 8-byte count followed by its length-prefixed strings,
//! and finally a one-byte tag for the accepted applicant, followed by that
//! string when the tag is 1.  Encoding and decoding round-trip exactly, and a
//! record must fit in [`MAX_RECORD_BYTES`] to be stored.

use vstd::bytes::*;
use vstd::prelude::*;
use vstd::utf8::*;

use crate::model::{remove_all, without_applicant, Job, JobView};

verus! {

/// The fixed upper bound on the serialized size of one record.
pub const MAX_RECORD_BYTES: usize = 1024;

// ---------------------------------------------------------------------------
// The encoding, as a function on mathematical values.
// ---------------------------------------------------------------------------

/// An 8-byte little-endian word.
pub open spec fn enc_u64(x: u64) -> Seq<u8> {
    spec_u64_to_le_bytes(x)
}

/// A string: its UTF-8 byte length as an 8-byte word, then its UTF-8 bytes.
pub open spec fn enc_str(s: Seq<char>) -> Seq<u8> {
    enc_u64(encode_utf8(s).len() as u64) + encode_utf8(s)
}

/// A string list: the concatenation of the encodings of its elements.
pub open spec fn enc_strs(l: Seq<Seq<char>>) -> Seq<u8>
    decreases l.len(),
{
    if l.len() == 0 {
        Seq::empty()
    } else {
        enc_str(l[0]) + enc_strs(l.drop_first())
    }
}

/// An optional string: a tag byte, then the string when present.
pub open spec fn enc_opt_str(o: Option<Seq<char>>) -> Seq<u8> {
    match o {
        Option::None => seq![0u8],
        Option::Some(s) => seq![1u8] + enc_str(s),
    }
}

/// The full record encoding.
pub open spec fn spec_encode_job(j: JobView) -> Seq<u8> {
    enc_u64(j.id) + enc_u64(j.created_at) + enc_str(j.title) + enc_str(j.description) + enc_u64(
        j.applicants.len() as u64,
    ) + enc_strs(j.applicants) + enc_opt_str(j.accepted_applicant)
}

/// Whether a record fits the fixed bound; only such records are stored.
pub open spec fn fits_bound(j: JobView) -> bool {
    spec_encode_job(j).len() <= MAX_RECORD_BYTES
}

// ---------------------------------------------------------------------------
// The decoding, as a family of parsers over the remaining bytes.  Each
// parser consumes a prefix and returns the parsed value with the leftover.
// ---------------------------------------------------------------------------

pub open spec fn take_u64(b: Seq<u8>) -> Option<(u64, Seq<u8>)> {
    if b.len() >= 8 {
        Option::Some((spec_u64_from_le_bytes(b.take(8)), b.skip(8)))
    } else {
        Option::None
    }
}

pub open spec fn take_str(b: Seq<u8>) -> Option<(Seq<char>, Seq<u8>)> {
    match take_u64(b) {
        Option::Some((n, r)) => {
            if r.len() >= n && valid_utf8(r.take(n as int)) {
                Option::Some((decode_utf8(r.take(n as int)), r.skip(n as int)))
            } else {
                Option::None
            }
        },
        Option::None => Option::None,
    }
}

pub open spec fn take_strs(b: Seq<u8>, n: nat) -> Option<(Seq<Seq<char>>, Seq<u8>)>
    decreases n,
{
    if n == 0 {
        Option::Some((Seq::empty(), b))
    } else {
        match take_str(b) {
            Option::Some((s, r)) => match take_strs(r, (n - 1) as nat) {
                Option::Some((l, r2)) => Option::Some((seq![s] + l, r2)),
                Option::None => Option::None,
            },
            Option::None => Option::None,
        }
    }
}

pub open spec fn take_opt_str(b: Seq<u8>) -> Option<(Option<Seq<char>>, Seq<u8>)> {
    if b.len() >= 1 {
        if b[0] == 0u8 {
            Option::Some((Option::None, b.skip(1)))
        } else if b[0] == 1u8 {
            match take_str(b.skip(1)) {
                Option::Some((s, r)) => Option::Some((Option::Some(s), r)),
                Option::None => Option::None,
            }
        } else {
            Option::None
        }
    } else {
        Option::None
    }
}

/// The full record parser: a record decodes only when every field parses and
/// no bytes are left over.
pub open spec fn spec_decode_job(b: Seq<u8>) -> Option<JobView> {
    match take_u64(b) {
        Option::Some((id, r1)) => match take_u64(r1) {
            Option::Some((created_at, r2)) => match take_str(r2) {
                Option::Some((title, r3)) => match take_str(r3) {
                    Option::Some((description, r4)) => match take_u64(r4) {
                        Option::Some((n, r5)) => match take_strs(r5, n as nat) {
                            Option::Some((applicants, r6)) => match take_opt_str(r6) {
                                Option::Some((accepted_applicant, r7)) => {
                                    if r7.len() == 0 {
                                        Option::Some(
                                            JobView {
                                                id,
                                                title,
                                                description,
                                                created_at,
                                                applicants,
                                                accepted_applicant,
                                            },
                                        )
                                    } else {
                                        Option::None
                                    }
                                },
                                Option::None => Option::None,
                            },
                            Option::None => Option::None,
                        },
                        Option::None => Option::None,
                    },
                    Option::None => Option::None,
                },
                Option::None => Option::None,
            },
            Option::None => Option::None,
        },
        Option::None => Option::None,
    }
}

// ---------------------------------------------------------------------------
// The encoding round-trips: every record that fits the bound decodes to
// exactly the value it was encoded from.
// ---------------------------------------------------------------------------

proof fn lemma_take_u64(x: u64, rest: Seq<u8>)
    ensures
        take_u64(enc_u64(x) + rest) == Option::Some((x, rest)),
{
    lemma_auto_spec_u64_to_from_le_bytes();
    let b = enc_u64(x) + rest;
    assert(b.take(8) =~= enc_u64(x));
    assert(b.skip(8) =~= rest);
}

proof fn lemma_take_str(s: Seq<char>, rest: Seq<u8>)
    requires
        encode_utf8(s).len() <= u64::MAX,
    ensures
        take_str(enc_str(s) + rest) == Option::Some((s, rest)),
{
    let u = encode_utf8(s);
    let n = u.len() as u64;
    assert(enc_str(s) + rest =~= enc_u64(n) + (u + rest));
    lemma_take_u64(n, u + rest);
    assert((u + rest).take(n as int) =~= u);
    assert((u + rest).skip(n as int) =~= rest);
    encode_utf8_valid_utf8(s);
    encode_utf8_decode_utf8(s);
}

proof fn lemma_take_strs(l: Seq<Seq<char>>, rest: Seq<u8>)
    requires
        forall|i: int| 0 <= i < l.len() ==> encode_utf8(#[trigger] l[i]).len() <= u64::MAX,
    ensures
        take_strs(enc_strs(l) + rest, l.len()) == Option::Some((l, rest)),
    decreases l.len(),
{
    if l.len() == 0 {
        assert(enc_strs(l) + rest =~= rest);
        assert(l =~= Seq::<Seq<char>>::empty());
    } else {
        let df = l.drop_first();
        assert(enc_strs(l) + rest =~= enc_str(l[0]) + (enc_strs(df) + rest));
        lemma_take_str(l[0], enc_strs(df) + rest);
        assert(forall|i: int|
            0 <= i < df.len() ==> encode_utf8(#[trigger] df[i]).len() <= u64::MAX);
        lemma_take_strs(df, rest);
        assert(seq![l[0]] + df =~= l);
    }
}

proof fn lemma_take_opt_str(o: Option<Seq<char>>, rest: Seq<u8>)
    requires
        o matches Option::Some(s) ==> encode_utf8(s).len() <= u64::MAX,
    ensures
        take_opt_str(enc_opt_str(o) + rest) == Option::Some((o, rest)),
{
    match o {
        Option::None => {
            let b = seq![0u8] + rest;
            assert(b[0] == 0u8);
            assert(b.skip(1) =~= rest);
        },
        Option::Some(s) => {
            let b = enc_opt_str(o) + rest;
            assert(b =~= seq![1u8] + (enc_str(s) + rest));
            assert(b[0] == 1u8);
            assert(b.skip(1) =~= enc_str(s) + rest);
            lemma_take_str(s, rest);
        },
    }
}

/// The length of an encoded string list dominates both the element count and
/// the length of each element's UTF-8 payload.
proof fn lemma_enc_strs_len(l: Seq<Seq<char>>)
    ensures
        enc_strs(l).len() >= 8 * l.len(),
        forall|i: int| 0 <= i < l.len() ==> encode_utf8(#[trigger] l[i]).len() <= enc_strs(l).len(),
    decreases l.len(),
{
    lemma_auto_spec_u64_to_from_le_bytes();
    if l.len() > 0 {
        let df = l.drop_first();
        lemma_enc_strs_len(df);
        assert forall|i: int|
            0 <= i < l.len() implies encode_utf8(#[trigger] l[i]).len() <= enc_strs(l).len() by {
            if i > 0 {
                assert(l[i] == df[i - 1]);
            }
        }
    }
}

/// Serialization is lossless: a record that fits the bound decodes to exactly
/// the value it was encoded from.
pub proof fn lemma_encode_decode_roundtrip(j: JobView)
    requires
        fits_bound(j),
    ensures
        spec_decode_job(spec_encode_job(j)) == Option::Some(j),
{
    lemma_auto_spec_u64_to_from_le_bytes();
    let e1 = enc_u64(j.id);
    let e2 = enc_u64(j.created_at);
    let e3 = enc_str(j.title);
    let e4 = enc_str(j.description);
    let e5 = enc_u64(j.applicants.len() as u64);
    let e6 = enc_strs(j.applicants);
    let e7 = enc_opt_str(j.accepted_applicant);
    let b = spec_encode_job(j);
    assert(b.len() == e1.len() + e2.len() + e3.len() + e4.len() + e5.len() + e6.len() + e7.len());
    lemma_enc_strs_len(j.applicants);
    assert(j.applicants.len() <= u64::MAX);
    assert(forall|i: int|
        0 <= i < j.applicants.len() ==> encode_utf8(#[trigger] j.applicants[i]).len()
            <= u64::MAX);
    assert(encode_utf8(j.title).len() <= u64::MAX);
    assert(encode_utf8(j.description).len() <= u64::MAX);
    assert(j.accepted_applicant matches Option::Some(s) ==> encode_utf8(s).len() <= u64::MAX);

    let r1 = e2 + (e3 + (e4 + (e5 + (e6 + e7))));
    let r2 = e3 + (e4 + (e5 + (e6 + e7)));
    let r3 = e4 + (e5 + (e6 + e7));
    let r4 = e5 + (e6 + e7);
    let r5 = e6 + e7;
    assert(b =~= e1 + r1);
    lemma_take_u64(j.id, r1);
    assert(r1 =~= e2 + r2);
    lemma_take_u64(j.created_at, r2);
    assert(r2 =~= e3 + r3);
    lemma_take_str(j.title, r3);
    assert(r3 =~= e4 + r4);
    lemma_take_str(j.description, r4);
    assert(r4 =~= e5 + r5);
    lemma_take_u64(j.applicants.len() as u64, r5);
    lemma_take_strs(j.applicants, e7);
    assert(e7 =~= enc_opt_str(j.accepted_applicant) + Seq::<u8>::empty());
    lemma_take_opt_str(j.accepted_applicant, Seq::<u8>::empty());
    assert(spec_decode_job(b) matches Option::Some(d) && d =~= j);
}

// ---------------------------------------------------------------------------
// The executable encoder.
// ---------------------------------------------------------------------------

proof fn lemma_enc_strs_push(l: Seq<Seq<char>>, s: Seq<char>)
    ensures
        enc_strs(l.push(s)) == enc_strs(l) + enc_str(s),
    decreases l.len(),
{
    if l.len() == 0 {
        assert(l.push(s)[0] == s);
        assert(l.push(s).drop_first() =~= Seq::<Seq<char>>::empty());
        assert(enc_strs(Seq::<Seq<char>>::empty()) =~= Seq::<u8>::empty());
        assert(enc_strs(l) =~= Seq::<u8>::empty());
        assert(enc_strs(l.push(s)) =~= enc_strs(l) + enc_str(s));
    } else {
        assert(l.push(s)[0] == l[0]);
        assert(l.push(s).drop_first() =~= l.drop_first().push(s));
        lemma_enc_strs_push(l.drop_first(), s);
        assert(enc_strs(l.push(s)) =~= enc_strs(l) + enc_str(s));
    }
}

fn push_u64(out: &mut Vec<u8>, x: u64)
    ensures
        final(out)@ == old(out)@ + enc_u64(x),
{
    let mut b = u64_to_le_bytes(x);
    out.append(&mut b);
}

fn push_str(out: &mut Vec<u8>, s: &String)
    ensures
        final(out)@ == old(out)@ + enc_str(s@),
{
    let mut bytes = s.as_str().as_bytes_vec();
    push_u64(out, bytes.len() as u64);
    out.append(&mut bytes);
}

/// Serializes a record into its byte encoding.
pub fn encode_job(job: &Job) -> (r: Vec<u8>)
    ensures
        r@ == spec_encode_job(job@),
{
    let ghost l = job.applicants.deep_view();
    let mut out: Vec<u8> = Vec::new();
    push_u64(&mut out, job.id);
    push_u64(&mut out, job.created_at);
    push_str(&mut out, &job.title);
    push_str(&mut out, &job.description);
    assert(l.len() == job.applicants@.len());
    push_u64(&mut out, job.applicants.len() as u64);
    let ghost head = out@;
    proof {
        assert(out@ =~= head + enc_strs(l.take(0)));
    }
    let mut i: usize = 0;
    while i < job.applicants.len()
        invariant
            i <= job.applicants.len(),
            l == job.applicants.deep_view(),
            out@ == head + enc_strs(l.take(i as int)),
        decreases job.applicants.len() - i,
    {
        push_str(&mut out, &job.applicants[i]);
        proof {
            assert(job.applicants.deep_view()[i as int] == job.applicants@[i as int]@);
            assert(l.take(i + 1) =~= l.take(i as int).push(l[i as int]));
            lemma_enc_strs_push(l.take(i as int), l[i as int]);
            assert(out@ =~= head + enc_strs(l.take(i + 1)));
        }
        i = i + 1;
    }
    proof {
        assert(l.take(l.len() as int) =~= l);
    }
    match &job.accepted_applicant {
        None => {
            out.push(0u8);
            proof {
                assert(enc_opt_str(job@.accepted_applicant) =~= seq![0u8]);
            }
        },
        Some(s) => {
            out.push(1u8);
            push_str(&mut out, s);
            proof {
                assert(enc_opt_str(job@.accepted_applicant) =~= seq![1u8] + enc_str(s@));
            }
        },
    }
    proof {
        assert(out@ =~= spec_encode_job(job@));
    }
    out
}

proof fn lemma_remove_all_enc_le(l: Seq<Seq<char>>, name: Seq<char>)
    ensures
        enc_strs(remove_all(l, name)).len() <= enc_strs(l).len(),
    decreases l.len(),
{
    if l.len() > 0 {
        let dl = l.drop_last();
        lemma_remove_all_enc_le(dl, name);
        assert(dl.push(l.last()) =~= l);
        lemma_enc_strs_push(dl, l.last());
        if l.last() != name {
            lemma_enc_strs_push(remove_all(dl, name), l.last());
        }
    }
}

/// A record never grows by a withdrawal: removing the occurrences of a name
/// cannot push the record over the bound.
pub proof fn lemma_without_applicant_fits(j: JobView, name: Seq<char>)
    requires
        fits_bound(j),
    ensures
        fits_bound(without_applicant(j, name)),
{
    lemma_auto_spec_u64_to_from_le_bytes();
    lemma_remove_all_enc_le(j.applicants, name);
}

// ---------------------------------------------------------------------------
// The executable decoder.
// ---------------------------------------------------------------------------

/// Relies on String::from_utf8: builds a string holding exactly the given
/// bytes when they are valid UTF-8, and fails exactly when they are not.
#[verifier::external_body]
fn string_from_utf8(v: Vec<u8>) -> (r: Option<String>)
    ensures
        r is Some <==> valid_utf8(v@),
        r matches Some(s) ==> s@ == decode_utf8(v@),
{
    String::from_utf8(v).ok()
}

fn read_u64(bytes: &Vec<u8>, off: usize) -> (r: Option<(u64, usize)>)
    requires
        off <= bytes@.len(),
    ensures
        r matches Some(p) ==> p.1 <= bytes@.len() && take_u64(bytes@.skip(off as int))
            == Option::Some((p.0, bytes@.skip(p.1 as int))),
        r is None ==> take_u64(bytes@.skip(off as int)) is None,
{
    if bytes.len() - off >= 8 {
        let s = vstd::slice::slice_subrange(bytes.as_slice(), off, off + 8);
        let x = u64_from_le_bytes(s);
        proof {
            assert(bytes@.skip(off as int).len() >= 8);
            assert(bytes@.skip(off as int).take(8) =~= bytes@.subrange(off as int, off + 8));
            assert(bytes@.skip(off as int).skip(8) =~= bytes@.skip(off + 8));
        }
        Some((x, off + 8))
    } else {
        proof {
            assert(bytes@.skip(off as int).len() < 8);
        }
        None
    }
}

fn read_str(bytes: &Vec<u8>, off: usize) -> (r: Option<(String, usize)>)
    requires
        off <= bytes@.len(),
    ensures
        r matches Some(p) ==> p.1 <= bytes@.len() && take_str(bytes@.skip(off as int))
            == Option::Some((p.0@, bytes@.skip(p.1 as int))),
        r is None ==> take_str(bytes@.skip(off as int)) is None,
{
    match read_u64(bytes, off) {
        None => None,
        Some((n, off1)) => {
            let ghost rem_seq = bytes@.skip(off1 as int);
            let rem = bytes.len() - off1;
            if n <= rem as u64 {
                let nn = n as usize;
                let payload_slice = vstd::slice::slice_subrange(bytes.as_slice(), off1, off1 + nn);
                let payload = vstd::slice::slice_to_vec(payload_slice);
                proof {
                    assert(rem_seq.len() == rem);
                    assert(rem_seq.take(n as int) =~= bytes@.subrange(off1 as int, off1 + nn));
                    assert(rem_seq.skip(n as int) =~= bytes@.skip(off1 + nn));
                }
                match string_from_utf8(payload) {
                    Some(s) => Some((s, off1 + nn)),
                    None => None,
                }
            } else {
                proof {
                    assert(rem_seq.len() < n);
                }
                None
            }
        },
    }
}

fn read_strs(bytes: &Vec<u8>, off: usize, n: u64) -> (r: Option<(Vec<String>, usize)>)
    requires
        off <= bytes@.len(),
    ensures
        r matches Some(p) ==> p.1 <= bytes@.len() && take_strs(bytes@.skip(off as int), n as nat)
            == Option::Some((p.0.deep_view(), bytes@.skip(p.1 as int))),
        r is None ==> take_strs(bytes@.skip(off as int), n as nat) is None,
{
    let mut acc: Vec<String> = Vec::new();
    let mut cur: usize = off;
    let mut i: u64 = 0;
    proof {
        assert(acc.deep_view() =~= Seq::<Seq<char>>::empty());
    }
    while i < n
        invariant
            i <= n,
            cur <= bytes@.len(),
            take_strs(bytes@.skip(off as int), n as nat) == (match take_strs(
                bytes@.skip(cur as int),
                (n - i) as nat,
            ) {
                Option::Some((l2, r2)) => Option::Some((acc.deep_view() + l2, r2)),
                Option::None => Option::None::<(Seq<Seq<char>>, Seq<u8>)>,
            }),
        decreases n - i,
    {
        let ghost acc0 = acc.deep_view();
        let ghost mid = (n - i) as nat;
        match read_str(bytes, cur) {
            None => {
                proof {
                    assert(take_strs(bytes@.skip(cur as int), mid) is None);
                }
                return None;
            },
            Some((s, cur2)) => {
                acc.push(s);
                proof {
                    assert(acc.deep_view() =~= acc0.push(s@));
                    let tail = take_strs(bytes@.skip(cur2 as int), (mid - 1) as nat);
                    match tail {
                        Option::Some((l2, r2)) => {
                            assert(take_strs(bytes@.skip(cur as int), mid) == Option::Some(
                                (seq![s@] + l2, r2),
                            ));
                            assert(acc0 + (seq![s@] + l2) =~= acc0.push(s@) + l2);
                        },
                        Option::None => {
                            assert(take_strs(bytes@.skip(cur as int), mid) is None);
                        },
                    }
                }
                cur = cur2;
                i = i + 1;
            },
        }
    }
    proof {
        assert(take_strs(bytes@.skip(cur as int), 0) == Option::Some(
            (Seq::<Seq<char>>::empty(), bytes@.skip(cur as int)),
        ));
        assert(acc.deep_view() + Seq::<Seq<char>>::empty() =~= acc.deep_view());
    }
    Some((acc, cur))
}

fn read_opt_str(bytes: &Vec<u8>, off: usize) -> (r: Option<(Option<String>, usize)>)
    requires
        off <= bytes@.len(),
    ensures
        r matches Some(p) ==> p.1 <= bytes@.len() && take_opt_str(bytes@.skip(off as int))
            == Option::Some((p.0.deep_view(), bytes@.skip(p.1 as int))),
        r is None ==> take_opt_str(bytes@.skip(off as int)) is None,
{
    if off < bytes.len() {
        let tag = *vstd::slice::slice_index_get(bytes.as_slice(), off);
        proof {
            assert(bytes@.skip(off as int)[0] == bytes@[off as int]);
            assert(bytes@.skip(off as int).skip(1) =~= bytes@.skip(off + 1));
        }
        if tag == 0 {
            Some((None, off + 1))
        } else if tag == 1 {
            match read_str(bytes, off + 1) {
                Some((s, off2)) => Some((Some(s), off2)),
                None => None,
            }
        } else {
            None
        }
    } else {
        None
    }
}

/// Deserializes a record from its byte encoding; fails exactly when the
/// bytes are not the encoding of any record.
pub fn decode_job(bytes: &Vec<u8>) -> (r: Option<Job>)
    ensures
        r is Some <==> spec_decode_job(bytes@) is Some,
        r matches Some(job) ==> spec_decode_job(bytes@) == Option::Some(job@),
{
    proof {
        assert(bytes@.skip(0) =~= bytes@);
    }
    let (id, o1) = match read_u64(bytes, 0) {
        Some(p) => p,
        None => {
            return None;
        },
    };
    let (created_at, o2) = match read_u64(bytes, o1) {
        Some(p) => p,
        None => {
            return None;
        },
    };
    let (title, o3) = match read_str(bytes, o2) {
        Some(p) => p,
        None => {
            return None;
        },
    };
    let (description, o4) = match read_str(bytes, o3) {
        Some(p) => p,
        None => {
            return None;
        },
    };
    let (n, o5) = match read_u64(bytes, o4) {
        Some(p) => p,
        None => {
            return None;
        },
    };
    let (applicants, o6) = match read_strs(bytes, o5, n) {
        Some(p) => p,
        None => {
            return None;
        },
    };
    let (accepted_applicant, o7) = match read_opt_str(bytes, o6) {
        Some(p) => p,
        None => {
            return None;
        },
    };
    if o7 != bytes.len() {
        proof {
            assert(bytes@.skip(o7 as int).len() != 0);
        }
        return None;
    }
    let job = Job { id, title, description, created_at, applicants, accepted_applicant };
    proof {
        assert(bytes@.skip(o7 as int).len() == 0);
        assert(spec_decode_job(bytes@) matches Option::Some(v) && v =~= job@);
    }
    Some(job)
}

} // verus!
