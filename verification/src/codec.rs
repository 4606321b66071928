//! The record format and the recovery scan.
//!
//! A log is a byte stream of records, each encoded as a 4-byte big-endian
//! length prefix followed by exactly that many payload bytes. There is no
//! header, no checksum and no trailer: end-of-stream at a record boundary is
//! the normal end of the log, and a trailing partial record (an incomplete
//! prefix, or a prefix whose declared payload is cut short) marks where a
//! crash interrupted an append and is treated as the end of valid history.

use vstd::prelude::*;

verus! {

/// The 4-byte big-endian encoding of a record's payload length.
pub open spec fn len_prefix(n: u32) -> Seq<u8> {
    seq![
        ((n >> 24) & 0xff) as u8,
        ((n >> 16) & 0xff) as u8,
        ((n >> 8) & 0xff) as u8,
        (n & 0xff) as u8,
    ]
}

/// The payload length declared by a 4-byte big-endian prefix.
pub open spec fn prefix_value(s: Seq<u8>) -> u32
    recommends
        s.len() == 4,
{
    ((s[0] as u32) << 24) | ((s[1] as u32) << 16) | ((s[2] as u32) << 8) | (s[3] as u32)
}

/// The full on-disk encoding of one record: length prefix, then payload.
pub open spec fn frame(p: Seq<u8>) -> Seq<u8>
    recommends
        p.len() <= u32::MAX,
{
    len_prefix(p.len() as u32) + p
}

/// The on-disk encoding of a whole sequence of records, in order.
pub open spec fn frames(ps: Seq<Seq<u8>>) -> Seq<u8>
    decreases ps.len(),
{
    if ps.len() == 0 {
        Seq::empty()
    } else {
        frame(ps[0]) + frames(ps.skip(1))
    }
}

/// Every payload's length fits the 32-bit length field.
pub open spec fn payloads_fit(ps: Seq<Seq<u8>>) -> bool {
    forall|i: int| 0 <= i < ps.len() ==> #[trigger] ps[i].len() <= u32::MAX
}

/// The recovery scan: the sequence of payloads of all fully-formed records at
/// the front of `bytes`. The scan stops at the first incomplete prefix or
/// incomplete payload, so a truncated tail is ignored rather than an error.
pub open spec fn parse(bytes: Seq<u8>) -> Seq<Seq<u8>>
    decreases bytes.len(),
{
    if bytes.len() < 4 {
        Seq::empty()
    } else {
        let len = prefix_value(bytes.subrange(0, 4)) as int;
        if bytes.len() < 4 + len {
            Seq::empty()
        } else {
            seq![bytes.subrange(4, 4 + len)] + parse(bytes.skip(4 + len))
        }
    }
}

/// A well-formed log image: an exact concatenation of framed records, with
/// no partial record at the tail. This is the state of the file when every
/// append ran to completion.
pub open spec fn wf_log(bytes: Seq<u8>) -> bool
    decreases bytes.len(),
{
    bytes.len() == 0 || {
        &&& bytes.len() >= 4
        &&& 4 + prefix_value(bytes.subrange(0, 4)) <= bytes.len()
        &&& wf_log(bytes.skip(4 + prefix_value(bytes.subrange(0, 4)) as int))
    }
}

/// A dangling partial record: too short to hold a complete prefix, or a
/// complete prefix whose declared payload is cut short. The empty tail is
/// included for convenience; what matters is that no full record starts here.
pub open spec fn partial_record(t: Seq<u8>) -> bool {
    t.len() < 4 || t.len() < 4 + prefix_value(t.subrange(0, 4))
}

/// Decoding a length prefix recovers the length it was built from.
pub proof fn lemma_prefix_roundtrip(n: u32)
    ensures
        len_prefix(n).len() == 4,
        prefix_value(len_prefix(n)) == n,
{
    assert(((((n >> 24) & 0xff) as u8) as u32) << 24 | ((((n >> 16) & 0xff) as u8) as u32) << 16
        | ((((n >> 8) & 0xff) as u8) as u32) << 8 | (((n & 0xff) as u8) as u32) == n)
        by (bit_vector);
}

/// The total framed size of a sequence of records: 4 bytes of prefix plus
/// the payload length, summed over every record. This is exactly how far the
/// append cursor advances while writing them.
pub open spec fn framed_size(ps: Seq<Seq<u8>>) -> int
    decreases ps.len(),
{
    if ps.len() == 0 {
        0
    } else {
        4 + ps[0].len() + framed_size(ps.skip(1))
    }
}

/// Parsing a framed record at the front of a stream yields that record's
/// payload followed by whatever the rest parses to; and a well-formed rest
/// keeps the whole stream well-formed.
pub proof fn lemma_parse_frame_prepend(p: Seq<u8>, rest: Seq<u8>)
    requires
        p.len() <= u32::MAX,
    ensures
        parse(frame(p) + rest) == seq![p] + parse(rest),
        wf_log(rest) ==> wf_log(frame(p) + rest),
{
    let n = p.len() as u32;
    let b = frame(p) + rest;
    lemma_prefix_roundtrip(n);
    assert(b.subrange(0, 4) =~= len_prefix(n));
    assert(b.subrange(4, 4 + n as int) =~= p);
    assert(b.skip(4 + n as int) =~= rest);
    assert(parse(b) =~= seq![p] + parse(rest));
}

/// Parsing distributes over concatenation when the front is a well-formed
/// log: the scan walks exactly the records of the front, then continues into
/// the suffix as if it stood alone.
pub proof fn lemma_parse_concat(prefix: Seq<u8>, suffix: Seq<u8>)
    requires
        wf_log(prefix),
    ensures
        parse(prefix + suffix) == parse(prefix) + parse(suffix),
        wf_log(suffix) ==> wf_log(prefix + suffix),
    decreases prefix.len(),
{
    if prefix.len() == 0 {
        assert(prefix + suffix =~= suffix);
        assert(parse(prefix + suffix) =~= parse(prefix) + parse(suffix));
    } else {
        let len = prefix_value(prefix.subrange(0, 4)) as int;
        let tail = prefix.skip(4 + len);
        let b = prefix + suffix;
        assert(b.subrange(0, 4) =~= prefix.subrange(0, 4));
        assert(b.subrange(4, 4 + len) =~= prefix.subrange(4, 4 + len));
        assert(b.skip(4 + len) =~= tail + suffix);
        lemma_parse_concat(tail, suffix);
        assert(parse(b) =~= parse(prefix) + parse(suffix));
    }
}

/// Round-trip: the encoding of any sequence of records parses back to
/// exactly that sequence, and is a well-formed log image.
pub proof fn lemma_round_trip(ps: Seq<Seq<u8>>)
    requires
        payloads_fit(ps),
    ensures
        parse(frames(ps)) == ps,
        wf_log(frames(ps)),
    decreases ps.len(),
{
    if ps.len() == 0 {
        assert(parse(frames(ps)) =~= ps);
    } else {
        lemma_round_trip(ps.skip(1));
        lemma_parse_frame_prepend(ps[0], frames(ps.skip(1)));
        assert(parse(frames(ps)) =~= ps);
    }
}

/// Durability of a completed append: adding one framed record to the end of
/// a well-formed log image extends the parse by exactly that record — so
/// once the framed bytes are on disk, every later scan returns the record.
pub proof fn lemma_append_durable(bytes: Seq<u8>, p: Seq<u8>)
    requires
        wf_log(bytes),
        p.len() <= u32::MAX,
    ensures
        parse(bytes + frame(p)) == parse(bytes).push(p),
        wf_log(bytes + frame(p)),
{
    lemma_parse_concat(bytes, frame(p));
    lemma_parse_frame_prepend(p, Seq::empty());
    assert(frame(p) + Seq::<u8>::empty() =~= frame(p));
    assert(parse(bytes + frame(p)) =~= parse(bytes).push(p));
}

/// Resuming on a reopened log: records appended on top of a well-formed
/// image land strictly after the existing ones, and a scan returns the old
/// records followed by the new ones, in order.
pub proof fn lemma_resume_after_reopen(bytes: Seq<u8>, ps: Seq<Seq<u8>>)
    requires
        wf_log(bytes),
        payloads_fit(ps),
    ensures
        parse(bytes + frames(ps)) == parse(bytes) + ps,
        wf_log(bytes + frames(ps)),
{
    lemma_parse_concat(bytes, frames(ps));
    lemma_round_trip(ps);
}

/// Truncated-tail tolerance: a dangling partial record after a well-formed
/// log image is ignored — the scan returns exactly the complete records and
/// does not fail.
pub proof fn lemma_truncated_tail(bytes: Seq<u8>, t: Seq<u8>)
    requires
        wf_log(bytes),
        partial_record(t),
    ensures
        parse(bytes + t) == parse(bytes),
{
    lemma_parse_concat(bytes, t);
    assert(parse(t) =~= Seq::<Seq<u8>>::empty());
    assert(parse(bytes + t) =~= parse(bytes));
}

/// The empty image — a fresh file, or one just truncated — is a well-formed
/// log that parses to no records, so truncation leaves nothing to recover
/// and truncating again changes nothing.
pub proof fn lemma_empty_log()
    ensures
        parse(Seq::<u8>::empty()) == Seq::<Seq<u8>>::empty(),
        wf_log(Seq::<u8>::empty()),
{
    assert(parse(Seq::<u8>::empty()) =~= Seq::<Seq<u8>>::empty());
}

/// The encoding of a record sequence occupies exactly its framed size, so
/// the offset handed out for the next append over an image holding `ps` is
/// the sum of `4 + len(payload)` over the records already present.
pub proof fn lemma_frames_len(ps: Seq<Seq<u8>>)
    ensures
        frames(ps).len() == framed_size(ps),
    decreases ps.len(),
{
    if ps.len() > 0 {
        lemma_frames_len(ps.skip(1));
    }
}

/// Encode one record: the 4-byte big-endian length prefix followed by the
/// payload bytes. This is exactly what `append` writes to the file.
pub fn encode_record(payload: &[u8]) -> (r: Vec<u8>)
    requires
        payload@.len() <= u32::MAX,
    ensures
        r@ == frame(payload@),
        r@.len() == 4 + payload@.len(),
{
    let len: u32 = payload.len() as u32;
    let mut r: Vec<u8> = Vec::new();
    r.push(((len >> 24) & 0xff) as u8);
    r.push(((len >> 16) & 0xff) as u8);
    r.push(((len >> 8) & 0xff) as u8);
    r.push((len & 0xff) as u8);
    let mut j: usize = 0;
    while j < payload.len()
        invariant
            j <= payload@.len(),
            payload@.len() <= u32::MAX,
            len == payload@.len() as u32,
            r@ == len_prefix(len) + payload@.subrange(0, j as int),
        decreases payload@.len() - j,
    {
        r.push(payload[j]);
        assert(r@ =~= len_prefix(len) + payload@.subrange(0, j + 1));
        j = j + 1;
    }
    proof {
        assert(r@ =~= frame(payload@));
    }
    r
}

} // verus!
