//! The append cursor of a single log file.

use vstd::prelude::*;
use crate::codec::{frame, parse, encode_record};

verus! {

/// One append-only log bound to a single file. The store tracks `position`,
/// the byte offset at which the next record will be written; it is always
/// equal to the file's current logical length. The caller owns the file
/// handle and performs the reads, writes and syncs; this type decides what
/// bytes are written, where each record lands, and how a file image is
/// decoded back into records.
pub struct WAL {
    /// Byte offset of the next write; equal to the file's logical length.
    pub position: u64,
}

impl WAL {
    /// Bind a store to a log file whose current length is `file_len` bytes.
    /// The cursor starts at end-of-file, so appends land after any records
    /// (or partial tail) a previous run left behind.
    pub fn open(file_len: u64) -> (w: WAL)
        ensures
            w.position == file_len,
    {
        WAL { position: file_len }
    }

    /// Frame one payload for appending. Returns the encoded record — the
    /// bytes the caller must write at end-of-file and sync before the append
    /// counts as durable — and the offset at which the record's length
    /// prefix begins. Advances the cursor by the record's framed size.
    pub fn append(&mut self, data: &[u8]) -> (r: (Vec<u8>, u64))
        requires
            data@.len() <= u32::MAX,
            old(self).position + 4 + data@.len() <= u64::MAX,
        ensures
            r.0@ == frame(data@),
            r.1 == old(self).position,
            final(self).position == old(self).position + 4 + data@.len(),
    {
        let encoded = encode_record(data);
        let entry_offset = self.position;
        self.position = self.position + 4 + data.len() as u64;
        (encoded, entry_offset)
    }

    /// Decode a log file image into its records, earliest first. Stops at a
    /// truncated trailing record (the signature of a crash mid-append) and
    /// returns everything decoded before it; a clean end-of-file is simply
    /// the end of the result. Does not move the append cursor.
    pub fn read_all(&self, bytes: &[u8]) -> (entries: Vec<Vec<u8>>)
        ensures
            entries.deep_view() == parse(bytes@),
    {
        decode_all(bytes)
    }

    /// Reset the cursor after the caller has truncated the file to zero
    /// length and synced. Safe to repeat on an already-empty log.
    pub fn truncate(&mut self)
        ensures
            final(self).position == 0,
    {
        self.position = 0;
    }
}

/// The recovery scan over a byte image: every fully-formed record at the
/// front, in file order, ignoring a dangling partial record at the tail.
pub fn decode_all(bytes: &[u8]) -> (entries: Vec<Vec<u8>>)
    ensures
        entries.deep_view() == parse(bytes@),
{
    let mut entries: Vec<Vec<u8>> = Vec::new();
    let mut i: usize = 0;
    proof {
        assert(bytes@.skip(0) =~= bytes@);
        assert(parse(bytes@) =~= entries.deep_view() + parse(bytes@.skip(0)));
    }
    loop
        invariant
            i <= bytes@.len(),
            parse(bytes@) == entries.deep_view() + parse(bytes@.skip(i as int)),
        decreases bytes@.len() - i,
    {
        if bytes.len() - i < 4 {
            proof {
                assert(parse(bytes@.skip(i as int)) =~= Seq::<Seq<u8>>::empty());
                assert(entries.deep_view() =~= entries.deep_view() + parse(
                    bytes@.skip(i as int),
                ));
            }
            return entries;
        }
        let b0 = bytes[i];
        let b1 = bytes[i + 1];
        let b2 = bytes[i + 2];
        let b3 = bytes[i + 3];
        let len: u32 = ((b0 as u32) << 24) | ((b1 as u32) << 16) | ((b2 as u32) << 8)
            | (b3 as u32);
        proof {
            assert(bytes@.skip(i as int).subrange(0, 4) =~= seq![b0, b1, b2, b3]);
        }
        if ((bytes.len() - i - 4) as u64) < (len as u64) {
            proof {
                assert(parse(bytes@.skip(i as int)) =~= Seq::<Seq<u8>>::empty());
                assert(entries.deep_view() =~= entries.deep_view() + parse(
                    bytes@.skip(i as int),
                ));
            }
            return entries;
        }
        let payload_end: usize = i + 4 + (len as usize);
        let payload = vstd::slice::slice_to_vec(vstd::slice::slice_subrange(
            bytes,
            i + 4,
            payload_end,
        ));
        proof {
            let rest = bytes@.skip(i as int);
            assert(payload@ =~= rest.subrange(4, 4 + len as int));
            assert(rest.skip(4 + len as int) =~= bytes@.skip(payload_end as int));
            assert(parse(rest) == seq![payload@] + parse(bytes@.skip(payload_end as int)));
        }
        let ghost prior = entries.deep_view();
        let ghost pv = payload@;
        entries.push(payload);
        proof {
            assert(entries.deep_view() =~~= prior.push(pv));
            assert(prior.push(pv) + parse(bytes@.skip(payload_end as int)) =~= prior + (seq![pv]
                + parse(bytes@.skip(payload_end as int))));
            assert(parse(bytes@) == entries.deep_view() + parse(bytes@.skip(payload_end as int)));
        }
        i = payload_end;
    }
}

} // verus!
