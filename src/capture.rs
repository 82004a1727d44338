//! Walking the records of a capture file held in memory.
use crate::endian::{be32_at, be32_from};
use crate::packetref::{be32_bytes, vlan_offset_of, FrameView, PacketRef, ETHERNET_HDR_LEN};
use vstd::prelude::*;

verus! {

/// Length of the global header that opens a capture file.
pub const FILE_HEADER_LEN: usize = 24;

/// Length of the header in front of each record's bytes.
pub const RECORD_HEADER_LEN: usize = 16;

/// Why a capture file could not be read to its end. Each names the offset of
/// the record header at fault.
#[derive(Debug, Clone, Copy, PartialEq, Eq, Structural)]
pub enum CaptureError {
    /// The record declares more bytes than the file still holds.
    TruncatedPayload { offset: usize },
    /// The record is too short for an Ethernet header.
    FrameTooShort { offset: usize },
}

/// The included length declared by the record header at `pos`.
pub open spec fn incl_len_at(data: Seq<u8>, pos: int) -> u32 {
    be32_at(data, pos + 8)
}

/// The frame that the record at `pos` describes.
pub open spec fn record_frame(data: Seq<u8>, pos: int, file_id: usize) -> FrameView {
    let raw = data.subrange(pos + 16, pos + 16 + incl_len_at(data, pos));
    FrameView {
        ts_sec: be32_at(data, pos),
        ts_usec: be32_at(data, pos + 4),
        inc_len: incl_len_at(data, pos),
        orig_len: be32_at(data, pos + 12),
        pkt_ptr: pos as usize,
        file_ptr: file_id,
        raw,
        vo: vlan_offset_of(raw),
    }
}

/// The frames of the records from `pos` on. Fewer than 16 bytes left end the
/// walk cleanly; a record that declares more bytes than are left, or fewer than
/// an Ethernet header, ends it with an error.
pub open spec fn frames_from(data: Seq<u8>, pos: int, file_id: usize) -> Result<
    Seq<FrameView>,
    CaptureError,
>
    decreases data.len() - pos,
{
    if data.len() - pos < RECORD_HEADER_LEN {
        Ok(Seq::empty())
    } else if data.len() - pos - RECORD_HEADER_LEN < incl_len_at(data, pos) {
        Err(CaptureError::TruncatedPayload { offset: pos as usize })
    } else if incl_len_at(data, pos) < ETHERNET_HDR_LEN {
        Err(CaptureError::FrameTooShort { offset: pos as usize })
    } else {
        match frames_from(data, pos + RECORD_HEADER_LEN + incl_len_at(data, pos), file_id) {
            Ok(rest) => Ok(seq![record_frame(data, pos, file_id)] + rest),
            Err(e) => Err(e),
        }
    }
}

/// The frames of a whole capture file, after its global header.
pub open spec fn capture_frames(data: Seq<u8>, file_id: usize) -> Result<
    Seq<FrameView>,
    CaptureError,
> {
    frames_from(data, FILE_HEADER_LEN as int, file_id)
}

/// `done` followed by the outcome `r` of the rest of a walk.
pub open spec fn after(done: Seq<FrameView>, r: Result<Seq<FrameView>, CaptureError>) -> Result<
    Seq<FrameView>,
    CaptureError,
> {
    match r {
        Ok(rest) => Ok(done + rest),
        Err(e) => Err(e),
    }
}

/// The frames that a vector of frames holds.
pub open spec fn views(v: Seq<PacketRef>) -> Seq<FrameView> {
    v.map_values(|p: PacketRef| p@)
}

/// Reads every record of a capture file: skips the global header, then turns
/// each record into a frame tagged with `file_id` and the offset of its record
/// header.
pub fn scan_capture(data: &[u8], file_id: usize) -> (r: Result<Vec<PacketRef>, CaptureError>)
    ensures
        match r {
            Ok(v) => capture_frames(data@, file_id) == Ok::<Seq<FrameView>, CaptureError>(
                views(v@),
            ) && forall|i: int| 0 <= i < v@.len() ==> #[trigger] v@[i].wf(),
            Err(e) => capture_frames(data@, file_id) == Err::<Seq<FrameView>, CaptureError>(e),
        },
{
    let n: usize = data.len();
    let mut frames: Vec<PacketRef> = Vec::new();
    if n < FILE_HEADER_LEN {
        proof {
            assert(views(frames@) =~= Seq::<FrameView>::empty());
        }
        return Ok(frames);
    }
    let mut pos: usize = FILE_HEADER_LEN;
    proof {
        assert(views(frames@) =~= Seq::<FrameView>::empty());
        assert(after(views(frames@), frames_from(data@, pos as int, file_id)) =~= capture_frames(
            data@,
            file_id,
        )) by {
            match frames_from(data@, pos as int, file_id) {
                Ok(rest) => {
                    assert(views(frames@) + rest =~= rest);
                },
                Err(e) => {},
            }
        }
    }
    loop
        invariant
            n == data@.len(),
            pos <= n,
            after(views(frames@), frames_from(data@, pos as int, file_id)) == capture_frames(
                data@,
                file_id,
            ),
            forall|i: int| 0 <= i < frames@.len() ==> #[trigger] frames@[i].wf(),
        decreases n - pos,
    {
        if n - pos < RECORD_HEADER_LEN {
            proof {
                assert(views(frames@) + Seq::<FrameView>::empty() =~= views(frames@));
            }
            return Ok(frames);
        }
        let incl: u32 = be32_from(data, pos + 8);
        if n - pos - RECORD_HEADER_LEN < incl as usize {
            return Err(CaptureError::TruncatedPayload { offset: pos });
        }
        let len: usize = incl as usize;
        if len < ETHERNET_HDR_LEN {
            return Err(CaptureError::FrameTooShort { offset: pos });
        }
        let ts_sec: u32 = be32_from(data, pos);
        let ts_usec: u32 = be32_from(data, pos + 4);
        let orig_len: u32 = be32_from(data, pos + 12);
        let start: usize = pos + RECORD_HEADER_LEN;
        let mut pkt = PacketRef::new(incl, orig_len, ts_sec, ts_usec, pos, file_id);
        pkt.set_packet(vstd::slice::slice_subrange(data, start, start + len));
        let ghost prev = views(frames@);
        let ghost next = start + len;
        proof {
            assert(pkt@ == record_frame(data@, pos as int, file_id));
        }
        frames.push(pkt);
        proof {
            assert(views(frames@) =~= prev + seq![record_frame(data@, pos as int, file_id)]);
            match frames_from(data@, next as int, file_id) {
                Ok(rest) => {
                    assert(prev + seq![record_frame(data@, pos as int, file_id)] + rest =~= prev + (
                    seq![record_frame(data@, pos as int, file_id)] + rest));
                },
                Err(e) => {},
            }
        }
        pos = start + len;
    }
}

/// The number of frames in a capture file, or the error that ends its walk.
pub fn count_frames(data: &[u8], file_id: usize) -> (r: Result<usize, CaptureError>)
    ensures
        match capture_frames(data@, file_id) {
            Ok(s) => r == Ok::<usize, CaptureError>(s.len() as usize),
            Err(e) => r == Err::<usize, CaptureError>(e),
        },
{
    match scan_capture(data, file_id) {
        Ok(v) => Ok(v.len()),
        Err(e) => Err(e),
    }
}

/// One record as it is written: timestamp, original length and the bytes kept.
pub ghost struct CaptureRecord {
    pub ts_sec: u32,
    pub ts_usec: u32,
    pub orig_len: u32,
    pub payload: Seq<u8>,
}

/// A record's header, four big-endian fields with the included length third,
/// followed by its bytes.
pub open spec fn record_bytes(r: CaptureRecord) -> Seq<u8> {
    be32_bytes(r.ts_sec) + be32_bytes(r.ts_usec) + be32_bytes(r.payload.len() as u32) + be32_bytes(
        r.orig_len,
    ) + r.payload
}

/// Records written one after the other.
pub open spec fn records_bytes(rs: Seq<CaptureRecord>) -> Seq<u8>
    decreases rs.len(),
{
    if rs.len() == 0 {
        Seq::empty()
    } else {
        record_bytes(rs[0]) + records_bytes(rs.drop_first())
    }
}

/// The frame that record `r`, written at offset `base`, stands for.
pub open spec fn record_view(base: int, r: CaptureRecord, file_id: usize) -> FrameView {
    FrameView {
        ts_sec: r.ts_sec,
        ts_usec: r.ts_usec,
        inc_len: r.payload.len() as u32,
        orig_len: r.orig_len,
        pkt_ptr: base as usize,
        file_ptr: file_id,
        raw: r.payload,
        vo: vlan_offset_of(r.payload),
    }
}

/// The frames that records written from offset `base` on stand for.
pub open spec fn record_views(base: int, rs: Seq<CaptureRecord>, file_id: usize) -> Seq<FrameView>
    decreases rs.len(),
{
    if rs.len() == 0 {
        Seq::empty()
    } else {
        seq![record_view(base, rs[0], file_id)] + record_views(
            base + RECORD_HEADER_LEN + rs[0].payload.len(),
            rs.drop_first(),
            file_id,
        )
    }
}

/// Every record holds at least an Ethernet header and at most what a 32-bit
/// length can declare.
pub open spec fn records_well_formed(rs: Seq<CaptureRecord>) -> bool {
    forall|i: int|
        0 <= i < rs.len() ==> ETHERNET_HDR_LEN <= #[trigger] rs[i].payload.len() <= u32::MAX
}

proof fn lemma_be32_round_trip(x: u32)
    ensures
        be32_at(be32_bytes(x), 0) == x,
{
    let b0 = (x >> 24) as u8;
    let b1 = (x >> 16) as u8;
    let b2 = (x >> 8) as u8;
    let b3 = x as u8;
    assert(b0 as u32 * 0x1000000 + b1 as u32 * 0x10000 + b2 as u32 * 0x100 + b3 as u32 == x)
        by (bit_vector)
        requires
            b0 == (x >> 24) as u8,
            b1 == (x >> 16) as u8,
            b2 == (x >> 8) as u8,
            b3 == x as u8,
    ;
}

proof fn lemma_be32_within(data: Seq<u8>, q: int, x: u32)
    requires
        0 <= q,
        q + 4 <= data.len(),
        data.subrange(q, q + 4) == be32_bytes(x),
    ensures
        be32_at(data, q) == x,
{
    lemma_be32_round_trip(x);
    let w = be32_bytes(x);
    assert(data[q] == w[0] && data[q + 1] == w[1] && data[q + 2] == w[2] && data[q + 3] == w[3])
        by {
        assert(data.subrange(q, q + 4)[0] == data[q]);
        assert(data.subrange(q, q + 4)[1] == data[q + 1]);
        assert(data.subrange(q, q + 4)[2] == data[q + 2]);
        assert(data.subrange(q, q + 4)[3] == data[q + 3]);
    }
}

proof fn lemma_record_within(data: Seq<u8>, p: int, r: CaptureRecord, file_id: usize)
    requires
        0 <= p,
        ETHERNET_HDR_LEN <= r.payload.len() <= u32::MAX,
        p + record_bytes(r).len() <= data.len(),
        data.subrange(p, p + record_bytes(r).len()) == record_bytes(r),
    ensures
        incl_len_at(data, p) == r.payload.len(),
        record_frame(data, p, file_id) == record_view(p, r, file_id),
{
    let rb = record_bytes(r);
    let len = r.payload.len() as int;
    let h0 = be32_bytes(r.ts_sec);
    let h1 = be32_bytes(r.ts_usec);
    let h2 = be32_bytes(len as u32);
    let h3 = be32_bytes(r.orig_len);
    assert(rb == h0 + h1 + h2 + h3 + r.payload);
    assert(rb.len() == 16 + len);
    assert(rb.subrange(0, 4) =~= h0);
    assert(rb.subrange(4, 8) =~= h1);
    assert(rb.subrange(8, 12) =~= h2);
    assert(rb.subrange(12, 16) =~= h3);
    assert(rb.subrange(16, 16 + len) =~= r.payload);
    let w = data.subrange(p, p + rb.len());
    assert(data.subrange(p, p + 4) =~= w.subrange(0, 4));
    assert(data.subrange(p + 4, p + 8) =~= w.subrange(4, 8));
    assert(data.subrange(p + 8, p + 12) =~= w.subrange(8, 12));
    assert(data.subrange(p + 12, p + 16) =~= w.subrange(12, 16));
    assert(data.subrange(p + 16, p + 16 + len) =~= w.subrange(16, 16 + len));
    lemma_be32_within(data, p, r.ts_sec);
    lemma_be32_within(data, p + 4, r.ts_usec);
    lemma_be32_within(data, p + 8, len as u32);
    lemma_be32_within(data, p + 12, r.orig_len);
}

proof fn lemma_frames_step(data: Seq<u8>, p: int, r: CaptureRecord, file_id: usize)
    requires
        0 <= p,
        ETHERNET_HDR_LEN <= r.payload.len() <= u32::MAX,
        p + record_bytes(r).len() <= data.len(),
        data.subrange(p, p + record_bytes(r).len()) == record_bytes(r),
    ensures
        frames_from(data, p, file_id) == after(
            seq![record_view(p, r, file_id)],
            frames_from(data, p + RECORD_HEADER_LEN + r.payload.len(), file_id),
        ),
{
    lemma_record_within(data, p, r, file_id);
}

/// Walking records written after `prefix` yields their frames, then whatever
/// the bytes after them yield.
#[verifier::rlimit(30)]
proof fn lemma_walk_records(prefix: Seq<u8>, rs: Seq<CaptureRecord>, tail: Seq<u8>, file_id: usize)
    requires
        records_well_formed(rs),
    ensures
        frames_from(prefix + records_bytes(rs) + tail, prefix.len() as int, file_id) == after(
            record_views(prefix.len() as int, rs, file_id),
            frames_from(
                prefix + records_bytes(rs) + tail,
                prefix.len() + records_bytes(rs).len() as int,
                file_id,
            ),
        ),
    decreases rs.len(),
{
    let data = prefix + records_bytes(rs) + tail;
    let p = prefix.len() as int;
    if rs.len() == 0 {
        assert(records_bytes(rs) =~= Seq::<u8>::empty());
        match frames_from(data, p, file_id) {
            Ok(rest) => {
                assert(Seq::<FrameView>::empty() + rest =~= rest);
            },
            Err(e) => {},
        }
    } else {
        let r = rs[0];
        let rb = record_bytes(r);
        let more = rs.drop_first();
        assert(ETHERNET_HDR_LEN <= rs[0].payload.len() <= u32::MAX);
        let len = r.payload.len() as int;
        let prefix2 = prefix + rb;
        assert(records_bytes(rs) == rb + records_bytes(more));
        assert(data =~= prefix2 + records_bytes(more) + tail);
        assert(records_well_formed(more)) by {
            assert forall|i: int| 0 <= i < more.len() implies ETHERNET_HDR_LEN
                <= #[trigger] more[i].payload.len() <= u32::MAX by {
                assert(more[i] == rs[i + 1]);
            }
        }
        lemma_walk_records(prefix2, more, tail, file_id);
        assert(data.subrange(p, p + rb.len()) =~= rb);
        lemma_frames_step(data, p, r, file_id);
        let one = seq![record_view(p, r, file_id)];
        let v2 = record_views(p + 16 + len, more, file_id);
        assert(record_views(p, rs, file_id) == one + v2);
        assert(prefix2.len() == p + 16 + len);
        match frames_from(data, p + 16 + len + records_bytes(more).len() as int, file_id) {
            Ok(rest) => {
                assert(one + v2 + rest =~= one + (v2 + rest));
            },
            Err(e) => {},
        }
    }
}

proof fn lemma_record_views_facts(base: int, rs: Seq<CaptureRecord>, file_id: usize)
    requires
        0 <= base,
        base + records_bytes(rs).len() <= usize::MAX,
        records_well_formed(rs),
    ensures
        record_views(base, rs, file_id).len() == rs.len(),
        forall|i: int|
            0 <= i < rs.len() ==> (#[trigger] record_views(base, rs, file_id)[i]).raw
                == rs[i].payload,
        forall|i: int|
            0 <= i < rs.len() ==> base <= (#[trigger] record_views(base, rs, file_id)[i]).pkt_ptr
                < base + records_bytes(rs).len(),
        forall|i: int, j: int|
            0 <= i < j < rs.len() ==> (#[trigger] record_views(base, rs, file_id)[i]).pkt_ptr
                < (#[trigger] record_views(base, rs, file_id)[j]).pkt_ptr,
    decreases rs.len(),
{
    if rs.len() > 0 {
        let more = rs.drop_first();
        assert(ETHERNET_HDR_LEN <= rs[0].payload.len() <= u32::MAX);
        assert(records_well_formed(more)) by {
            assert forall|i: int| 0 <= i < more.len() implies ETHERNET_HDR_LEN
                <= #[trigger] more[i].payload.len() <= u32::MAX by {
                assert(more[i] == rs[i + 1]);
            }
        }
        let base2 = base + RECORD_HEADER_LEN + rs[0].payload.len();
        assert(records_bytes(rs).len() == record_bytes(rs[0]).len() + records_bytes(more).len());
        lemma_record_views_facts(base2, more, file_id);
        let v = record_views(base, rs, file_id);
        let v2 = record_views(base2, more, file_id);
        assert(v == seq![record_view(base, rs[0], file_id)] + v2);
        assert forall|i: int| 0 < i < rs.len() implies #[trigger] v[i] == v2[i - 1] && rs[i]
            == more[i - 1] by {}
    }
}

/// A capture file made of a global header and well-formed records is read to
/// its end without error: one frame per record, in file order, each holding
/// its record's bytes, and the frames' offsets strictly increase.
pub proof fn lemma_well_formed_capture(header: Seq<u8>, rs: Seq<CaptureRecord>, file_id: usize)
    requires
        header.len() == FILE_HEADER_LEN,
        records_well_formed(rs),
        header.len() + records_bytes(rs).len() <= usize::MAX,
    ensures
        capture_frames(header + records_bytes(rs), file_id) == Ok::<Seq<FrameView>, CaptureError>(
            record_views(FILE_HEADER_LEN as int, rs, file_id),
        ),
        record_views(FILE_HEADER_LEN as int, rs, file_id).len() == rs.len(),
        forall|i: int|
            0 <= i < rs.len() ==> (#[trigger] record_views(FILE_HEADER_LEN as int, rs, file_id)[i]).raw
                == rs[i].payload,
        forall|i: int, j: int|
            0 <= i < j < rs.len() ==> (#[trigger] record_views(FILE_HEADER_LEN as int, rs, file_id)[i]).pkt_ptr
                < (#[trigger] record_views(FILE_HEADER_LEN as int, rs, file_id)[j]).pkt_ptr,
{
    let data = header + records_bytes(rs);
    let tail = Seq::<u8>::empty();
    assert(header + records_bytes(rs) + tail =~= data);
    lemma_walk_records(header, rs, tail, file_id);
    let v = record_views(FILE_HEADER_LEN as int, rs, file_id);
    assert(frames_from(data, data.len() as int, file_id) == Ok::<Seq<FrameView>, CaptureError>(
        Seq::empty(),
    ));
    assert(v + Seq::<FrameView>::empty() =~= v);
    lemma_record_views_facts(FILE_HEADER_LEN as int, rs, file_id);
}

/// The bytes of a record whose header declares `declared` bytes, whatever the
/// record actually holds.
pub open spec fn declared_record_bytes(r: CaptureRecord, declared: u32) -> Seq<u8> {
    be32_bytes(r.ts_sec) + be32_bytes(r.ts_usec) + be32_bytes(declared) + be32_bytes(r.orig_len)
        + r.payload
}

/// When the last record of a capture file declares more bytes than remain,
/// reading the file ends with a truncated-payload error at that record's
/// offset, and no frame is handed out for it.
pub proof fn lemma_truncated_last_record(
    header: Seq<u8>,
    rs: Seq<CaptureRecord>,
    last: CaptureRecord,
    declared: u32,
    file_id: usize,
)
    requires
        header.len() == FILE_HEADER_LEN,
        records_well_formed(rs),
        last.payload.len() < declared,
    ensures
        capture_frames(header + records_bytes(rs) + declared_record_bytes(last, declared), file_id)
            == Err::<Seq<FrameView>, CaptureError>(
            CaptureError::TruncatedPayload {
                offset: (FILE_HEADER_LEN + records_bytes(rs).len()) as usize,
            },
        ),
{
    let tail = declared_record_bytes(last, declared);
    let data = header + records_bytes(rs) + tail;
    lemma_walk_records(header, rs, tail, file_id);
    let q = FILE_HEADER_LEN + records_bytes(rs).len();
    let h2 = be32_bytes(declared);
    assert(tail == be32_bytes(last.ts_sec) + be32_bytes(last.ts_usec) + h2 + be32_bytes(
        last.orig_len,
    ) + last.payload);
    assert(tail.subrange(8, 12) =~= h2);
    assert(data.subrange(q + 8, q + 12) =~= tail.subrange(8, 12));
    lemma_be32_within(data, q + 8, declared);
    assert(data.len() - q == 16 + last.payload.len());
}

} // verus!
