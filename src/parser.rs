//! Account records inside a payload buffer, and the tar framing that carries
//! payload buffers.
use crate::bytes::{
    bytes32_at, le_bytes, le_u64_at, lemma_le_bytes_len, lemma_le_roundtrip, lemma_pow256_8,
    read_array, read_bytes32, read_u64_le,
};
use crate::decoders::{
    all_wf, dispatch_step, BatchView, DecodedBatch, DecoderRegistry, DecoderView,
};
use crate::filters::ResolvedFilters;
use crate::pubkey::Pubkey;
use vstd::arithmetic::div_mod::{lemma_add_mod_noop, lemma_mul_mod_noop_left};
use vstd::prelude::*;
use vstd::seq_lib::lemma_concat_associative;

verus! {

/// Size in bytes of an account header on the wire.
pub const HEADER_SIZE: usize = 136;

/// The fixed-size header that precedes each account's payload.
#[derive(Clone, Copy, Debug)]
pub struct AccountHeader {
    pub write_version: u64,
    pub data_len: u64,
    pub pubkey: Pubkey,
    pub lamports: u64,
    pub rent_epoch: u64,
    pub owner: Pubkey,
    pub executable: u8,
    pub padding: [u8; 7],
    pub hash: [u8; 32],
}

/// An account header as plain values.
pub struct HeaderView {
    pub write_version: u64,
    pub data_len: u64,
    pub pubkey: Seq<u8>,
    pub lamports: u64,
    pub rent_epoch: u64,
    pub owner: Seq<u8>,
    pub executable: u8,
    pub padding: Seq<u8>,
    pub hash: Seq<u8>,
}

impl View for AccountHeader {
    type V = HeaderView;

    open spec fn view(&self) -> HeaderView {
        HeaderView {
            write_version: self.write_version,
            data_len: self.data_len,
            pubkey: self.pubkey@,
            lamports: self.lamports,
            rent_epoch: self.rent_epoch,
            owner: self.owner@,
            executable: self.executable,
            padding: self.padding@,
            hash: self.hash@,
        }
    }
}

/// The header laid out little-endian and packed at `s[at .. at + 136]`.
#[verifier::opaque]
pub open spec fn header_at(s: Seq<u8>, at: int) -> HeaderView {
    HeaderView {
        write_version: le_u64_at(s, at),
        data_len: le_u64_at(s, at + 8),
        pubkey: bytes32_at(s, at + 16),
        lamports: le_u64_at(s, at + 48),
        rent_epoch: le_u64_at(s, at + 56),
        owner: bytes32_at(s, at + 64),
        executable: s[at + 96],
        padding: s.subrange(at + 97, at + 104),
        hash: bytes32_at(s, at + 104),
    }
}

impl AccountHeader {
    /// Reads the header stored at `buf[at .. at + 136]`.
    pub fn read(buf: &[u8], at: usize) -> (r: AccountHeader)
        requires
            at + HEADER_SIZE <= buf@.len(),
        ensures
            r@ == header_at(buf@, at as int),
    {
        reveal(header_at);
        let _n = buf.len();
        AccountHeader {
            write_version: read_u64_le(buf, at),
            data_len: read_u64_le(buf, at + 8),
            pubkey: Pubkey(read_bytes32(buf, at + 16)),
            lamports: read_u64_le(buf, at + 48),
            rent_epoch: read_u64_le(buf, at + 56),
            owner: Pubkey(read_bytes32(buf, at + 64)),
            executable: buf[at + 96],
            padding: read_array::<7>(buf, at + 97),
            hash: read_bytes32(buf, at + 104),
        }
    }
}

/// `x` rounded up to a multiple of 8.
pub open spec fn align8(x: int) -> int {
    x + (8 - x % 8) % 8
}

/// An account record as plain values: its header and its payload.
pub type RecordView = (HeaderView, Seq<u8>);

/// The complete records of the payload buffer `buf` read from offset `off`
/// on, and the offset of a header whose payload runs past the end, if any.
/// Each record is a header, `data_len` payload bytes, and padding to the next
/// multiple of 8; fewer than 136 bytes left end the records.
pub open spec fn scan_records(buf: Seq<u8>, off: int) -> (Seq<RecordView>, Option<int>)
    decreases buf.len() + 8 - off,
{
    if off < 0 || off + HEADER_SIZE > buf.len() {
        (seq![], None)
    } else {
        let h = header_at(buf, off);
        let end = off + HEADER_SIZE + h.data_len;
        if end > buf.len() {
            (seq![], Some(off))
        } else {
            let rest = scan_records(buf, align8(end));
            (seq![(h, buf.subrange(off + HEADER_SIZE, end))] + rest.0, rest.1)
        }
    }
}

/// The headers of `recs` that pass the filter `f`, in order.
pub open spec fn filtered(f: ResolvedFilters, recs: Seq<RecordView>) -> Seq<HeaderView>
    decreases recs.len(),
{
    if recs.len() == 0 {
        seq![]
    } else {
        let before = filtered(f, recs.drop_last());
        if f.accepts(recs.last().0) {
            before.push(recs.last().0)
        } else {
            before
        }
    }
}

/// The decoders after every record of `recs` is routed in order, and the
/// batches handed out meanwhile.
pub open spec fn run_decoders(ds: Seq<DecoderView>, recs: Seq<RecordView>) -> (Seq<DecoderView>, Seq<BatchView>)
    decreases recs.len(),
{
    if recs.len() == 0 {
        (ds, seq![])
    } else {
        let before = run_decoders(ds, recs.drop_last());
        let step = dispatch_step(before.0, recs.last().0, recs.last().1);
        (
            step.0,
            match step.1 {
                Some(b) => before.1.push(b),
                None => before.1,
            },
        )
    }
}

/// The views of a vector of headers.
pub open spec fn headers_view(hs: Seq<AccountHeader>) -> Seq<HeaderView> {
    hs.map_values(|h: AccountHeader| h@)
}

/// The views of a vector of batches.
pub open spec fn batches_view(bs: Seq<DecodedBatch>) -> Seq<BatchView> {
    bs.map_values(|b: DecodedBatch| b@)
}

/// What one payload buffer yields: the headers that pass the filter, in
/// buffer order, and the decoded batches handed out while reading it.
pub struct ParsedBuffer {
    pub accounts: Vec<AccountHeader>,
    pub decoded: Vec<DecodedBatch>,
}

/// Why a payload buffer cannot be read.
#[derive(Clone, Copy, Debug, PartialEq, Eq)]
pub enum PayloadError {
    /// The header at `offset` announces more payload than the buffer holds.
    RecordOverrun { offset: usize },
}

/// The offset after a record's padding is a multiple of 8, at or after the
/// record's end and less than 8 bytes beyond it.
pub proof fn lemma_align8(x: int)
    requires
        x >= 0,
    ensures
        x <= align8(x) <= x + 7,
        align8(x) % 8 == 0,
{
}

/// The 136 wire bytes of a header.
pub open spec fn header_bytes(h: HeaderView) -> Seq<u8> {
    le_bytes(h.write_version as nat, 8) + le_bytes(h.data_len as nat, 8) + h.pubkey + le_bytes(
        h.lamports as nat,
        8,
    ) + le_bytes(h.rent_epoch as nat, 8) + h.owner + seq![h.executable] + h.padding + h.hash
}

/// Whether a header and payload can stand on the wire: keys and hash of 32
/// bytes, 7 padding bytes, and a `data_len` that is the payload's length.
pub open spec fn record_ok(r: RecordView) -> bool {
    &&& r.0.pubkey.len() == 32
    &&& r.0.owner.len() == 32
    &&& r.0.hash.len() == 32
    &&& r.0.padding.len() == 7
    &&& r.0.data_len == r.1.len()
}

/// A record on the wire: header, payload, and zero bytes up to a multiple of 8.
pub open spec fn record_bytes(r: RecordView) -> Seq<u8> {
    header_bytes(r.0) + r.1 + Seq::new(
        (align8(HEADER_SIZE + r.1.len()) - HEADER_SIZE - r.1.len()) as nat,
        |i: int| 0u8,
    )
}

/// Records laid end to end.
pub open spec fn records_bytes(rs: Seq<RecordView>) -> Seq<u8>
    decreases rs.len(),
{
    if rs.len() == 0 {
        seq![]
    } else {
        record_bytes(rs[0]) + records_bytes(rs.drop_first())
    }
}

proof fn lemma_header_bytes_len(h: HeaderView)
    requires
        h.pubkey.len() == 32,
        h.owner.len() == 32,
        h.hash.len() == 32,
        h.padding.len() == 7,
    ensures
        header_bytes(h).len() == HEADER_SIZE,
{
    lemma_le_bytes_len(h.write_version as nat, 8);
    lemma_le_bytes_len(h.data_len as nat, 8);
    lemma_le_bytes_len(h.lamports as nat, 8);
    lemma_le_bytes_len(h.rent_epoch as nat, 8);
}

proof fn lemma_field_u64(s: Seq<u8>, at: int, x: u64)
    requires
        0 <= at,
        at + 8 <= s.len(),
        s.subrange(at, at + 8) == le_bytes(x as nat, 8),
    ensures
        le_u64_at(s, at) == x,
{
    lemma_le_roundtrip(s, at, x as nat, 8);
    lemma_pow256_8();
}

proof fn lemma_sub_of_sub(s: Seq<u8>, at: int, w: Seq<u8>, a: int, b: int)
    requires
        0 <= at,
        0 <= a <= b <= w.len(),
        at + w.len() <= s.len(),
        s.subrange(at, at + w.len()) == w,
    ensures
        s.subrange(at + a, at + b) == w.subrange(a, b),
{
    assert forall|k: int| 0 <= k < b - a implies #[trigger] s.subrange(at + a, at + b)[k]
        == w.subrange(a, b)[k] by {
        assert(s.subrange(at, at + w.len())[a + k] == s[at + a + k]);
    }
    assert(s.subrange(at + a, at + b) =~= w.subrange(a, b));
}

proof fn lemma_header_at_bytes(s: Seq<u8>, at: int, h: HeaderView)
    requires
        h.pubkey.len() == 32,
        h.owner.len() == 32,
        h.hash.len() == 32,
        h.padding.len() == 7,
        0 <= at,
        at + HEADER_SIZE <= s.len(),
        s.subrange(at, at + HEADER_SIZE) == header_bytes(h),
    ensures
        header_at(s, at) == h,
{
    reveal(header_at);
    let w = header_bytes(h);
    lemma_header_bytes_len(h);
    lemma_le_bytes_len(h.write_version as nat, 8);
    lemma_le_bytes_len(h.data_len as nat, 8);
    lemma_le_bytes_len(h.lamports as nat, 8);
    lemma_le_bytes_len(h.rent_epoch as nat, 8);
    lemma_sub_of_sub(s, at, w, 0, 8);
    assert(w.subrange(0, 8) =~= le_bytes(h.write_version as nat, 8));
    lemma_field_u64(s, at, h.write_version);
    lemma_sub_of_sub(s, at, w, 8, 16);
    assert(w.subrange(8, 16) =~= le_bytes(h.data_len as nat, 8));
    lemma_field_u64(s, at + 8, h.data_len);
    lemma_sub_of_sub(s, at, w, 16, 48);
    assert(w.subrange(16, 48) =~= h.pubkey);
    lemma_sub_of_sub(s, at, w, 48, 56);
    assert(w.subrange(48, 56) =~= le_bytes(h.lamports as nat, 8));
    lemma_field_u64(s, at + 48, h.lamports);
    lemma_sub_of_sub(s, at, w, 56, 64);
    assert(w.subrange(56, 64) =~= le_bytes(h.rent_epoch as nat, 8));
    lemma_field_u64(s, at + 56, h.rent_epoch);
    lemma_sub_of_sub(s, at, w, 64, 96);
    assert(w.subrange(64, 96) =~= h.owner);
    assert(s[at + 96] == s.subrange(at, at + HEADER_SIZE)[96]);
    assert(w[96] == h.executable);
    lemma_sub_of_sub(s, at, w, 97, 104);
    assert(w.subrange(97, 104) =~= h.padding);
    lemma_sub_of_sub(s, at, w, 104, 136);
    assert(w.subrange(104, 136) =~= h.hash);
}

proof fn lemma_sub_concat(a: Seq<u8>, b: Seq<u8>, c: Seq<u8>)
    ensures
        (a + b + c).subrange(a.len() as int, (a.len() + b.len()) as int) == b,
{
    assert((a + b + c).subrange(a.len() as int, (a.len() + b.len()) as int) =~= b);
}

proof fn lemma_align8_shift(a: int, x: int)
    requires
        a >= 0,
        x >= 0,
        a % 8 == 0,
    ensures
        align8(a + x) == a + align8(x),
{
    assert((a + x) % 8 == x % 8) by {
        vstd::arithmetic::div_mod::lemma_add_mod_noop(a, x, 8);
        vstd::arithmetic::div_mod::lemma_mod_twice(x, 8);
    }
}

proof fn lemma_scan_first(prefix: Seq<u8>, r0: RecordView, tail: Seq<u8>)
    requires
        prefix.len() % 8 == 0,
        record_ok(r0),
    ensures
        ({
            let buf = prefix + record_bytes(r0) + tail;
            let off = prefix.len() as int;
            &&& off + HEADER_SIZE <= buf.len()
            &&& header_at(buf, off) == r0.0
            &&& off + HEADER_SIZE + r0.0.data_len <= buf.len()
            &&& buf.subrange(off + HEADER_SIZE, off + HEADER_SIZE + r0.0.data_len) == r0.1
            &&& align8(off + HEADER_SIZE + r0.0.data_len) == (prefix + record_bytes(r0)).len()
        }),
{
    let h = r0.0;
    let data = r0.1;
    lemma_header_bytes_len(h);
    let hb = header_bytes(h);
    let pad = Seq::new(
        (align8(HEADER_SIZE + data.len()) - HEADER_SIZE - data.len()) as nat,
        |i: int| 0u8,
    );
    lemma_align8(HEADER_SIZE + data.len());
    let buf = prefix + record_bytes(r0) + tail;
    let off = prefix.len() as int;
    assert(record_bytes(r0) == hb + data + pad);
    lemma_concat_associative(prefix, hb + data + pad, tail);
    lemma_concat_associative(hb + data, pad, tail);
    lemma_concat_associative(hb, data, pad + tail);
    assert(buf == prefix + (hb + (data + (pad + tail))));
    lemma_concat_associative(prefix, hb, data + (pad + tail));
    assert(buf == prefix + hb + (data + (pad + tail)));
    lemma_sub_concat(prefix, hb, data + (pad + tail));
    lemma_header_at_bytes(buf, off, h);
    lemma_concat_associative(prefix + hb, data, pad + tail);
    assert(buf == prefix + hb + data + (pad + tail));
    lemma_sub_concat(prefix + hb, data, pad + tail);
    lemma_align8_shift(off, HEADER_SIZE + data.len());
}

proof fn lemma_scan_encoded(prefix: Seq<u8>, rs: Seq<RecordView>, t: Seq<u8>)
    requires
        prefix.len() % 8 == 0,
        forall|i: int| 0 <= i < rs.len() ==> record_ok(#[trigger] rs[i]),
        t.len() < HEADER_SIZE,
    ensures
        scan_records(prefix + records_bytes(rs) + t, prefix.len() as int) == (rs, None::<int>),
    decreases rs.len(),
{
    let buf = prefix + records_bytes(rs) + t;
    if rs.len() == 0 {
        assert(records_bytes(rs) =~= Seq::<u8>::empty());
        assert(rs =~= Seq::<RecordView>::empty());
    } else {
        let r0 = rs[0];
        let rest = rs.drop_first();
        assert(record_ok(r0));
        let p2 = prefix + record_bytes(r0);
        assert(records_bytes(rs) == record_bytes(r0) + records_bytes(rest));
        lemma_concat_associative(prefix, record_bytes(r0), records_bytes(rest));
        assert(buf == p2 + records_bytes(rest) + t);
        lemma_concat_associative(prefix + record_bytes(r0), records_bytes(rest), t);
        lemma_concat_associative(prefix, record_bytes(r0), records_bytes(rest) + t);
        assert(buf == prefix + record_bytes(r0) + (records_bytes(rest) + t));
        lemma_scan_first(prefix, r0, records_bytes(rest) + t);
        lemma_align8(HEADER_SIZE + r0.1.len());
        lemma_header_bytes_len(r0.0);
        assert(p2.len() % 8 == 0);
        assert forall|i: int| 0 <= i < rest.len() implies record_ok(#[trigger] rest[i]) by {
            assert(rest[i] == rs[i + 1]);
        }
        lemma_scan_encoded(p2, rest, t);
        assert(seq![(r0.0, r0.1)] + rest =~= rs);
    }
}

/// Records laid end to end, followed by fewer than 136 stray bytes, read back
/// as exactly those records, in order, with no overrun.
pub proof fn lemma_round_trip_tiling(rs: Seq<RecordView>, t: Seq<u8>)
    requires
        forall|i: int| 0 <= i < rs.len() ==> record_ok(#[trigger] rs[i]),
        t.len() < HEADER_SIZE,
    ensures
        scan_records(records_bytes(rs) + t, 0) == (rs, None::<int>),
{
    lemma_scan_encoded(seq![], rs, t);
    assert(Seq::<u8>::empty() + records_bytes(rs) + t =~= records_bytes(rs) + t);
}

/// Whether `h` is the header of one of the records `recs`.
pub open spec fn has_header(recs: Seq<RecordView>, h: HeaderView) -> bool {
    exists|i: int| 0 <= i < recs.len() && (#[trigger] recs[i]).0 == h
}

proof fn lemma_filtered_members(f: ResolvedFilters, recs: Seq<RecordView>, h: HeaderView)
    ensures
        filtered(f, recs).contains(h) <==> (has_header(recs, h) && f.accepts(h)),
    decreases recs.len(),
{
    if recs.len() > 0 {
        let init = recs.drop_last();
        lemma_filtered_members(f, init, h);
        if has_header(recs, h) {
            let i = choose|i: int| 0 <= i < recs.len() && (#[trigger] recs[i]).0 == h;
            if i < recs.len() - 1 {
                assert(init[i] == recs[i]);
            }
        }
        if has_header(init, h) {
            let i = choose|i: int| 0 <= i < init.len() && (#[trigger] init[i]).0 == h;
            assert(recs[i] == init[i]);
        }
        if f.accepts(recs.last().0) {
            assert(filtered(f, recs) == filtered(f, init).push(recs.last().0));
            if filtered(f, recs).contains(h) && !filtered(f, init).contains(h) {
                let k = choose|k: int| 0 <= k < filtered(f, recs).len() && filtered(f, recs)[k] == h;
                assert(k == filtered(f, init).len());
                assert(recs[recs.len() - 1].0 == h);
            }
            if filtered(f, init).contains(h) {
                let k = choose|k: int| 0 <= k < filtered(f, init).len() && filtered(f, init)[k] == h;
                assert(filtered(f, recs)[k] == h);
            }
            if h == recs.last().0 {
                assert(filtered(f, recs)[filtered(f, init).len() as int] == h);
                assert(recs[recs.len() - 1].0 == h);
            }
        } else {
            if h == recs.last().0 {
                assert(!f.accepts(h));
            }
        }
    }
}

/// A header is among the headers kept from a payload buffer exactly when it
/// is the header of one of the buffer's records and passes the filter.
pub proof fn lemma_filter_soundness(f: ResolvedFilters, buf: Seq<u8>, h: HeaderView)
    ensures
        filtered(f, scan_records(buf, 0).0).contains(h) <==> (has_header(scan_records(buf, 0).0, h)
            && f.accepts(h)),
{
    lemma_filtered_members(f, scan_records(buf, 0).0, h);
}

/// Without `include_dead`, no header kept from a payload buffer has zero lamports.
pub proof fn lemma_filter_drops_dead(f: ResolvedFilters, buf: Seq<u8>)
    requires
        !f.include_dead,
    ensures
        forall|i: int|
            0 <= i < filtered(f, scan_records(buf, 0).0).len() ==> (#[trigger] filtered(
                f,
                scan_records(buf, 0).0,
            )[i]).lamports != 0,
{
    let kept = filtered(f, scan_records(buf, 0).0);
    assert forall|i: int| 0 <= i < kept.len() implies (#[trigger] kept[i]).lamports != 0 by {
        lemma_filtered_members(f, scan_records(buf, 0).0, kept[i]);
        assert(kept.contains(kept[i]));
    }
}

impl AccountHeader {
    /// Reads every account record of a payload buffer: routes each to the
    /// first decoder that claims it, and keeps the headers that pass the
    /// filter. A trailing fragment shorter than a header is ignored; a
    /// payload that runs past the end of the buffer is an error.
    pub fn parse_accounts(
        buf: &[u8],
        filters: &ResolvedFilters,
        registry: &mut DecoderRegistry,
    ) -> (r: Result<ParsedBuffer, PayloadError>)
        requires
            all_wf(old(registry)@),
        ensures
            all_wf(final(registry)@),
            final(registry)@ == run_decoders(old(registry)@, scan_records(buf@, 0).0).0,
            r is Ok <==> scan_records(buf@, 0).1 is None,
            r is Err ==> r->Err_0 == (PayloadError::RecordOverrun {
                offset: scan_records(buf@, 0).1->Some_0 as usize,
            }),
            r is Ok ==> headers_view(r->Ok_0.accounts@) == filtered(*filters, scan_records(buf@, 0).0),
            r is Ok ==> batches_view(r->Ok_0.decoded@) == run_decoders(
                old(registry)@,
                scan_records(buf@, 0).0,
            ).1,
    {
        let ghost s = buf@;
        let ghost ds0 = registry@;
        let len = buf.len();
        let mut off: usize = 0;
        let mut accounts: Vec<AccountHeader> = Vec::new();
        let mut decoded: Vec<DecodedBatch> = Vec::new();
        let ghost mut done: Seq<RecordView> = seq![];
        proof {
            assert(seq![] + scan_records(s, 0).0 =~= scan_records(s, 0).0);
            assert(headers_view(accounts@) =~= seq![]);
            assert(batches_view(decoded@) =~= seq![]);
        }
        while off <= len && len - off >= HEADER_SIZE
            invariant
                s == buf@,
                len == s.len(),
                off <= len,
                scan_records(s, 0) == (done + scan_records(s, off as int).0, scan_records(
                    s,
                    off as int,
                ).1),
                headers_view(accounts@) == filtered(*filters, done),
                registry@ == run_decoders(ds0, done).0,
                ds0 == old(registry)@,
                batches_view(decoded@) == run_decoders(ds0, done).1,
                all_wf(registry@),
            decreases len - off,
        {
            let header = AccountHeader::read(buf, off);
            let start = off + HEADER_SIZE;
            if header.data_len > (len - start) as u64 {
                proof {
                    assert(scan_records(s, off as int).0 =~= Seq::<RecordView>::empty());
                    assert(done + Seq::<RecordView>::empty() =~= done);
                }
                return Err(PayloadError::RecordOverrun { offset: off });
            }
            let end = start + header.data_len as usize;
            let data = &buf[start..end];
            let ghost rec: RecordView = (header@, s.subrange(start as int, end as int));
            let ghost rest = scan_records(s, align8(end as int));
            proof {
                lemma_align8(end as int);
                assert(scan_records(s, off as int) == (seq![rec] + rest.0, rest.1));
                assert(done + (seq![rec] + rest.0) =~= done.push(rec) + rest.0);
                assert(done.push(rec).drop_last() =~= done);
            }
            let out = registry.dispatch(&header, data);
            match out {
                Some(b) => {
                    let ghost before = decoded@;
                    decoded.push(b);
                    assert(batches_view(decoded@) =~= batches_view(before).push(b@));
                },
                None => {},
            }
            if filters.matches(&header) {
                let ghost before = accounts@;
                accounts.push(header);
                assert(headers_view(accounts@) =~= headers_view(before).push(header@));
            }
            proof {
                done = done.push(rec);
            }
            if len - end < 8 {
                off = len;
            } else {
                off = end + (8 - end % 8) % 8;
            }
            assert(scan_records(s, off as int) == rest);
        }
        proof {
            assert(done + seq![] =~= done);
        }
        Ok(ParsedBuffer { accounts, decoded })
    }
}

/// Size in bytes of a tar block.
pub const TAR_BLOCK: usize = 512;

/// `2^64`.
pub open spec fn two64() -> int {
    0x1_0000_0000_0000_0000
}

/// Index of the first NUL or space in `s` at or after `i`, or `s.len()`.
pub open spec fn field_end_from(s: Seq<u8>, i: int) -> int
    decreases s.len() - i,
{
    if i >= s.len() || s[i] == 0 || s[i] == 32 {
        i
    } else {
        field_end_from(s, i + 1)
    }
}

/// Value of one octal digit byte: its distance above `'0'`, modulo 256.
pub open spec fn octal_digit(b: u8) -> int {
    (b as int - 48) % 256
}

/// Value of a string of octal digit bytes, most significant first.
pub open spec fn octal_value(s: Seq<u8>) -> int
    decreases s.len(),
{
    if s.len() == 0 {
        0
    } else {
        octal_value(s.drop_last()) * 8 + octal_digit(s.last())
    }
}

/// Value of bytes read as a big-endian number.
pub open spec fn be_value(s: Seq<u8>) -> int
    decreases s.len(),
{
    if s.len() == 0 {
        0
    } else {
        be_value(s.drop_last()) * 256 + s.last()
    }
}

/// A tar numeric field: big-endian binary after the first byte when that byte
/// has its high bit set, else octal text up to the first NUL or space; both
/// taken modulo `2^64`.
pub open spec fn numeric_field_value(s: Seq<u8>) -> u64 {
    if s.len() > 0 && s[0] >= 128 {
        (be_value(s.drop_first()) % two64()) as u64
    } else {
        (octal_value(s.take(field_end_from(s, 0))) % two64()) as u64
    }
}

proof fn lemma_octal_value_nonneg(s: Seq<u8>)
    ensures
        octal_value(s) >= 0,
    decreases s.len(),
{
    if s.len() > 0 {
        lemma_octal_value_nonneg(s.drop_last());
    }
}

proof fn lemma_be_value_nonneg(s: Seq<u8>)
    ensures
        be_value(s) >= 0,
    decreases s.len(),
{
    if s.len() > 0 {
        lemma_be_value_nonneg(s.drop_last());
    }
}

proof fn lemma_field_end_bounds(s: Seq<u8>, i: int)
    requires
        0 <= i <= s.len(),
    ensures
        i <= field_end_from(s, i) <= s.len(),
        forall|k: int| i <= k < field_end_from(s, i) ==> s[k] != 0 && s[k] != 32,
        field_end_from(s, i) < s.len() ==> (s[field_end_from(s, i)] == 0 || s[field_end_from(s, i)] == 32),
    decreases s.len() - i,
{
    if !(i >= s.len() || s[i] == 0 || s[i] == 32) {
        lemma_field_end_bounds(s, i + 1);
    }
}

/// One step of a base-`radix` accumulation modulo `2^64`.
proof fn lemma_wrapping_step(v: int, radix: int, d: int)
    requires
        v >= 0,
        0 <= d < 256,
        radix == 8 || radix == 256,
    ensures
        ((((v % two64()) * radix) % two64()) + d) % two64() == (v * radix + d) % two64(),
{
    lemma_mul_mod_noop_left(v, radix, two64());
    lemma_add_mod_noop(v * radix, d, two64());
    assert(d % two64() == d);
    assert((((v * radix) % two64()) % two64()) == (v * radix) % two64()) by {
        vstd::arithmetic::div_mod::lemma_mod_twice(v * radix, two64());
    }
}

/// Parses a tar numeric field: NUL- or space-terminated octal text, or, when
/// the first byte has its high bit set, big-endian binary in the remaining
/// bytes (the GNU extension). Digits and overflow wrap modulo `2^64`.
pub fn parse_octal(bytes: &[u8]) -> (r: u64)
    ensures
        r == numeric_field_value(bytes@),
{
    let ghost s = bytes@;
    let len = bytes.len();
    if len > 0 && bytes[0] >= 128 {
        let mut acc: u64 = 0;
        let mut i: usize = 1;
        while i < len
            invariant
                1 <= i <= len,
                len == s.len(),
                s == bytes@,
                acc as int == be_value(s.subrange(1, i as int)) % two64(),
            decreases len - i,
        {
            proof {
                let p = s.subrange(1, i as int);
                let q = s.subrange(1, i as int + 1);
                assert(q.drop_last() =~= p);
                assert(q.last() == s[i as int]);
                lemma_be_value_nonneg(p);
                lemma_wrapping_step(be_value(p), 256, s[i as int] as int);
            }
            acc = acc.wrapping_mul(256).wrapping_add(bytes[i] as u64);
            i = i + 1;
        }
        assert(s.subrange(1, len as int) =~= s.drop_first());
        return acc;
    }
    let mut n: u64 = 0;
    let mut i: usize = 0;
    proof {
        lemma_field_end_bounds(s, 0);
    }
    while i < len && bytes[i] != 0 && bytes[i] != 32
        invariant
            0 <= i <= len,
            len == s.len(),
            s == bytes@,
            i <= field_end_from(s, 0) <= len,
            forall|k: int| 0 <= k < field_end_from(s, 0) ==> s[k] != 0 && s[k] != 32,
            field_end_from(s, 0) < s.len() ==> (s[field_end_from(s, 0)] == 0 || s[field_end_from(s, 0)] == 32),
            n as int == octal_value(s.take(i as int)) % two64(),
        decreases len - i,
    {
        let d: u64 = ((bytes[i] as u64) + 208) % 256;
        proof {
            let p = s.take(i as int);
            let q = s.take(i as int + 1);
            assert(q.drop_last() =~= p);
            assert(q.last() == s[i as int]);
            assert(d as int == octal_digit(s[i as int]));
            lemma_octal_value_nonneg(p);
            lemma_wrapping_step(octal_value(p), 8, d as int);
            assert(i as int != field_end_from(s, 0));
        }
        n = n.wrapping_mul(8).wrapping_add(d);
        i = i + 1;
    }
    proof {
        assert(i as int == field_end_from(s, 0)) by {
            if i < len {
                assert(s[i as int] == 0 || s[i as int] == 32);
                if (i as int) < field_end_from(s, 0) {
                    assert(false);
                }
            }
        }
    }
    n
}

/// The bytes `"accounts/"`.
pub open spec fn accounts_marker() -> Seq<u8> {
    seq![97u8, 99, 99, 111, 117, 110, 116, 115, 47]
}

/// Whether a tar header describes a regular file whose name field (its first
/// 100 bytes) contains `"accounts/"`.
pub open spec fn is_accounts_header(h: Seq<u8>) -> bool {
    &&& (h[156] == 48 || h[156] == 0)
    &&& exists|i: int| 0 <= i <= 91 && #[trigger] h.subrange(i, i + 9) == accounts_marker()
}

/// Whether `h[i .. i + 9]` is `"accounts/"`.
fn marker_at(h: &[u8; 512], i: usize) -> (r: bool)
    requires
        i <= 91,
    ensures
        r == (h@.subrange(i as int, i + 9) == accounts_marker()),
{
    let r = h[i] == 97 && h[i + 1] == 99 && h[i + 2] == 99 && h[i + 3] == 111 && h[i + 4] == 117
        && h[i + 5] == 110 && h[i + 6] == 116 && h[i + 7] == 115 && h[i + 8] == 47;
    proof {
        if r {
            assert(h@.subrange(i as int, i + 9) =~= accounts_marker());
        } else {
            if h@.subrange(i as int, i + 9) == accounts_marker() {
                assert(h@.subrange(i as int, i + 9)[0] == h@[i as int]);
                assert(h@.subrange(i as int, i + 9)[1] == h@[i + 1]);
                assert(h@.subrange(i as int, i + 9)[2] == h@[i + 2]);
                assert(h@.subrange(i as int, i + 9)[3] == h@[i + 3]);
                assert(h@.subrange(i as int, i + 9)[4] == h@[i + 4]);
                assert(h@.subrange(i as int, i + 9)[5] == h@[i + 5]);
                assert(h@.subrange(i as int, i + 9)[6] == h@[i + 6]);
                assert(h@.subrange(i as int, i + 9)[7] == h@[i + 7]);
                assert(h@.subrange(i as int, i + 9)[8] == h@[i + 8]);
            }
        }
    }
    r
}

/// Whether a tar header describes a regular file (type `'0'` or NUL) whose
/// name contains `"accounts/"` anywhere.
pub fn is_accounts_entry(header: &[u8; TAR_BLOCK]) -> (r: bool)
    ensures
        r == is_accounts_header(header@),
{
    let type_flag = header[156];
    if type_flag != 48 && type_flag != 0 {
        return false;
    }
    let mut i: usize = 0;
    while i <= 91
        invariant
            0 <= i <= 92,
            header@.len() == 512,
            header@[156] == 48 || header@[156] == 0,
            forall|j: int| 0 <= j < i ==> #[trigger] header@.subrange(j, j + 9) != accounts_marker(),
        decreases 92 - i,
    {
        if marker_at(header, i) {
            assert(header@.subrange(i as int, i + 9) == accounts_marker());
            return true;
        }
        i = i + 1;
    }
    false
}

/// What one tar header block tells the reader to do next.
#[derive(Clone, Copy, Debug, PartialEq, Eq)]
pub enum TarEntry {
    /// An all-zero block: the archive ends here.
    End,
    /// An accounts file: `size` payload bytes, then padding up to `padded`.
    Accounts { size: u64, padded: u64 },
    /// Any other entry: `padded` bytes to skip.
    Skip { padded: u64 },
}

/// Why a tar stream cannot be read.
#[derive(Clone, Copy, Debug, PartialEq, Eq)]
pub enum ArchiveError {
    /// An entry's size, rounded up to whole blocks, does not fit in 64 bits.
    ImpossibleSize { size: u64 },
    /// The stream ends inside an entry's data.
    TruncatedEntry,
}

/// `size` rounded up to a multiple of the tar block size.
pub open spec fn padded_len(size: u64) -> int {
    (size as int + 511) / 512 * 512
}

/// Whether every byte of `s` is zero.
pub open spec fn all_zero(s: Seq<u8>) -> bool {
    forall|i: int| 0 <= i < s.len() ==> s[i] == 0
}

/// What a tar header block means.
pub open spec fn entry_of(h: Seq<u8>) -> Result<TarEntry, ArchiveError> {
    if all_zero(h) {
        Ok(TarEntry::End)
    } else {
        let size = numeric_field_value(h.subrange(124, 136));
        if padded_len(size) > u64::MAX {
            Err(ArchiveError::ImpossibleSize { size })
        } else if is_accounts_header(h) {
            Ok(TarEntry::Accounts { size, padded: padded_len(size) as u64 })
        } else {
            Ok(TarEntry::Skip { padded: padded_len(size) as u64 })
        }
    }
}

/// Reads one tar header block: end of archive, an accounts file to take, or
/// an entry to skip, with the sizes of its data.
pub fn classify_header(header: &[u8; TAR_BLOCK]) -> (r: Result<TarEntry, ArchiveError>)
    ensures
        r == entry_of(header@),
{
    let mut i: usize = 0;
    let mut zero = true;
    while i < TAR_BLOCK
        invariant
            0 <= i <= 512,
            header@.len() == 512,
            zero == (forall|j: int| 0 <= j < i ==> header@[j] == 0),
        decreases 512 - i,
    {
        if header[i] != 0 {
            zero = false;
        }
        i = i + 1;
    }
    if zero {
        return Ok(TarEntry::End);
    }
    let sl = header.as_slice();
    let size = parse_octal(&sl[124..136]);
    proof {
        assert(sl@.subrange(124, 136) == header@.subrange(124, 136));
    }
    if size > u64::MAX - 511 {
        proof {
            assert((size as int + 511) / 512 * 512 > u64::MAX) by (nonlinear_arith)
                requires
                    size as int + 511 >= 0x1_0000_0000_0000_0000,
            ;
        }
        return Err(ArchiveError::ImpossibleSize { size });
    }
    let padded = (size + 511) / 512 * 512;
    proof {
        assert((size as int + 511) / 512 * 512 <= size as int + 511) by (nonlinear_arith);
    }
    if is_accounts_entry(header) {
        Ok(TarEntry::Accounts { size, padded })
    } else {
        Ok(TarEntry::Skip { padded })
    }
}

/// Adds `done` in front of the payloads of a successful walk.
pub open spec fn prefixed(
    done: Seq<Seq<u8>>,
    r: Result<Seq<Seq<u8>>, ArchiveError>,
) -> Result<Seq<Seq<u8>>, ArchiveError> {
    match r {
        Ok(rest) => Ok(done + rest),
        Err(e) => Err(e),
    }
}

/// The payloads of the accounts files of the tar stream `s`, read from the
/// header block at `pos` on. Fewer than 512 bytes left, or an all-zero block,
/// end the archive cleanly; data cut short is an error.
pub open spec fn payloads_from(s: Seq<u8>, pos: int) -> Result<Seq<Seq<u8>>, ArchiveError>
    decreases s.len() - pos,
{
    if pos < 0 || pos + 512 > s.len() {
        Ok(seq![])
    } else {
        match entry_of(s.subrange(pos, pos + 512)) {
            Err(e) => Err(e),
            Ok(TarEntry::End) => Ok(seq![]),
            Ok(TarEntry::Accounts { size, padded }) => if pos + 512 + padded > s.len() {
                Err(ArchiveError::TruncatedEntry)
            } else {
                prefixed(
                    seq![s.subrange(pos + 512, pos + 512 + size)],
                    payloads_from(s, pos + 512 + padded),
                )
            },
            Ok(TarEntry::Skip { padded }) => if pos + 512 + padded > s.len() {
                Err(ArchiveError::TruncatedEntry)
            } else {
                payloads_from(s, pos + 512 + padded)
            },
        }
    }
}

proof fn lemma_prefixed_assoc(a: Seq<Seq<u8>>, b: Seq<Seq<u8>>, r: Result<Seq<Seq<u8>>, ArchiveError>)
    ensures
        prefixed(a, prefixed(b, r)) == prefixed(a + b, r),
{
    if r is Ok {
        assert(a + (b + r->Ok_0) =~= (a + b) + r->Ok_0);
    }
}

/// The views of a vector of byte vectors.
pub open spec fn byte_vecs_view(v: Seq<Vec<u8>>) -> Seq<Seq<u8>> {
    v.map_values(|b: Vec<u8>| b@)
}

/// Walks an inflated tar stream and returns the payload of each accounts
/// file, in archive order.
pub fn accounts_payloads(archive: &[u8]) -> (r: Result<Vec<Vec<u8>>, ArchiveError>)
    ensures
        r is Ok <==> payloads_from(archive@, 0) is Ok,
        r is Ok ==> byte_vecs_view(r->Ok_0@) == payloads_from(archive@, 0)->Ok_0,
        r is Err ==> r->Err_0 == payloads_from(archive@, 0)->Err_0,
{
    let ghost s = archive@;
    let len = archive.len();
    let mut out: Vec<Vec<u8>> = Vec::new();
    let mut pos: usize = 0;
    proof {
        assert(byte_vecs_view(out@) =~= seq![]);
        assert(seq![] + payloads_from(s, 0)->Ok_0 =~= payloads_from(s, 0)->Ok_0);
    }
    while pos <= len && len - pos >= TAR_BLOCK
        invariant
            s == archive@,
            len == s.len(),
            pos <= len,
            payloads_from(s, 0) == prefixed(byte_vecs_view(out@), payloads_from(s, pos as int)),
        ensures
            payloads_from(s, 0) == prefixed(byte_vecs_view(out@), payloads_from(s, pos as int)),
            payloads_from(s, pos as int) == Ok::<Seq<Seq<u8>>, ArchiveError>(seq![]),
        decreases len - pos,
    {
        let header = read_array::<512>(archive, pos);
        let entry = classify_header(&header);
        let ghost done = byte_vecs_view(out@);
        match entry {
            Err(e) => {
                return Err(e);
            },
            Ok(TarEntry::End) => {
                break;
            },
            Ok(TarEntry::Accounts { size, padded }) => {
                if padded > (len - pos - 512) as u64 {
                    return Err(ArchiveError::TruncatedEntry);
                }
                let start = pos + 512;
                let payload = vstd::slice::slice_to_vec(&archive[start..start + size as usize]);
                proof {
                    lemma_prefixed_assoc(done, seq![payload@], payloads_from(s, start + padded));
                    assert(byte_vecs_view(out@.push(payload)) =~= done + seq![payload@]);
                }
                out.push(payload);
                pos = start + padded as usize;
            },
            Ok(TarEntry::Skip { padded }) => {
                if padded > (len - pos - 512) as u64 {
                    return Err(ArchiveError::TruncatedEntry);
                }
                pos = pos + 512 + padded as usize;
            },
        }
    }
    proof {
        assert(byte_vecs_view(out@) + seq![] =~= byte_vecs_view(out@));
    }
    Ok(out)
}

} // verus!
