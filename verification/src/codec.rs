//! Wire codec: pure construction of the fixed-size HID reports that the
//! device understands — reset, brightness, and chunked image uploads.

use vstd::arithmetic::div_mod::{lemma_basic_div, lemma_div_plus_one};
use vstd::prelude::*;
use vstd::slice::slice_subrange;

verus! {

/// Length of one feature report (reset, brightness).
pub const FEATURE_REPORT_LEN: usize = 32;

/// Length of one output report carrying image data.
pub const OUTPUT_REPORT_LEN: usize = 1024;

/// Length of the header at the front of an image-chunk output report.
pub const CHUNK_HEADER_LEN: usize = 8;

/// Image payload capacity of one output report.
pub const CHUNK_PAYLOAD_LEN: usize = 1016;

/// Largest image the codec will chunk: the chunk sequence number is sent
/// as a 16-bit field, so at most 65536 chunks can be numbered.
pub const MAX_IMAGE_LEN: usize = CHUNK_PAYLOAD_LEN * 65536;

/// A run of `n` zero bytes, the padding of every report.
pub open spec fn zero_bytes(n: nat) -> Seq<u8> {
    Seq::new(n, |i: int| 0u8)
}

/// The reset feature report: opcode bytes `[3, 2]`, zero-padded.
pub open spec fn reset_report() -> Seq<u8> {
    seq![3u8, 2u8] + zero_bytes((FEATURE_REPORT_LEN - 2) as nat)
}

/// The brightness feature report: opcode bytes `[3, 8]`, the level,
/// zero-padded.
pub open spec fn brightness_report(level: u8) -> Seq<u8> {
    seq![3u8, 8u8, level] + zero_bytes((FEATURE_REPORT_LEN - 3) as nat)
}

/// Builds the feature report that resets the device to a blank state.
pub fn encode_reset() -> (r: Vec<u8>)
    ensures
        r@ == reset_report(),
{
    let mut buf: Vec<u8> = Vec::new();
    buf.push(3);
    buf.push(2);
    while buf.len() < FEATURE_REPORT_LEN
        invariant
            2 <= buf@.len() <= FEATURE_REPORT_LEN,
            buf@[0] == 3u8,
            buf@[1] == 2u8,
            forall|i: int| 2 <= i < buf@.len() ==> buf@[i] == 0u8,
        decreases FEATURE_REPORT_LEN - buf@.len(),
    {
        buf.push(0);
    }
    proof {
        assert(buf@ =~= reset_report());
    }
    buf
}

/// Builds the feature report that sets the panel brightness to `level`,
/// on the 0 to 100 scale the device uses.
pub fn encode_brightness(level: u8) -> (r: Vec<u8>)
    requires
        level <= 100,
    ensures
        r@ == brightness_report(level),
{
    let mut buf: Vec<u8> = Vec::new();
    buf.push(3);
    buf.push(8);
    buf.push(level);
    while buf.len() < FEATURE_REPORT_LEN
        invariant
            3 <= buf@.len() <= FEATURE_REPORT_LEN,
            buf@[0] == 3u8,
            buf@[1] == 8u8,
            buf@[2] == level,
            forall|i: int| 3 <= i < buf@.len() ==> buf@[i] == 0u8,
        decreases FEATURE_REPORT_LEN - buf@.len(),
    {
        buf.push(0);
    }
    proof {
        assert(buf@ =~= brightness_report(level));
    }
    buf
}

/// The header of one image-chunk output report: report id, opcode,
/// button index, last-chunk flag, payload length and sequence number,
/// the two latter as little-endian 16-bit fields.
pub open spec fn chunk_header(button_index: u8, payload_len: nat, seq_no: nat, is_last: bool) -> Seq<
    u8,
> {
    seq![
        2u8,
        7u8,
        button_index,
        if is_last {
            1u8
        } else {
            0u8
        },
        (payload_len % 256) as u8,
        ((payload_len / 256) % 256) as u8,
        (seq_no % 256) as u8,
        ((seq_no / 256) % 256) as u8,
    ]
}

/// One whole image-chunk output report: header, payload, zero padding
/// up to the fixed report length.
pub open spec fn chunk_report(button_index: u8, payload: Seq<u8>, seq_no: nat, is_last: bool) -> Seq<
    u8,
> {
    chunk_header(button_index, payload.len(), seq_no, is_last) + payload + zero_bytes(
        (OUTPUT_REPORT_LEN - CHUNK_HEADER_LEN - payload.len()) as nat,
    )
}

/// How many chunks an image of `len` bytes splits into: one per full
/// payload, plus one for a final partial payload. An empty image sends
/// no chunk at all.
pub open spec fn num_chunks(len: nat) -> nat
    decreases len,
{
    if len == 0 {
        0
    } else if len <= CHUNK_PAYLOAD_LEN as nat {
        1
    } else {
        1 + num_chunks((len - CHUNK_PAYLOAD_LEN) as nat)
    }
}

/// The payload of chunk `i` of an image: the i-th full-capacity slice,
/// shorter only for the final chunk.
pub open spec fn chunk_payload(data: Seq<u8>, i: int) -> Seq<u8> {
    data.subrange(
        i * (CHUNK_PAYLOAD_LEN as int),
        if (i + 1) * (CHUNK_PAYLOAD_LEN as int) <= data.len() {
            (i + 1) * (CHUNK_PAYLOAD_LEN as int)
        } else {
            data.len() as int
        },
    )
}

/// The i-th output report of an image upload: its payload is chunk `i`,
/// its sequence number is `i`, and only the final chunk carries the
/// last-chunk flag.
pub open spec fn chunk_report_of(button_index: u8, data: Seq<u8>, i: int) -> Seq<u8> {
    chunk_report(button_index, chunk_payload(data, i), i as nat, i + 1 == num_chunks(data.len()))
}

/// Builds one image-chunk output report carrying the given payload.
pub fn encode_image_chunk(button_index: u8, payload: &[u8], seq_no: u16, is_last: bool) -> (r: Vec<
    u8,
>)
    requires
        payload@.len() <= CHUNK_PAYLOAD_LEN,
    ensures
        r@ == chunk_report(button_index, payload@, seq_no as nat, is_last),
{
    let len: usize = payload.len();
    let mut buf: Vec<u8> = Vec::new();
    buf.push(2);
    buf.push(7);
    buf.push(button_index);
    buf.push(if is_last { 1 } else { 0 });
    buf.push((len % 256) as u8);
    buf.push((len / 256) as u8);
    buf.push((seq_no % 256) as u8);
    buf.push((seq_no / 256) as u8);
    let ghost hdr = chunk_header(button_index, payload@.len(), seq_no as nat, is_last);
    proof {
        assert(buf@ =~= hdr);
    }
    let mut k: usize = 0;
    while k < payload.len()
        invariant
            k <= payload@.len(),
            hdr.len() == CHUNK_HEADER_LEN,
            buf@ == hdr + payload@.subrange(0, k as int),
        decreases payload@.len() - k,
    {
        buf.push(payload[k]);
        proof {
            assert(buf@ =~= hdr + payload@.subrange(0, k + 1));
        }
        k = k + 1;
    }
    proof {
        assert(payload@.subrange(0, payload@.len() as int) =~= payload@);
    }
    while buf.len() < OUTPUT_REPORT_LEN
        invariant
            hdr.len() == CHUNK_HEADER_LEN,
            payload@.len() <= CHUNK_PAYLOAD_LEN,
            CHUNK_HEADER_LEN + payload@.len() <= buf@.len() <= OUTPUT_REPORT_LEN,
            buf@ == hdr + payload@ + zero_bytes(
                (buf@.len() - CHUNK_HEADER_LEN - payload@.len()) as nat,
            ),
        decreases OUTPUT_REPORT_LEN - buf@.len(),
    {
        buf.push(0);
        proof {
            assert(buf@ =~= hdr + payload@ + zero_bytes(
                (buf@.len() - CHUNK_HEADER_LEN - payload@.len()) as nat,
            ));
        }
    }
    buf
}

/// How many bytes of an image remain to be sent once `offset` bytes are
/// consumed.
pub open spec fn rem_len(len: nat, offset: nat) -> nat {
    if offset >= len {
        0
    } else {
        (len - offset) as nat
    }
}

/// A non-empty image splits into at least one chunk.
proof fn lemma_num_chunks_pos(len: nat)
    requires
        len > 0,
    ensures
        num_chunks(len) >= 1,
{
}

/// Chunk `i` exists only while its starting offset lies inside the
/// image.
proof fn lemma_chunk_start_in_range(len: nat, i: int)
    requires
        0 <= i < num_chunks(len),
    ensures
        i * (CHUNK_PAYLOAD_LEN as int) < len,
    decreases len,
{
    if i > 0 {
        lemma_chunk_start_in_range((len - CHUNK_PAYLOAD_LEN) as nat, i - 1);
    }
}

/// Splits an image into chunk reports, numbering chunks from 0 and
/// marking the final one, exactly as the device expects them on the
/// output channel.
pub fn build_image_reports(button_index: u8, data: &Vec<u8>) -> (r: Vec<Vec<u8>>)
    requires
        data@.len() <= MAX_IMAGE_LEN,
    ensures
        r@.len() == num_chunks(data@.len()),
        forall|i: int| 0 <= i < r@.len() ==> (#[trigger] r@[i])@ == chunk_report_of(
            button_index,
            data@,
            i,
        ),
{
    let mut reports: Vec<Vec<u8>> = Vec::new();
    let mut offset: usize = 0;
    let mut seq_no: usize = 0;
    while offset < data.len()
        invariant
            data@.len() <= MAX_IMAGE_LEN,
            offset == seq_no * (CHUNK_PAYLOAD_LEN as int),
            reports@.len() == seq_no,
            num_chunks(data@.len()) == seq_no + num_chunks(rem_len(data@.len(), offset as nat)),
            forall|i: int| 0 <= i < seq_no ==> (#[trigger] reports@[i])@ == chunk_report_of(
                button_index,
                data@,
                i,
            ),
        decreases rem_len(data@.len(), offset as nat),
    {
        let remaining: usize = data.len() - offset;
        let len: usize = if remaining < CHUNK_PAYLOAD_LEN {
            remaining
        } else {
            CHUNK_PAYLOAD_LEN
        };
        let is_last = remaining <= CHUNK_PAYLOAD_LEN;
        proof {
            assert(seq_no < 65536);
            assert((seq_no + 1) * (CHUNK_PAYLOAD_LEN as int) == offset + CHUNK_PAYLOAD_LEN);
        }
        let payload = slice_subrange(data.as_slice(), offset, offset + len);
        let report = encode_image_chunk(button_index, payload, seq_no as u16, is_last);
        proof {
            assert(payload@ =~= chunk_payload(data@, seq_no as int));
            assert(rem_len(data@.len(), offset as nat) == remaining);
            if remaining > CHUNK_PAYLOAD_LEN {
                lemma_num_chunks_pos((remaining - CHUNK_PAYLOAD_LEN) as nat);
            }
            assert(is_last == (seq_no + 1 == num_chunks(data@.len())));
        }
        reports.push(report);
        offset = offset + CHUNK_PAYLOAD_LEN;
        seq_no = seq_no + 1;
    }
    reports
}

/// The chunk payloads of an image, in sequence-number order.
pub open spec fn chunk_payloads(data: Seq<u8>) -> Seq<Seq<u8>> {
    Seq::new(num_chunks(data.len()), |i: int| chunk_payload(data, i))
}

/// Law: concatenating all chunk payloads in sequence-number order
/// reconstructs the original image bytes exactly.
pub proof fn lemma_chunks_reconstruct(data: Seq<u8>)
    ensures
        chunk_payloads(data).flatten() == data,
    decreases data.len(),
{
    let c = CHUNK_PAYLOAD_LEN as int;
    let s = chunk_payloads(data);
    if data.len() == 0 {
        assert(s.flatten() =~= data);
    } else if data.len() <= c {
        assert(s.len() == 1);
        assert(s.drop_first().len() == 0);
        assert(s.drop_first().flatten() =~= Seq::<u8>::empty());
        assert(s.first() =~= data);
        assert(s.flatten() =~= data);
    } else {
        let rest = data.skip(c);
        lemma_chunks_reconstruct(rest);
        let s2 = chunk_payloads(rest);
        assert(num_chunks(data.len()) == 1 + num_chunks(rest.len()));
        assert forall|i: int| 0 <= i < s2.len() implies s.drop_first()[i] == s2[i] by {
            lemma_chunk_start_in_range(rest.len(), i);
            lemma_chunk_start_in_range(data.len(), i + 1);
            assert(chunk_payload(data, i + 1) =~= chunk_payload(rest, i));
        }
        assert(s.drop_first() =~= s2);
        assert(s.flatten() == s.first() + s2.flatten());
        assert(s.first() =~= data.subrange(0, c));
        assert(s.flatten() =~= data);
    }
}

/// Law: an image of `len` bytes splits into exactly the round-up of
/// `len` over the payload capacity, i.e. ceil(len / capacity) chunks.
pub proof fn lemma_num_chunks_is_ceil(len: nat)
    ensures
        num_chunks(len) == (len + (CHUNK_PAYLOAD_LEN - 1) as nat) / (CHUNK_PAYLOAD_LEN as nat),
    decreases len,
{
    let c = CHUNK_PAYLOAD_LEN as int;
    if len == 0 {
        lemma_basic_div(c - 1, c);
    } else if len <= c {
        lemma_basic_div(len - 1, c);
        lemma_div_plus_one(len - 1, c);
    } else {
        lemma_num_chunks_is_ceil((len - CHUNK_PAYLOAD_LEN) as nat);
        lemma_div_plus_one(len - 1 - c, c);
    }
}

} // verus!
