//! UCD2 framing: the frame layout, its checksum, the internal request packet, and the
//! reassembly of frames from a byte stream.
use vstd::prelude::*;

verus! {

/// The four magic bytes `UCD2` that open every frame.
pub open spec fn ucd2_magic() -> Seq<u8> {
    seq![0x55u8, 0x43u8, 0x44u8, 0x32u8]
}

/// One step of the checksum's polynomial division: shift left, folding in 0x04c11db7 when the
/// top bit falls out.
pub open spec fn crc_poly_step(v: u32) -> u32 {
    if v & 0x8000_0000 != 0 {
        (v << 1u32) ^ 0x04c1_1db7u32
    } else {
        v << 1u32
    }
}

/// `n` polynomial steps from `v`.
pub open spec fn crc_poly_steps(v: u32, n: nat) -> u32
    decreases n,
{
    if n == 0 {
        v
    } else {
        crc_poly_steps(crc_poly_step(v), (n - 1) as nat)
    }
}

/// Entry `index` of the checksum table: eight polynomial steps from `index << 24`.
pub open spec fn ucd2_table_entry(index: int) -> u32 {
    crc_poly_steps(((index as u32) << 24u32), 8)
}

/// One table round: shift out the top byte and fold in the table entry it selects.
pub open spec fn crc_table_round(crc: u32) -> u32 {
    (crc << 8u32) ^ ucd2_table_entry((crc >> 24u32) as int)
}

/// The checksum state after one more byte: the byte is folded into the low bits, then four
/// table rounds follow.
pub open spec fn crc_byte(crc: u32, b: u8) -> u32 {
    crc_table_round(crc_table_round(crc_table_round(crc_table_round(crc ^ (b as u32)))))
}

/// The checksum state after the first `n` bytes, starting from `0xffffffff`.
pub open spec fn ucd2_checksum_prefix(bytes: Seq<u8>, n: nat) -> u32
    decreases n,
{
    if n == 0 {
        0xffff_ffffu32
    } else {
        crc_byte(ucd2_checksum_prefix(bytes, (n - 1) as nat), bytes[n - 1])
    }
}

/// The UCD2 checksum of a byte sequence.
pub open spec fn ucd2_checksum_spec(bytes: Seq<u8>) -> u32 {
    ucd2_checksum_prefix(bytes, bytes.len())
}

/// The four little-endian bytes of a 32-bit value.
pub open spec fn le32_bytes(v: u32) -> Seq<u8> {
    seq![v as u8, (v >> 8u32) as u8, (v >> 16u32) as u8, (v >> 24u32) as u8]
}

/// The two little-endian bytes of a 16-bit value.
pub open spec fn le16_bytes(v: u16) -> Seq<u8> {
    seq![v as u8, (v >> 8u16) as u8]
}

/// The 32-bit little-endian value stored at `i`.
pub open spec fn read_le32(s: Seq<u8>, i: int) -> int {
    s[i] + 256 * s[i + 1] + 65536 * s[i + 2] + 16777216 * s[i + 3]
}

/// The 16-bit little-endian value stored at `i`.
pub open spec fn read_le16(s: Seq<u8>, i: int) -> int {
    s[i] + 256 * s[i + 1]
}

/// The twelve header bytes of a frame: magic, version 1, header length 12, group, code and the
/// payload length (as a 32-bit value).
pub open spec fn ucd2_header(group: u8, code: u8, payload_len: nat) -> Seq<u8> {
    ucd2_magic() + seq![0x01u8, 0x0cu8, group, code] + le32_bytes(payload_len as u32)
}

/// A complete frame: header and payload followed by the little-endian checksum of both.
pub open spec fn ucd2_frame_spec(group: u8, code: u8, payload: Seq<u8>) -> Seq<u8> {
    let body = ucd2_header(group, code, payload.len()) + payload;
    body + le32_bytes(ucd2_checksum_spec(body))
}

/// The internal request packet: command id (LE16), method id, request id (LE32), two zero bytes,
/// then the command body.
pub open spec fn internal_packet_spec(command_id: u16, method_id: u8, request_id: u32, body: Seq<u8>) -> Seq<u8> {
    le16_bytes(command_id) + seq![method_id] + le32_bytes(request_id) + seq![0u8, 0u8] + body
}

/// Reading back the four bytes written for a 32-bit value gives the value.
pub proof fn lemma_le32_roundtrip(v: u32)
    ensures
        read_le32(le32_bytes(v), 0) == v as int,
{
    let b0 = v as u8;
    let b1 = (v >> 8u32) as u8;
    let b2 = (v >> 16u32) as u8;
    let b3 = (v >> 24u32) as u8;
    assert(b0 + 256 * b1 + 65536 * b2 + 16777216 * b3 == v) by (bit_vector)
        requires
            b0 == v as u8,
            b1 == (v >> 8u32) as u8,
            b2 == (v >> 16u32) as u8,
            b3 == (v >> 24u32) as u8,
    ;
}

/// Appends the little-endian bytes of a 32-bit value.
pub fn push_le32(out: &mut Vec<u8>, v: u32)
    ensures
        final(out)@ == old(out)@ + le32_bytes(v),
{
    out.push(v as u8);
    out.push((v >> 8u32) as u8);
    out.push((v >> 16u32) as u8);
    out.push((v >> 24u32) as u8);
    assert(final(out)@ =~= old(out)@ + le32_bytes(v));
}

/// Appends the little-endian bytes of a 16-bit value.
pub fn push_le16(out: &mut Vec<u8>, v: u16)
    ensures
        final(out)@ == old(out)@ + le16_bytes(v),
{
    out.push(v as u8);
    out.push((v >> 8u16) as u8);
    assert(final(out)@ =~= old(out)@ + le16_bytes(v));
}

/// Appends every byte of `bytes`.
pub fn push_all(out: &mut Vec<u8>, bytes: &[u8])
    ensures
        final(out)@ == old(out)@ + bytes@,
{
    let mut i: usize = 0;
    let n = bytes.len();
    while i < n
        invariant
            n == bytes@.len(),
            i <= n,
            out@ == old(out)@ + bytes@.subrange(0, i as int),
        decreases n - i,
    {
        out.push(bytes[i]);
        i = i + 1;
        assert(out@ =~= old(out)@ + bytes@.subrange(0, i as int));
    }
    assert(bytes@.subrange(0, n as int) =~= bytes@);
}

/// The 32-bit value stored little-endian at `i` in `bytes`.
pub fn le32_at(bytes: &[u8], i: usize) -> (r: u32)
    requires
        i + 4 <= bytes@.len(),
    ensures
        r as int == read_le32(bytes@, i as int),
{
    let b0 = bytes[i] as u32;
    let b1 = bytes[i + 1] as u32;
    let b2 = bytes[i + 2] as u32;
    let b3 = bytes[i + 3] as u32;
    b0 + 256 * b1 + 65536 * b2 + 16777216 * b3
}

/// The 16-bit value stored little-endian at `i` in `bytes`.
pub fn le16_at(bytes: &[u8], i: usize) -> (r: u16)
    requires
        i + 2 <= bytes@.len(),
    ensures
        r as int == read_le16(bytes@, i as int),
{
    let b0 = bytes[i] as u16;
    let b1 = bytes[i + 1] as u16;
    b0 + 256 * b1
}

/// The 256-entry checksum table.
pub fn ucd2_checksum_table() -> (table: Vec<u32>)
    ensures
        table@.len() == 256,
        forall|i: int| 0 <= i < 256 ==> #[trigger] table@[i] == ucd2_table_entry(i),
{
    let mut table: Vec<u32> = Vec::with_capacity(256);
    let mut index: u32 = 0;
    while index < 256
        invariant
            index <= 256,
            table@.len() == index,
            forall|i: int| 0 <= i < index ==> #[trigger] table@[i] == ucd2_table_entry(i),
        decreases 256 - index,
    {
        let mut value: u32 = index << 24u32;
        let mut step: u32 = 0;
        while step < 8
            invariant
                step <= 8,
                index < 256,
                crc_poly_steps(value, (8 - step) as nat) == ucd2_table_entry(index as int),
            decreases 8 - step,
        {
            if value & 0x8000_0000 != 0 {
                value = (value << 1u32) ^ 0x04c1_1db7;
            } else {
                value = value << 1u32;
            }
            step = step + 1;
        }
        table.push(value);
        index = index + 1;
    }
    table
}

/// The UCD2 checksum of `bytes`.
pub fn ucd2_checksum(bytes: &[u8]) -> (r: u32)
    ensures
        r == ucd2_checksum_spec(bytes@),
{
    let table = ucd2_checksum_table();
    let mut crc: u32 = 0xffff_ffff;
    let mut i: usize = 0;
    let n = bytes.len();
    while i < n
        invariant
            n == bytes@.len(),
            i <= n,
            table@.len() == 256,
            forall|k: int| 0 <= k < 256 ==> #[trigger] table@[k] == ucd2_table_entry(k),
            crc == ucd2_checksum_prefix(bytes@, i as nat),
        decreases n - i,
    {
        crc = crc ^ (bytes[i] as u32);
        let mut round: u32 = 0;
        let ghost start = crc;
        while round < 4
            invariant
                round <= 4,
                table@.len() == 256,
                forall|k: int| 0 <= k < 256 ==> #[trigger] table@[k] == ucd2_table_entry(k),
                round == 0 ==> crc == start,
                round == 1 ==> crc == crc_table_round(start),
                round == 2 ==> crc == crc_table_round(crc_table_round(start)),
                round == 3 ==> crc == crc_table_round(crc_table_round(crc_table_round(start))),
                round == 4 ==> crc == crc_table_round(
                    crc_table_round(crc_table_round(crc_table_round(start))),
                ),
            decreases 4 - round,
        {
            let index = (crc >> 24u32) as usize;
            assert(crc >> 24u32 < 256) by (bit_vector);
            crc = (crc << 8u32) ^ table[index];
            round = round + 1;
        }
        i = i + 1;
    }
    assert(bytes@.len() == n);
    crc
}

/// Builds a complete UCD2 frame around `payload`.
pub fn build_ucd2_frame(group: u8, code: u8, payload: &[u8]) -> (frame: Vec<u8>)
    ensures
        frame@ == ucd2_frame_spec(group, code, payload@),
{
    let mut frame: Vec<u8> = Vec::new();
    frame.push(0x55);
    frame.push(0x43);
    frame.push(0x44);
    frame.push(0x32);
    frame.push(0x01);
    frame.push(0x0c);
    frame.push(group);
    frame.push(code);
    push_le32(&mut frame, payload.len() as u32);
    push_all(&mut frame, payload);
    assert(frame@ =~= ucd2_header(group, code, payload@.len()) + payload@);
    let checksum = ucd2_checksum(frame.as_slice());
    push_le32(&mut frame, checksum);
    frame
}

/// Builds an internal request packet with request id `0x80000001`.
pub fn build_internal_packet(command_id: u16, method_id: u8, body: &[u8]) -> (packet: Vec<u8>)
    ensures
        packet@ == internal_packet_spec(command_id, method_id, 0x8000_0001u32, body@),
{
    build_internal_packet_with_request_id(command_id, method_id, 0x8000_0001, body)
}

/// Builds an internal request packet.
pub fn build_internal_packet_with_request_id(
    command_id: u16,
    method_id: u8,
    request_id: u32,
    body: &[u8],
) -> (packet: Vec<u8>)
    ensures
        packet@ == internal_packet_spec(command_id, method_id, request_id, body@),
{
    let mut payload: Vec<u8> = Vec::new();
    push_le16(&mut payload, command_id);
    payload.push(method_id);
    push_le32(&mut payload, request_id);
    payload.push(0);
    payload.push(0);
    push_all(&mut payload, body);
    assert(payload@ =~= internal_packet_spec(command_id, method_id, request_id, body@));
    payload
}

} // verus!

verus! {

/// Whether the four bytes at `i` are the frame magic.
pub open spec fn magic_at(s: Seq<u8>, i: int) -> bool {
    0 <= i && i + 4 <= s.len() && s[i] == 0x55 && s[i + 1] == 0x43 && s[i + 2] == 0x44 && s[i + 3]
        == 0x32
}

/// The offset of the first occurrence of the frame magic in `s`.
pub open spec fn find_magic(s: Seq<u8>) -> Option<int>
    decreases s.len(),
{
    if s.len() < 4 {
        None
    } else if magic_at(s, 0) {
        Some(0)
    } else {
        match find_magic(s.drop_first()) {
            Some(p) => Some(p + 1),
            None => None,
        }
    }
}

/// Largest frame that reassembly accepts: header, payload and checksum together.
pub open spec fn max_frame_len() -> int {
    0x400_0000int
}

/// What reassembly does to a receive buffer: the complete frames it takes out, in order, and
/// what stays in the buffer. Bytes before the magic are dropped; a header length outside
/// 12..=96 or a frame longer than 64 MiB skips one byte and resynchronises; an incomplete frame
/// stays whole; with no magic at all only the last three bytes are kept.
pub open spec fn extract_spec(buf: Seq<u8>) -> (Seq<Seq<u8>>, Seq<u8>)
    decreases buf.len(),
{
    match find_magic(buf) {
        None => (
            Seq::empty(),
            if buf.len() > 3 {
                buf.subrange(buf.len() - 3, buf.len() as int)
            } else {
                buf
            },
        ),
        Some(p) => {
            proof {
                lemma_find_magic_bounds(buf);
            }
            let b = buf.subrange(p, buf.len() as int);
            if b.len() < 12 {
                (Seq::empty(), b)
            } else {
                let header_len = b[5] as int;
                if !(12 <= header_len <= 96) {
                    extract_spec(b.subrange(1, b.len() as int))
                } else {
                    let total = header_len + read_le32(b, 8) + 4;
                    if total > max_frame_len() {
                        extract_spec(b.subrange(1, b.len() as int))
                    } else if b.len() < total {
                        (Seq::empty(), b)
                    } else {
                        let (frames, rest) = extract_spec(b.subrange(total, b.len() as int));
                        (seq![b.subrange(0, total)] + frames, rest)
                    }
                }
            }
        },
    }
}

/// The offset found is the first place where the frame magic occurs.
pub proof fn lemma_find_magic_bounds(s: Seq<u8>)
    ensures
        find_magic(s) matches Some(p) ==> 0 <= p && p + 4 <= s.len() && magic_at(s, p),
        find_magic(s) matches Some(p) ==> forall|q: int| 0 <= q < p ==> !magic_at(s, q),
        find_magic(s) is None ==> forall|q: int| 0 <= q ==> !magic_at(s, q),
    decreases s.len(),
{
    if s.len() >= 4 && !magic_at(s, 0) {
        lemma_find_magic_bounds(s.drop_first());
        assert forall|q: int| 1 <= q implies magic_at(s, q) == magic_at(s.drop_first(), q - 1) by {}
    }
}

/// The offset of the first frame magic at or after `from`.
pub fn find_magic_from(buf: &[u8], from: usize) -> (r: Option<usize>)
    requires
        from <= buf@.len(),
    ensures
        r matches Some(p) ==> find_magic(buf@.subrange(from as int, buf@.len() as int)) == Some(
            p - from,
        ) && from <= p,
        r is None ==> find_magic(buf@.subrange(from as int, buf@.len() as int)) is None,
{
    let n = buf.len();
    let mut i = from;
    while n - i >= 4
        invariant
            n == buf@.len(),
            from <= i <= n,
            find_magic(buf@.subrange(from as int, n as int)) == match find_magic(
                buf@.subrange(i as int, n as int),
            ) {
                Some(q) => Some(q + (i - from)),
                None => None,
            },
        decreases n - i,
    {
        if buf[i] == 0x55 && buf[i + 1] == 0x43 && buf[i + 2] == 0x44 && buf[i + 3] == 0x32 {
            return Some(i);
        }
        assert(buf@.subrange(i as int, n as int).drop_first() =~= buf@.subrange(i + 1, n as int));
        i = i + 1;
    }
    None
}

/// The bytes `v[a..b]` as a new vector.
pub fn copy_range(v: &[u8], a: usize, b: usize) -> (r: Vec<u8>)
    requires
        a <= b <= v@.len(),
    ensures
        r@ == v@.subrange(a as int, b as int),
{
    let mut r: Vec<u8> = Vec::new();
    let mut i = a;
    while i < b
        invariant
            a <= i <= b <= v@.len(),
            r@ == v@.subrange(a as int, i as int),
        decreases b - i,
    {
        r.push(v[i]);
        i = i + 1;
        assert(r@ =~= v@.subrange(a as int, i as int));
    }
    r
}

/// The views of a sequence of byte vectors.
pub open spec fn views(frames: Seq<Vec<u8>>) -> Seq<Seq<u8>> {
    frames.map_values(|f: Vec<u8>| f@)
}

/// Takes every complete frame out of the front of a receive buffer, leaving what cannot yet be
/// decided in the buffer.
pub fn extract_complete_ucd2_frames(buffer: &mut Vec<u8>) -> (frames: Vec<Vec<u8>>)
    ensures
        (views(frames@), final(buffer)@) == extract_spec(old(buffer)@),
{
    let ghost original = buffer@;
    let n = buffer.len();
    let mut frames: Vec<Vec<u8>> = Vec::new();
    let mut pos: usize = 0;
    let mut keep_from: usize;
    assert(original.subrange(0, n as int) =~= original);
    assert(views(frames@) + extract_spec(original).0 =~= extract_spec(original).0);
    loop
        invariant
            n == buffer@.len(),
            buffer@ == original,
            pos <= n,
            extract_spec(original) == (
                views(frames@) + extract_spec(original.subrange(pos as int, n as int)).0,
                extract_spec(original.subrange(pos as int, n as int)).1,
            ),
        ensures
            keep_from <= n,
            extract_spec(original) == (views(frames@), original.subrange(keep_from as int, n as int)),
        decreases n - pos,
    {
        let ghost rest = original.subrange(pos as int, n as int);
        proof {
            lemma_find_magic_bounds(rest);
        }
        match find_magic_from(buffer.as_slice(), pos) {
            None => {
                keep_from = if n - pos > 3 { n - 3 } else { pos };
                assert(original.subrange(keep_from as int, n as int) =~= (if rest.len() > 3 {
                    rest.subrange(rest.len() - 3, rest.len() as int)
                } else {
                    rest
                }));
                assert(views(frames@) + Seq::<Seq<u8>>::empty() =~= views(frames@));
                break;
            },
            Some(p) => {
                let ghost b = rest.subrange(p - pos, rest.len() as int);
                assert(b =~= original.subrange(p as int, n as int));
                if n - p < 12 {
                    keep_from = p;
                    assert(views(frames@) + Seq::<Seq<u8>>::empty() =~= views(frames@));
                    break;
                }
                let header_len = buffer[p + 5] as usize;
                if header_len < 12 || header_len > 96 {
                    assert(b.subrange(1, b.len() as int) =~= original.subrange(p + 1, n as int));
                    pos = p + 1;
                    continue;
                }
                let payload_len = le32_at(buffer.as_slice(), p + 8);
                assert(read_le32(b, 8) == read_le32(original, p + 8));
                let total: u64 = header_len as u64 + payload_len as u64 + 4;
                if total > 64 * 1024 * 1024 {
                    assert(b.subrange(1, b.len() as int) =~= original.subrange(p + 1, n as int));
                    pos = p + 1;
                    continue;
                }
                let total = total as usize;
                if n - p < total {
                    keep_from = p;
                    assert(views(frames@) + Seq::<Seq<u8>>::empty() =~= views(frames@));
                    break;
                }
                let frame = copy_range(buffer.as_slice(), p, p + total);
                assert(frame@ =~= b.subrange(0, total as int));
                assert(b.subrange(total as int, b.len() as int) =~= original.subrange(
                    (p + total) as int,
                    n as int,
                ));
                let ghost before = frames@;
                frames.push(frame);
                assert(views(frames@) =~= views(before) + seq![frame@]);
                pos = p + total;
                assert(views(frames@) + extract_spec(original.subrange(pos as int, n as int)).0
                    =~= views(before) + (seq![b.subrange(0, total as int)] + extract_spec(
                    original.subrange(pos as int, n as int),
                ).0));
            },
        }
    }
    let kept = copy_range(buffer.as_slice(), keep_from, n);
    *buffer = kept;
    frames
}

} // verus!

verus! {

/// The frames for a sequence of (group, code, payload) triples.
pub open spec fn frames_for(parts: Seq<(u8, u8, Seq<u8>)>) -> Seq<Seq<u8>> {
    parts.map_values(|t: (u8, u8, Seq<u8>)| ucd2_frame_spec(t.0, t.1, t.2))
}

/// The concatenation of a sequence of byte sequences.
pub open spec fn concat_all(s: Seq<Seq<u8>>) -> Seq<u8>
    decreases s.len(),
{
    if s.len() == 0 {
        Seq::empty()
    } else {
        s[0] + concat_all(s.drop_first())
    }
}

proof fn lemma_frame_layout(group: u8, code: u8, payload: Seq<u8>)
    requires
        payload.len() + 16 <= max_frame_len(),
    ensures
        ({
            let f = ucd2_frame_spec(group, code, payload);
            &&& f.len() == payload.len() + 16
            &&& magic_at(f, 0)
            &&& f[5] == 12
            &&& read_le32(f, 8) == payload.len()
        }),
{
    let f = ucd2_frame_spec(group, code, payload);
    let h = ucd2_header(group, code, payload.len());
    lemma_le32_roundtrip(payload.len() as u32);
    assert(f.subrange(0, 12) =~= h);
    assert(h.subrange(8, 12) =~= le32_bytes(payload.len() as u32));
}

/// Reassembling a buffer that holds whole frames, one after another, gives back exactly those
/// frames and leaves the buffer empty.
pub proof fn lemma_extract_whole_frames(parts: Seq<(u8, u8, Seq<u8>)>)
    requires
        forall|i: int| 0 <= i < parts.len() ==> #[trigger] parts[i].2.len() + 16 <= max_frame_len(),
    ensures
        extract_spec(concat_all(frames_for(parts))) == (frames_for(parts), Seq::<u8>::empty()),
    decreases parts.len(),
{
    let frames = frames_for(parts);
    let buf = concat_all(frames);
    if parts.len() == 0 {
        assert(frames =~= Seq::<Seq<u8>>::empty());
        assert(buf =~= Seq::<u8>::empty());
    } else {
        let (g, c, p) = parts[0];
        let f = ucd2_frame_spec(g, c, p);
        assert(parts[0].2.len() + 16 <= max_frame_len());
        lemma_frame_layout(g, c, p);
        let tail = parts.drop_first();
        assert(frames_for(tail) =~= frames.drop_first());
        assert(frames[0] == f);
        let rest = concat_all(frames.drop_first());
        assert(buf == f + rest);
        assert forall|i: int| 0 <= i < tail.len() implies #[trigger] tail[i].2.len() + 16
            <= max_frame_len() by {
            assert(tail[i] == parts[i + 1]);
        }
        lemma_extract_whole_frames(tail);
        assert(magic_at(buf, 0));
        assert(buf.subrange(0, buf.len() as int) =~= buf);
        assert(buf[5] == f[5]);
        assert(read_le32(buf, 8) == read_le32(f, 8));
        assert(buf.subrange(0, f.len() as int) =~= f);
        assert(buf.subrange(f.len() as int, buf.len() as int) =~= rest);
        assert(seq![f] + frames_for(tail) =~= frames);
    }
}

/// Reassembling a buffer of whole frames followed by the first part of one more frame gives
/// back exactly the whole frames, in order, and keeps the partial frame for the next read.
pub proof fn lemma_extract_frames_then_partial(
    parts: Seq<(u8, u8, Seq<u8>)>,
    group: u8,
    code: u8,
    payload: Seq<u8>,
    k: int,
)
    requires
        forall|i: int| 0 <= i < parts.len() ==> #[trigger] parts[i].2.len() + 16 <= max_frame_len(),
        payload.len() + 16 <= max_frame_len(),
        0 <= k < payload.len() + 16,
    ensures
        extract_spec(concat_all(frames_for(parts)) + ucd2_frame_spec(group, code, payload).subrange(0, k))
            == (frames_for(parts), ucd2_frame_spec(group, code, payload).subrange(0, k)),
    decreases parts.len(),
{
    let q = ucd2_frame_spec(group, code, payload).subrange(0, k);
    let frames = frames_for(parts);
    let buf = concat_all(frames) + q;
    if parts.len() == 0 {
        assert(frames =~= Seq::<Seq<u8>>::empty());
        assert(buf =~= q);
        lemma_extract_partial_frame(group, code, payload, k);
    } else {
        let (g, c, p) = parts[0];
        let f = ucd2_frame_spec(g, c, p);
        assert(parts[0].2.len() + 16 <= max_frame_len());
        lemma_frame_layout(g, c, p);
        let tail = parts.drop_first();
        assert(frames_for(tail) =~= frames.drop_first());
        assert(frames[0] == f);
        let rest = concat_all(frames.drop_first()) + q;
        assert(buf =~= f + rest);
        assert forall|i: int| 0 <= i < tail.len() implies #[trigger] tail[i].2.len() + 16
            <= max_frame_len() by {
            assert(tail[i] == parts[i + 1]);
        }
        lemma_extract_frames_then_partial(tail, group, code, payload, k);
        assert(magic_at(buf, 0));
        assert(buf.subrange(0, buf.len() as int) =~= buf);
        assert(buf[5] == f[5]);
        assert(read_le32(buf, 8) == read_le32(f, 8));
        assert(buf.subrange(0, f.len() as int) =~= f);
        assert(buf.subrange(f.len() as int, buf.len() as int) =~= rest);
        assert(seq![f] + frames_for(tail) =~= frames);
    }
}

/// A buffer that holds only the first part of a frame yields no frame and is kept whole, so the
/// frame comes out once its remaining bytes arrive.
pub proof fn lemma_extract_partial_frame(group: u8, code: u8, payload: Seq<u8>, k: int)
    requires
        payload.len() + 16 <= max_frame_len(),
        0 <= k < payload.len() + 16,
    ensures
        extract_spec(ucd2_frame_spec(group, code, payload).subrange(0, k)) == (
            Seq::<Seq<u8>>::empty(),
            ucd2_frame_spec(group, code, payload).subrange(0, k),
        ),
{
    let f = ucd2_frame_spec(group, code, payload);
    lemma_frame_layout(group, code, payload);
    let s = f.subrange(0, k);
    if k >= 4 {
        assert(magic_at(s, 0));
        assert(s.subrange(0, s.len() as int) =~= s);
        if k >= 12 {
            assert(s[5] == f[5]);
            assert(read_le32(s, 8) == read_le32(f, 8));
        }
    }
}

} // verus!
