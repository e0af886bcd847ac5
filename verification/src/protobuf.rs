//! Base-128 varints, zig-zag integers and field lookup in protobuf-encoded messages.
use vstd::prelude::*;

verus! {

/// The base-128 encoding of `value`: seven bits per byte, least significant group first,
/// with the high bit set on every byte but the last.
pub open spec fn varint_bytes(value: nat) -> Seq<u8>
    decreases value,
{
    if value <= 0x7f {
        seq![value as u8]
    } else {
        seq![((value % 128) + 128) as u8] + varint_bytes(value / 128)
    }
}

/// Appends the base-128 varint encoding of `value` to `output`.
pub fn encode_varint(value: u64, output: &mut Vec<u8>)
    ensures
        final(output)@ == old(output)@ + varint_bytes(value as nat),
{
    let mut value = value;
    let ghost start = old(output)@;
    let ghost original = value as nat;
    while value > 0x7f
        invariant
            start + varint_bytes(original) == output@ + varint_bytes(value as nat),
        decreases value,
    {
        let byte: u8 = ((value as u8) & 0x7f) | 0x80;
        assert(byte == ((value % 128) + 128) as u8) by (bit_vector)
            requires
                byte == ((value as u8) & 0x7f) | 0x80,
        ;
        assert(value >> 7 == value / 128) by (bit_vector);
        let ghost before = output@;
        output.push(byte);
        value = value >> 7;
        assert(output@ + varint_bytes(value as nat) =~= before + varint_bytes(
            (value * 128 + (byte - 128)) as nat,
        ));
    }
    output.push(value as u8);
    assert(varint_bytes(value as nat) =~= seq![value as u8]);
}

} // verus!

verus! {

/// `128` raised to the power `k`.
pub open spec fn pow128(k: nat) -> nat
    decreases k,
{
    if k == 0 {
        1
    } else {
        128 * pow128((k - 1) as nat)
    }
}

/// The sum of the low seven bits of the first `n` bytes, each group weighted by its position.
pub open spec fn varint_group_sum(bytes: Seq<u8>, n: nat) -> nat
    decreases n,
{
    if n == 0 {
        0
    } else {
        varint_group_sum(bytes, (n - 1) as nat) + ((bytes[n - 1] & 0x7f) as nat) * pow128(
            (n - 1) as nat,
        )
    }
}

/// The length of the varint that starts at index `i`, given that the bytes before `i` all carry
/// the continuation bit; at most ten bytes are read.
pub open spec fn varint_len_from(bytes: Seq<u8>, i: nat) -> Option<nat>
    decreases 10 - i,
{
    if i >= 10 || i >= bytes.len() {
        None
    } else if bytes[i as int] < 128 {
        Some(i + 1)
    } else {
        varint_len_from(bytes, i + 1)
    }
}

/// What `decode_varint` returns for `bytes`: the value of the leading varint, reduced to 64 bits,
/// and the number of bytes it occupies; `None` when no byte among the first ten ends a varint.
pub open spec fn decode_varint_spec(bytes: Seq<u8>) -> Option<(u64, nat)> {
    match varint_len_from(bytes, 0) {
        Some(n) => Some(((varint_group_sum(bytes, n) % 0x1_0000_0000_0000_0000) as u64, n)),
        None => None,
    }
}

proof fn lemma_varint_len_bounds(bytes: Seq<u8>, i: nat)
    ensures
        varint_len_from(bytes, i) matches Some(n) ==> i < n <= 10 && n <= bytes.len(),
    decreases 10 - i,
{
    if i < 10 && i < bytes.len() && bytes[i as int] >= 128 {
        lemma_varint_len_bounds(bytes, i + 1);
    }
}

/// The decoded length of a varint is between one and ten bytes and never exceeds the input.
pub proof fn lemma_decode_varint_len(bytes: Seq<u8>)
    ensures
        decode_varint_spec(bytes) matches Some((v, n)) ==> 1 <= n <= 10 && n <= bytes.len(),
{
    lemma_varint_len_bounds(bytes, 0);
}

/// Masking a byte to its low seven bits leaves a value below 128 whose parity is the byte's.
pub proof fn lemma_low_seven_bits(b: u8)
    ensures
        b & 0x7f < 128,
        (b & 0x7f) % 2 == b & 1,
        b < 128 ==> b & 0x7f == b,
{
    assert(b & 0x7f < 128 && (b & 0x7f) % 2 == b & 1 && (b < 128 ==> b & 0x7f == b))
        by (bit_vector);
}

proof fn lemma_group_sum_bound(bytes: Seq<u8>, n: nat)
    ensures
        varint_group_sum(bytes, n) < pow128(n),
    decreases n,
{
    if n > 0 {
        lemma_group_sum_bound(bytes, (n - 1) as nat);
        let x = (bytes[n - 1] & 0x7f) as nat;
        lemma_low_seven_bits(bytes[n - 1]);
        let p = pow128((n - 1) as nat);
        assert(varint_group_sum(bytes, (n - 1) as nat) + x * p < 128 * p) by (nonlinear_arith)
            requires
                varint_group_sum(bytes, (n - 1) as nat) < p,
                x < 128,
        ;
    }
}

proof fn lemma_len_from_ends_at(b: Seq<u8>, i: nat, n: nat)
    requires
        i < n <= 10,
        n <= b.len(),
        forall|k: int| i <= k < n - 1 ==> #[trigger] b[k] >= 128,
        b[n - 1] < 128,
    ensures
        varint_len_from(b, i) == Some(n),
    decreases n - i,
{
    if i + 1 < n {
        lemma_len_from_ends_at(b, i + 1, n);
    }
}

proof fn lemma_group_sum_first(b: Seq<u8>, n: nat)
    requires
        1 <= n <= b.len(),
    ensures
        varint_group_sum(b, n) == ((b[0] & 0x7f) as nat) + 128 * varint_group_sum(b.drop_first(), (n - 1) as nat),
    decreases n,
{
    if n > 1 {
        lemma_group_sum_first(b, (n - 1) as nat);
        let c = (b[n - 1] & 0x7f) as nat;
        let p = pow128((n - 2) as nat);
        let a = varint_group_sum(b.drop_first(), (n - 2) as nat);
        assert(b.drop_first()[n - 2] == b[n - 1]);
        assert(pow128((n - 1) as nat) == 128 * p);
        assert(varint_group_sum(b.drop_first(), (n - 1) as nat) == a + c * p);
        assert(varint_group_sum(b, n) == varint_group_sum(b, (n - 1) as nat) + c * pow128((n - 1) as nat));
        assert(128 * (a + c * p) == 128 * a + c * (128 * p)) by (nonlinear_arith);
    } else {
        assert(pow128(0) == 1);
        assert(varint_group_sum(b, 1) == varint_group_sum(b, 0) + ((b[0] & 0x7f) as nat) * pow128(0));
        assert(varint_group_sum(b.drop_first(), 0) == 0);
    }
}

proof fn lemma_varint_bytes_shape(x: nat, rest: Seq<u8>)
    ensures
        varint_bytes(x).len() >= 1,
        forall|k: int| 0 <= k < varint_bytes(x).len() - 1 ==> #[trigger] varint_bytes(x)[k] >= 128,
        varint_bytes(x)[varint_bytes(x).len() - 1] < 128,
        varint_group_sum(varint_bytes(x) + rest, varint_bytes(x).len()) == x,
    decreases x,
{
    let s = varint_bytes(x);
    let b = s + rest;
    if x <= 0x7f {
        let y = x as u8;
        assert(y & 0x7f == y) by (bit_vector)
            requires
                y <= 0x7f,
        ;
        assert(b[0] == y);
        assert(s.len() == 1);
        assert(varint_group_sum(b, 0) == 0);
        assert(pow128(0) == 1);
        assert(varint_group_sum(b, 1) == varint_group_sum(b, 0) + ((b[0] & 0x7f) as nat) * pow128(0));
    } else {
        let t = varint_bytes(x / 128);
        lemma_varint_bytes_shape(x / 128, rest);
        let y = ((x % 128) + 128) as u8;
        assert(y == x % 128 + 128);
        assert(y & 0x7f == y - 128) by (bit_vector)
            requires
                y >= 128,
        ;
        assert(s == seq![y] + t);
        assert forall|k: int| 0 <= k < s.len() - 1 implies #[trigger] s[k] >= 128 by {
            if k > 0 {
                assert(s[k] == t[k - 1]);
            }
        }
        assert(s[s.len() - 1] == t[t.len() - 1]);
        lemma_group_sum_first(b, s.len());
        assert(b.drop_first() =~= t + rest);
        assert(b[0] == y);
        assert(s.len() - 1 == t.len());
        assert(x == (x % 128) + 128 * (x / 128));
    }
}

proof fn lemma_varint_len_fits(x: nat, k: nat)
    requires
        1 <= k,
        x < pow128(k),
    ensures
        varint_bytes(x).len() <= k,
    decreases x,
{
    if x > 0x7f {
        assert(k >= 2) by {
            if k == 1 {
                assert(pow128(1) == 128 * pow128(0));
            }
        }
        assert(pow128(k) == 128 * pow128((k - 1) as nat));
        lemma_varint_len_fits(x / 128, (k - 1) as nat);
    }
}

/// Decoding what `encode_varint` wrote for a value gives the value back and the number of
/// bytes written, whatever follows it.
pub proof fn lemma_varint_roundtrip(value: u64, rest: Seq<u8>)
    ensures
        decode_varint_spec(varint_bytes(value as nat) + rest) == Some((value, varint_bytes(value as nat).len())),
{
    let x = value as nat;
    let s = varint_bytes(x);
    let b = s + rest;
    lemma_varint_bytes_shape(x, rest);
    assert(pow128(10) == 0x1_0000_0000_0000_0000 * 64) by {
        reveal_with_fuel(pow128, 11);
    }
    lemma_varint_len_fits(x, 10);
    assert forall|k: int| 0 <= k < s.len() - 1 implies #[trigger] b[k] >= 128 by {
        assert(b[k] == s[k]);
    }
    assert(b[s.len() - 1] == s[s.len() - 1]);
    lemma_len_from_ends_at(b, 0, s.len());
}

/// Decodes the base-128 varint at the start of `bytes`, reading at most ten bytes.
pub fn decode_varint(bytes: &[u8]) -> (r: Option<(u64, usize)>)
    ensures
        r matches Some((v, n)) ==> decode_varint_spec(bytes@) == Some((v, n as nat)),
        r is None ==> decode_varint_spec(bytes@) is None,
{
    assert(bytes@.subrange(0, bytes@.len() as int) =~= bytes@);
    decode_varint_at(bytes, 0)
}

/// Decodes the varint that starts at `offset` in `bytes`.
pub fn decode_varint_at(bytes: &[u8], offset: usize) -> (r: Option<(u64, usize)>)
    requires
        offset <= bytes@.len(),
    ensures
        r matches Some((v, n)) ==> decode_varint_spec(bytes@.subrange(offset as int, bytes@.len() as int))
            == Some((v, n as nat)),
        r is None ==> decode_varint_spec(bytes@.subrange(offset as int, bytes@.len() as int)) is None,
{
    let ghost s = bytes@.subrange(offset as int, bytes@.len() as int);
    let mut value: u64 = 0;
    let mut multiplier: u64 = 1;
    let mut index: usize = 0;
    let len = bytes.len();
    let available = len - offset;
    assert(pow128(9) == 0x8000_0000_0000_0000) by {
        reveal_with_fuel(pow128, 10);
    }
    while index < available && index < 10
        invariant
            available == s.len(),
            s == bytes@.subrange(offset as int, bytes@.len() as int),
            offset + available == len,
            len == bytes@.len(),
            index <= 10,
            index <= 9 ==> multiplier == pow128(index as nat),
            index <= 9 ==> value == varint_group_sum(s, index as nat),
            varint_len_from(s, 0) == varint_len_from(s, index as nat),
            pow128(9) == 0x8000_0000_0000_0000,
        decreases 10 - index,
    {
        let byte = bytes[offset + index];
        assert(byte == s[index as int]);
        let low: u8 = byte & 0x7f;
        proof {
            lemma_group_sum_bound(s, index as nat);
            lemma_pow128_monotone(index as nat, 9);
        }
        if index < 9 {
            proof {
                lemma_low_seven_bits(byte);
            }
            assert((low as nat) * (multiplier as nat) < 128 * (multiplier as nat)) by (nonlinear_arith)
                requires
                    low < 128,
                    multiplier > 0,
            ;
            assert(128 * pow128(index as nat) <= 0x8000_0000_0000_0000) by {
                lemma_pow128_monotone((index + 1) as nat, 9);
            }
            value = value + (low as u64) * multiplier;
            multiplier = multiplier * 128;
        } else {
            let ghost sum9 = varint_group_sum(s, 9);
            proof {
                lemma_low_seven_bits(byte);
                lemma_top_group((low as nat), sum9);
            }
            if byte & 1 == 1 {
                value = value + 0x8000_0000_0000_0000;
            }
        }
        if byte < 128 {
            proof {
                if index < 9 {
                    lemma_group_sum_bound(s, (index + 1) as nat);
                    lemma_pow128_monotone((index + 1) as nat, 9);
                }
            }
            return Some((value, index + 1));
        }
        index = index + 1;
    }
    None
}

proof fn lemma_pow128_monotone(a: nat, b: nat)
    requires
        a <= b,
    ensures
        pow128(a) <= pow128(b),
        pow128(a) > 0,
    decreases b,
{
    if a < b {
        lemma_pow128_monotone(a, (b - 1) as nat);
    } else if a > 0 {
        lemma_pow128_monotone((a - 1) as nat, (a - 1) as nat);
    }
}

proof fn lemma_top_group(x: nat, sum9: nat)
    requires
        x < 128,
        sum9 < 0x8000_0000_0000_0000,
    ensures
        (sum9 + x * 0x8000_0000_0000_0000) % 0x1_0000_0000_0000_0000 == sum9 + (x % 2)
            * 0x8000_0000_0000_0000,
{
    assert(x * 0x8000_0000_0000_0000 == (x / 2) * 0x1_0000_0000_0000_0000 + (x % 2)
        * 0x8000_0000_0000_0000) by (nonlinear_arith)
        requires
            x < 128,
    ;
    assert((sum9 + (x % 2) * 0x8000_0000_0000_0000 + (x / 2) * 0x1_0000_0000_0000_0000)
        % 0x1_0000_0000_0000_0000 == sum9 + (x % 2) * 0x8000_0000_0000_0000) by (nonlinear_arith)
        requires
            sum9 < 0x8000_0000_0000_0000,
            x < 128,
    ;
}

} // verus!

verus! {

/// The zig-zag mapping of a signed value onto the naturals: 0, -1, 1, -2, 2, ... become 0, 1, 2, 3, 4, ...
pub open spec fn zigzag_spec(value: int) -> nat {
    if value >= 0 {
        (2 * value) as nat
    } else {
        (-2 * value - 1) as nat
    }
}

/// Zig-zag encodes a 16-bit signed value as protobuf's `sint32` does.
pub fn zigzag_i16(value: i16) -> (r: u64)
    ensures
        r as nat == zigzag_spec(value as int),
{
    let v: i32 = value as i32;
    let shifted: i32 = v << 1u32;
    let sign: i32 = v >> 31u32;
    let mixed: i32 = shifted ^ sign;
    let r: u32 = mixed as u32;
    assert(v >= 0 ==> r == 2 * v) by (bit_vector)
        requires
            -32768 <= v <= 32767,
            shifted == v << 1u32,
            sign == v >> 31u32,
            mixed == shifted ^ sign,
            r == mixed as u32,
    ;
    assert(v < 0 ==> r == -2 * v - 1) by (bit_vector)
        requires
            -32768 <= v <= 32767,
            shifted == v << 1u32,
            sign == v >> 31u32,
            mixed == shifted ^ sign,
            r == mixed as u32,
    ;
    r as u64
}

/// The little-endian value of a byte sequence.
pub open spec fn le_value(bytes: Seq<u8>) -> nat
    decreases bytes.len(),
{
    if bytes.len() == 0 {
        0
    } else {
        bytes[0] as nat + 256 * le_value(bytes.drop_first())
    }
}

/// One field of a protobuf message as laid out on the wire: its number and wire type, the value
/// of a varint field, the span of its payload, and the offset where the next field starts.
pub struct WireField {
    pub field: u64,
    pub wire: u64,
    pub varint: u64,
    pub start: int,
    pub end: int,
    pub next: int,
}

/// Reads the field that starts at `offset`: a varint tag, then a varint (wire type 0), eight
/// bytes (1), a varint length and that many bytes (2), or four bytes (5). `None` when a varint
/// is malformed, a payload runs past the end, or the wire type is another.
pub open spec fn next_field(msg: Seq<u8>, offset: int) -> Option<WireField> {
    let len = msg.len() as int;
    match decode_varint_spec(msg.subrange(offset, len)) {
        None => None,
        Some((tag, tag_len)) => {
            let o1 = offset + tag_len;
            let field = tag >> 3;
            let wire = tag & 7;
            if wire == 0 {
                match decode_varint_spec(msg.subrange(o1, len)) {
                    None => None,
                    Some((value, value_len)) => Some(
                        WireField {
                            field,
                            wire,
                            varint: value,
                            start: o1,
                            end: o1 + value_len,
                            next: o1 + value_len,
                        },
                    ),
                }
            } else if wire == 1 {
                if o1 + 8 > len {
                    None
                } else {
                    Some(WireField { field, wire, varint: 0, start: o1, end: o1 + 8, next: o1 + 8 })
                }
            } else if wire == 2 {
                match decode_varint_spec(msg.subrange(o1, len)) {
                    None => None,
                    Some((length, length_len)) => {
                        let s = o1 + length_len;
                        if s + length > len {
                            None
                        } else {
                            Some(
                                WireField {
                                    field,
                                    wire,
                                    varint: 0,
                                    start: s,
                                    end: s + length,
                                    next: s + length,
                                },
                            )
                        }
                    },
                }
            } else if wire == 5 {
                if o1 + 4 > len {
                    None
                } else {
                    Some(WireField { field, wire, varint: 0, start: o1, end: o1 + 4, next: o1 + 4 })
                }
            } else {
                None
            }
        },
    }
}

/// A field read at an offset inside the message ends after that offset and inside the message.
pub proof fn lemma_next_field_advances(msg: Seq<u8>, offset: int)
    requires
        0 <= offset < msg.len(),
    ensures
        next_field(msg, offset) matches Some(f) ==> offset < f.start <= f.end && f.end == f.next
            && f.next <= msg.len(),
{
    let len = msg.len() as int;
    lemma_decode_varint_len(msg.subrange(offset, len));
    if let Some((tag, tag_len)) = decode_varint_spec(msg.subrange(offset, len)) {
        let o1 = offset + tag_len;
        lemma_decode_varint_len(msg.subrange(o1, len));
    }
}

/// The first varint field numbered `target` at or after `offset`, scanning field by field.
pub open spec fn varint_field_from(msg: Seq<u8>, target: u64, offset: int) -> Option<u64>
    decreases msg.len() - offset,
{
    if offset < 0 || offset >= msg.len() {
        None
    } else {
        proof {
            lemma_next_field_advances(msg, offset);
        }
        match next_field(msg, offset) {
            None => None,
            Some(f) => if f.wire == 0 && f.field == target {
                Some(f.varint)
            } else {
                varint_field_from(msg, target, f.next)
            },
        }
    }
}

/// The payload span of the first length-delimited field numbered `target` at or after `offset`.
pub open spec fn delimited_field_from(msg: Seq<u8>, target: u64, offset: int) -> Option<(int, int)>
    decreases msg.len() - offset,
{
    if offset < 0 || offset >= msg.len() {
        None
    } else {
        proof {
            lemma_next_field_advances(msg, offset);
        }
        match next_field(msg, offset) {
            None => None,
            Some(f) => if f.wire == 2 && f.field == target {
                Some((f.start, f.end))
            } else {
                delimited_field_from(msg, target, f.next)
            },
        }
    }
}

/// The little-endian value of the first 64-bit fixed field numbered `target` at or after `offset`.
pub open spec fn fixed64_field_from(msg: Seq<u8>, target: u64, offset: int) -> Option<u64>
    decreases msg.len() - offset,
{
    if offset < 0 || offset >= msg.len() {
        None
    } else {
        proof {
            lemma_next_field_advances(msg, offset);
        }
        match next_field(msg, offset) {
            None => None,
            Some(f) => if f.wire == 1 && f.field == target {
                Some(le_value(msg.subrange(f.start, f.end)) as u64)
            } else {
                fixed64_field_from(msg, target, f.next)
            },
        }
    }
}

/// The executable form of a field read by `next_field`.
pub struct FieldSpan {
    pub field: u64,
    pub wire: u64,
    pub varint: u64,
    pub start: usize,
    pub end: usize,
}

/// Reads the field that starts at `offset` in `msg`.
pub fn read_field(msg: &[u8], offset: usize) -> (r: Option<FieldSpan>)
    requires
        offset < msg@.len(),
    ensures
        r is None <==> next_field(msg@, offset as int) is None,
        r matches Some(f) ==> next_field(msg@, offset as int) == Some(
            WireField {
                field: f.field,
                wire: f.wire,
                varint: f.varint,
                start: f.start as int,
                end: f.end as int,
                next: f.end as int,
            },
        ),
{
    let len = msg.len();
    let (tag, tag_len) = match decode_varint_at(msg, offset) {
        None => return None,
        Some(t) => t,
    };
    proof {
        lemma_decode_varint_len(msg@.subrange(offset as int, len as int));
    }
    let o1 = offset + tag_len;
    let field = tag >> 3;
    let wire = tag & 7;
    if wire == 0 {
        match decode_varint_at(msg, o1) {
            None => None,
            Some((value, value_len)) => {
                proof {
                    lemma_decode_varint_len(msg@.subrange(o1 as int, len as int));
                }
                Some(FieldSpan { field, wire, varint: value, start: o1, end: o1 + value_len })
            },
        }
    } else if wire == 1 {
        if 8 > len - o1 {
            None
        } else {
            Some(FieldSpan { field, wire, varint: 0, start: o1, end: o1 + 8 })
        }
    } else if wire == 2 {
        match decode_varint_at(msg, o1) {
            None => None,
            Some((length, length_len)) => {
                proof {
                    lemma_decode_varint_len(msg@.subrange(o1 as int, len as int));
                }
                let s = o1 + length_len;
                if length > (len - s) as u64 {
                    None
                } else {
                    Some(FieldSpan { field, wire, varint: 0, start: s, end: s + length as usize })
                }
            },
        }
    } else if wire == 5 {
        if 4 > len - o1 {
            None
        } else {
            Some(FieldSpan { field, wire, varint: 0, start: o1, end: o1 + 4 })
        }
    } else {
        None
    }
}

/// The value of the first varint field numbered `target_field` in a protobuf message.
pub fn protobuf_varint_field(message: &[u8], target_field: u64) -> (r: Option<u64>)
    ensures
        r == varint_field_from(message@, target_field, 0),
{
    let mut offset: usize = 0;
    while offset < message.len()
        invariant
            offset <= message@.len(),
            varint_field_from(message@, target_field, 0) == varint_field_from(
                message@,
                target_field,
                offset as int,
            ),
        decreases message@.len() - offset,
    {
        proof {
            lemma_next_field_advances(message@, offset as int);
        }
        match read_field(message, offset) {
            None => return None,
            Some(f) => {
                if f.wire == 0 && f.field == target_field {
                    return Some(f.varint);
                }
                offset = f.end;
            },
        }
    }
    None
}

/// The payload of the first length-delimited field numbered `target_field` in a protobuf message.
pub fn protobuf_length_delimited_field(message: &[u8], target_field: u64) -> (r: Option<&[u8]>)
    ensures
        r is None <==> delimited_field_from(message@, target_field, 0) is None,
        r matches Some(s) ==> delimited_field_from(message@, target_field, 0) matches Some((a, b))
            && s@ == message@.subrange(a, b),
{
    let mut offset: usize = 0;
    while offset < message.len()
        invariant
            offset <= message@.len(),
            delimited_field_from(message@, target_field, 0) == delimited_field_from(
                message@,
                target_field,
                offset as int,
            ),
        decreases message@.len() - offset,
    {
        proof {
            lemma_next_field_advances(message@, offset as int);
        }
        match read_field(message, offset) {
            None => return None,
            Some(f) => {
                if f.wire == 2 && f.field == target_field {
                    return Some(&message[f.start..f.end]);
                }
                offset = f.end;
            },
        }
    }
    None
}

/// The little-endian value of `bytes[start..start + count]`.
pub fn le_bytes_value(bytes: &[u8], start: usize, count: usize) -> (r: u64)
    requires
        start + count <= bytes@.len(),
        count <= 8,
    ensures
        r as nat == le_value(bytes@.subrange(start as int, start + count)),
{
    let mut value: u64 = 0;
    let mut i: usize = count;
    let n = bytes.len();
    while i > 0
        invariant
            i <= count <= 8,
            n == bytes@.len(),
            start + count <= bytes@.len(),
            value as nat == le_value(bytes@.subrange(start + i, start + count)),
            le_value(bytes@.subrange(start + i, start + count)) < pow256((count - i) as nat),
        decreases i,
    {
        i = i - 1;
        let ghost tail = bytes@.subrange(start + i + 1, start + count);
        let ghost cur = bytes@.subrange(start + i, start + count);
        assert(cur.drop_first() =~= tail);
        let b = bytes[start + i];
        proof {
            lemma_pow256_bound((count - i - 1) as nat);
            assert(value * 256 + b < 256 * pow256((count - i - 1) as nat)) by (nonlinear_arith)
                requires
                    value < pow256((count - i - 1) as nat),
                    b < 256,
            ;
            assert(pow256((count - i) as nat) == 256 * pow256((count - i - 1) as nat));
        }
        value = value * 256 + b as u64;
    }
    value
}

/// `256` raised to the power `k`.
pub open spec fn pow256(k: nat) -> nat
    decreases k,
{
    if k == 0 {
        1
    } else {
        256 * pow256((k - 1) as nat)
    }
}

proof fn lemma_pow256_bound(k: nat)
    requires
        k <= 7,
    ensures
        256 * pow256(k) <= 0x1_0000_0000_0000_0000,
    decreases 7 - k,
{
    if k < 7 {
        lemma_pow256_bound(k + 1);
    } else {
        reveal_with_fuel(pow256, 8);
    }
}

/// The little-endian value of the first 64-bit fixed field numbered `target_field`.
pub fn protobuf_fixed64_field(message: &[u8], target_field: u64) -> (r: Option<u64>)
    ensures
        r == fixed64_field_from(message@, target_field, 0),
{
    let mut offset: usize = 0;
    while offset < message.len()
        invariant
            offset <= message@.len(),
            fixed64_field_from(message@, target_field, 0) == fixed64_field_from(
                message@,
                target_field,
                offset as int,
            ),
        decreases message@.len() - offset,
    {
        proof {
            lemma_next_field_advances(message@, offset as int);
        }
        match read_field(message, offset) {
            None => return None,
            Some(f) => {
                if f.wire == 1 && f.field == target_field {
                    return Some(le_bytes_value(message, f.start, 8));
                }
                offset = f.end;
            },
        }
    }
    None
}

} // verus!
