//! The protobuf wire format, as far as a ServiceDiscoveryResponse needs it:
//! varints, and the fields of a message.

use vstd::arithmetic::power2::{
    lemma2_to64, lemma2_to64_rest, lemma_pow2_adds, lemma_pow2_pos, pow2,
};
use vstd::bits::lemma_u64_shl_is_mul;
use vstd::prelude::*;

verus! {

// -- Varints ---------------------------------------------------------------------

/// The varint whose byte number `k` stands at `data[pos + k]`, read from that
/// byte on: its value from there, and how many bytes it takes from there. Each
/// byte carries seven bits, the lowest first; a byte of 128 or more says that
/// another one follows. A varint has at most ten bytes.
pub open spec fn varint_tail(data: Seq<u8>, pos: int, k: nat) -> Option<(nat, nat)>
    decreases 10 - k,
{
    if k >= 10 || !(0 <= pos + k < data.len()) {
        None
    } else if data[pos + k] < 128 {
        Some((data[pos + k] as nat, 1))
    } else {
        match varint_tail(data, pos, k + 1) {
            Some((rest, n)) => Some(((data[pos + k] - 128 + 128 * rest) as nat, n + 1)),
            None => None,
        }
    }
}

/// The varint at `pos`, modulo 2^64, and the number of bytes that it takes.
pub open spec fn varint(data: Seq<u8>, pos: int) -> Option<(u64, nat)> {
    match varint_tail(data, pos, 0) {
        Some((v, n)) => Some(((v % 0x1_0000_0000_0000_0000) as u64, n)),
        None => None,
    }
}

/// A varint takes one byte or more, up to ten, all within the data.
pub proof fn lemma_varint_extent(data: Seq<u8>, pos: int, k: nat)
    requires
        0 <= pos,
    ensures
        varint_tail(data, pos, k) matches Some((v, n)) ==> 1 <= n && k + n <= 10 && pos + k + n
            <= data.len(),
    decreases 10 - k,
{
    if k >= 10 || !(0 <= pos + k < data.len()) {
    } else if data[pos + k] < 128 {
    } else {
        lemma_varint_extent(data, pos, k + 1);
    }
}

/// Adding the next seven bits of a varint to what was read so far.
proof fn lemma_varint_step(result: u64, low: u64, k: u32)
    requires
        k <= 9,
        low < 128,
        result < pow2((7 * k) as nat),
    ensures
        k < 9 ==> result | (low << ((7 * k) as u32)) == result + low * pow2((7 * k) as nat),
        k < 9 ==> result + low * pow2((7 * k) as nat) < pow2((7 * (k + 1)) as nat),
        (result | (low << ((7 * k) as u32))) == (result + low * pow2((7 * k) as nat))
            % 0x1_0000_0000_0000_0000,
{
    let s = (7 * k) as u32;
    let sh = s as u64;
    lemma2_to64();
    lemma2_to64_rest();
    assert(low << s == low << sh);
    if k < 9 {
        let w = pow2(s as nat);
        lemma_pow2_adds(s as nat, 7);
        assert(pow2(7) == 128);
        assert(pow2((7 * (k + 1)) as nat) == w * 128);
        assert(w <= 0x100_0000_0000_0000);
        assert(low * w <= 127 * w) by (nonlinear_arith)
            requires
                low < 128,
        ;
        assert(low * w <= u64::MAX);
        lemma_u64_shl_is_mul(low, sh);
        lemma_pow2_pos(s as nat);
        lemma_u64_shl_is_mul(1, sh);
        assert(result < (1u64 << sh));
        assert((result | (low << sh)) == result + (low << sh)) by (bit_vector)
            requires
                result < (1u64 << sh),
                low < 128,
                sh <= 56,
        ;
        assert(result + low * w < w * 128);
    } else {
        assert(sh == 63);
        assert((low << 63u64) == (low % 2) * 0x8000_0000_0000_0000) by (bit_vector);
        assert((result | (low << 63u64)) == result + (low << 63u64)) by (bit_vector)
            requires
                result < 0x8000_0000_0000_0000u64,
        ;
        let half = 0x8000_0000_0000_0000int;
        assert(pow2(63) == half);
        let q = (low / 2) as int;
        assert(low == 2 * q + low % 2);
        assert(result + low * half == (result + (low % 2) * half) + q
            * 0x1_0000_0000_0000_0000);
        vstd::arithmetic::div_mod::lemma_mod_multiples_vanish(
            q,
            result + (low % 2) * half,
            0x1_0000_0000_0000_0000,
        );
        vstd::arithmetic::div_mod::lemma_small_mod(
            (result + (low % 2) * half) as nat,
            0x1_0000_0000_0000_0000,
        );
    }
}

/// Decodes a protobuf varint from `data[pos..]`. Returns its value and how many
/// bytes it takes, or nothing where the data ends inside it or it does not end
/// within ten bytes.
pub fn read_varint(data: &[u8], pos: usize) -> (r: Option<(u64, usize)>)
    ensures
        match r {
            Some((v, n)) => varint(data@, pos as int) == Some((v, n as nat)),
            None => varint(data@, pos as int) is None,
        },
        r matches Some((v, n)) ==> 1 <= n <= 10 && pos + n <= data@.len(),
{
    let mut result: u64 = 0;
    let mut shift: u32 = 0;
    let mut n: usize = 0;
    proof {
        lemma2_to64();
        lemma_varint_extent(data@, pos as int, 0);
        if let Some((v, m)) = varint_tail(data@, pos as int, 0) {
            assert(1 * v == v);
        }
    }
    loop
        invariant
            n <= 9,
            shift == 7 * n,
            n == 0 || pos + n <= data@.len(),
            result < pow2((7 * n) as nat),
            varint_tail(data@, pos as int, 0) == (match varint_tail(data@, pos as int, n as nat) {
                Some((v, m)) => Some(((result + pow2((7 * n) as nat) * v) as nat, (n + m) as nat)),
                None => None,
            }),
        decreases 10 - n,
    {
        if pos >= data.len() || n >= data.len() - pos {
            return None;
        }
        let byte: u8 = data[pos + n];
        let ghost k = n as nat;
        let ghost before = result;
        let ghost w = pow2(7 * k);
        let low: u64 = (byte & 0x7F) as u64;
        proof {
            assert(byte & 0x7F == byte % 128) by (bit_vector);
            assert(byte & 0x80 == 0 <==> byte < 128) by (bit_vector);
            lemma_varint_step(result, low, n as u32);
        }
        n = n + 1;
        result = result | (low << shift);
        if byte & 0x80 == 0 {
            assert(varint_tail(data@, pos as int, k) == Some((byte as nat, 1nat)));
            assert(w * (byte as nat) == low * w) by (nonlinear_arith)
                requires
                    low == byte,
            ;
            return Some((result, n));
        }
        shift = shift + 7;
        if shift >= 64 {
            assert(varint_tail(data@, pos as int, 10) is None);
            return None;
        }
        proof {
            lemma_pow2_adds(7 * k, 7);
            lemma2_to64();
            assert(pow2(7 * (k + 1)) == w * 128);
            if let Some((v, m)) = varint_tail(data@, pos as int, k + 1) {
                assert(w * ((byte - 128 + 128 * v) as nat) == low * w + w * 128 * v)
                    by (nonlinear_arith)
                    requires
                        low == byte - 128,
                        byte >= 128,
                ;
            }
        }
    }
}

/// The varint encoding of `v`: seven bits a byte, the lowest first.
pub open spec fn varint_bytes(v: nat) -> Seq<u8>
    decreases v,
{
    if v < 128 {
        seq![v as u8]
    } else {
        seq![(v % 128 + 128) as u8] + varint_bytes(v / 128)
    }
}

/// Appends `v` as a protobuf varint to `buf`.
pub fn encode_varint(v: u64, buf: &mut Vec<u8>)
    ensures
        final(buf)@ == old(buf)@ + varint_bytes(v as nat),
{
    let mut left: u64 = v;
    loop
        invariant
            old(buf)@ + varint_bytes(v as nat) == buf@ + varint_bytes(left as nat),
        decreases left,
    {
        let byte: u8 = (left & 0x7F) as u8;
        let ghost now = left;
        proof {
            assert(now & 0x7F == now % 128) by (bit_vector);
            assert(now >> 7 == now / 128) by (bit_vector);
            assert(byte < 128 ==> byte | 0x80 == byte + 128) by (bit_vector);
        }
        left = left >> 7;
        if left == 0 {
            buf.push(byte);
            return;
        }
        buf.push(byte | 0x80);
        assert(varint_bytes(now as nat) == seq![(byte | 0x80)] + varint_bytes(left as nat));
        assert(old(buf)@ + varint_bytes(v as nat) == buf@ + varint_bytes(left as nat));
    }
}

/// A number of at most `7 * n` bits takes at most `n` bytes.
proof fn lemma_varint_bytes_bits(v: nat, n: nat)
    requires
        n > 0,
        v < pow2(7 * n),
    ensures
        1 <= varint_bytes(v).len() <= n,
    decreases n,
{
    lemma2_to64();
    if v >= 128 {
        assert(n > 1) by {
            assert(pow2(7) == 128);
        }
        let m = (n - 1) as nat;
        lemma_pow2_adds(7, 7 * m);
        assert(pow2(7 * n) == 128 * pow2(7 * m));
        assert(v / 128 < pow2(7 * m));
        lemma_varint_bytes_bits(v / 128, m);
    }
}

proof fn lemma_varint_tail_reads(data: Seq<u8>, pos: int, k: nat, v: nat)
    requires
        0 <= pos,
        k + varint_bytes(v).len() <= 10,
        pos + k + varint_bytes(v).len() <= data.len(),
        data.subrange(pos + k, pos + k + varint_bytes(v).len()) == varint_bytes(v),
    ensures
        varint_tail(data, pos, k) == Some((v, varint_bytes(v).len())),
    decreases v,
{
    let bytes = varint_bytes(v);
    if v < 128 {
        assert(bytes == seq![v as u8]);
        assert(data.subrange(pos + k, pos + k + 1)[0] == data[pos + k]);
    } else {
        let rest = varint_bytes(v / 128);
        assert(bytes == seq![(v % 128 + 128) as u8] + rest);
        assert(rest.len() >= 1);
        assert(data.subrange(pos + k, pos + k + bytes.len())[0] == data[pos + k]);
        assert(data.subrange(pos + k + 1, pos + k + 1 + rest.len()) =~= data.subrange(
            pos + k,
            pos + k + bytes.len(),
        ).skip(1));
        assert(bytes.skip(1) =~= rest);
        lemma_varint_tail_reads(data, pos, k + 1, v / 128);
    }
}

/// A varint of 64 bits takes at most ten bytes.
pub proof fn lemma_varint_bytes_len(v: nat)
    requires
        v <= u64::MAX,
    ensures
        1 <= varint_bytes(v).len() <= 10,
{
    lemma2_to64();
    lemma2_to64_rest();
    lemma_pow2_adds(64, 6);
    assert(pow2(70) == 0x1_0000_0000_0000_0000 * 64);
    lemma_varint_bytes_bits(v, 10);
}

/// What `encode_varint` wrote, `read_varint` reads, wherever it stands.
pub proof fn law_varint_reads_what_was_written(before: Seq<u8>, v: u64, after: Seq<u8>)
    ensures
        varint(before + varint_bytes(v as nat) + after, before.len() as int) == Some(
            (v, varint_bytes(v as nat).len()),
        ),
{
    let data = before + varint_bytes(v as nat) + after;
    let n = varint_bytes(v as nat).len() as int;
    lemma_varint_bytes_len(v as nat);
    assert(data.subrange(before.len() as int, before.len() + n) =~= varint_bytes(v as nat));
    lemma_varint_tail_reads(data, before.len() as int, 0, v as nat);
}

// -- Fields ----------------------------------------------------------------------

/// One field of a protobuf message.
pub enum WireField {
    /// A varint.
    Varint { field: u32, value: u64 },
    /// A length-delimited field.
    Bytes { field: u32, body: Seq<u8> },
    /// A length-delimited field whose length reaches past the data.
    Cut { field: u32 },
    /// A field of four or eight bytes, whose value nothing here reads.
    Fixed { field: u32 },
}

/// The fields of a message, up to the end of the data or to the first thing
/// that is no field.
pub ghost struct WireFields {
    pub fields: Seq<WireField>,
    /// Whether the end of the data was reached.
    pub complete: bool,
}

/// The field at `pos`, and where the next one stands.
pub open spec fn wire_field(data: Seq<u8>, pos: int) -> Option<(WireField, int)> {
    match varint(data, pos) {
        None => None,
        Some((tag, n)) => {
            let field = (tag >> 3) as u32;
            let wire = (tag & 0x7) as u8;
            let at = pos + n;
            if wire == 0 {
                match varint(data, at) {
                    Some((value, m)) => Some((WireField::Varint { field, value }, at + m)),
                    None => None,
                }
            } else if wire == 1 {
                Some((WireField::Fixed { field }, at + 8))
            } else if wire == 2 {
                match varint(data, at) {
                    Some((len, m)) => {
                        let start = at + m;
                        let end = start + (len as usize);
                        if end <= data.len() {
                            Some((WireField::Bytes { field, body: data.subrange(start, end) }, end))
                        } else {
                            Some((WireField::Cut { field }, end))
                        }
                    },
                    None => None,
                }
            } else if wire == 5 {
                Some((WireField::Fixed { field }, at + 4))
            } else {
                None
            }
        },
    }
}

/// A field ends after it begins.
pub proof fn lemma_wire_field_extent(data: Seq<u8>, pos: int)
    requires
        0 <= pos,
    ensures
        wire_field(data, pos) matches Some((f, next)) ==> pos < next,
{
    lemma_varint_extent(data, pos, 0);
    if let Some((tag, n)) = varint(data, pos) {
        lemma_varint_extent(data, pos + n, 0);
    }
}

/// The fields of the message from `pos` on.
pub open spec fn wire_fields(data: Seq<u8>, pos: nat) -> WireFields
    decreases
            if pos < data.len() {
                data.len() - pos
            } else {
                0
            },
{
    if pos >= data.len() {
        WireFields { fields: Seq::empty(), complete: true }
    } else {
        match wire_field(data, pos as int) {
            None => WireFields { fields: Seq::empty(), complete: false },
            Some((f, next)) => {
                proof {
                    lemma_wire_field_extent(data, pos as int);
                }
                let rest = wire_fields(data, next as nat);
                WireFields { fields: seq![f] + rest.fields, complete: rest.complete }
            },
        }
    }
}

/// One field as the reader meets it, with its body given by position.
pub enum Field {
    Varint { field: u32, value: u64 },
    Bytes { field: u32, start: usize, end: usize },
    Cut { field: u32 },
    Fixed { field: u32 },
}

impl Field {
    /// The field that this is, in the message `data`.
    pub open spec fn of(self, data: Seq<u8>) -> WireField {
        match self {
            Field::Varint { field, value } => WireField::Varint { field, value },
            Field::Bytes { field, start, end } => WireField::Bytes {
                field,
                body: data.subrange(start as int, end as int),
            },
            Field::Cut { field } => WireField::Cut { field },
            Field::Fixed { field } => WireField::Fixed { field },
        }
    }
}

/// `pos + step`, but no further than the end of the data.
fn advance(len: usize, pos: usize, step: usize) -> (r: usize)
    requires
        pos <= len,
    ensures
        r == if pos + step <= len {
            pos + step
        } else {
            len as int
        },
{
    if step <= len - pos {
        pos + step
    } else {
        len
    }
}

/// Reads the field at `pos`. The position of the next one is clamped to the end
/// of the data.
pub fn next_field(data: &[u8], pos: usize) -> (r: Option<(Field, usize)>)
    requires
        pos < data@.len(),
    ensures
        match r {
            Some((f, next)) => {
                &&& wire_field(data@, pos as int) matches Some((g, end))
                &&& g == f.of(data@)
                &&& next == if end <= data@.len() {
                    end
                } else {
                    data@.len() as int
                }
                &&& pos < next <= data@.len()
                &&& f matches Field::Bytes { field, start, end } ==> start <= end <= data@.len()
            },
            None => wire_field(data@, pos as int) is None,
        },
{
    let size: usize = data.len();
    let (tag, n): (u64, usize) = match read_varint(data, pos) {
        Some(x) => x,
        None => return None,
    };
    let at: usize = pos + n;
    let field: u32 = (tag >> 3) as u32;
    let wire: u8 = (tag & 0x7) as u8;
    if wire == 0 {
        match read_varint(data, at) {
            Some((value, m)) => Some((Field::Varint { field, value }, at + m)),
            None => None,
        }
    } else if wire == 1 {
        Some((Field::Fixed { field }, advance(size, at, 8)))
    } else if wire == 2 {
        match read_varint(data, at) {
            Some((len, m)) => {
                let start: usize = at + m;
                let body: usize = len as usize;
                if body <= size - start {
                    let end: usize = start + body;
                    Some((Field::Bytes { field, start, end }, end))
                } else {
                    Some((Field::Cut { field }, size))
                }
            },
            None => None,
        }
    } else if wire == 5 {
        Some((Field::Fixed { field }, advance(size, at, 4)))
    } else {
        None
    }
}

/// A varint is the same where bytes stand before it.
proof fn lemma_varint_behind(before: Seq<u8>, data: Seq<u8>, pos: int, k: nat)
    requires
        0 <= pos,
    ensures
        varint_tail(before + data, before.len() + pos, k) == varint_tail(data, pos, k),
    decreases 10 - k,
{
    if k < 10 && pos + k < data.len() {
        assert((before + data)[before.len() + pos + k] == data[pos + k]);
        lemma_varint_behind(before, data, pos, k + 1);
    }
}

/// The fields of a message are the same where bytes stand before it.
pub proof fn lemma_fields_behind(before: Seq<u8>, data: Seq<u8>, pos: nat)
    ensures
        wire_fields(before + data, before.len() + pos) == wire_fields(data, pos),
    decreases
            if pos < data.len() {
                data.len() - pos
            } else {
                0
            },
{
    let both = before + data;
    let n = before.len() as int;
    if pos < data.len() {
        lemma_varint_behind(before, data, pos as int, 0);
        lemma_varint_extent(data, pos as int, 0);
        if let Some((tag, m)) = varint(data, pos as int) {
            let at = (pos + m) as int;
            lemma_varint_behind(before, data, at, 0);
            lemma_varint_extent(data, at, 0);
            if let Some((len, k)) = varint(data, at) {
                let start = at + k;
                let end = start + (len as usize);
                if end <= data.len() {
                    assert(both.subrange(n + start, n + end) =~= data.subrange(start, end));
                }
            }
        }
        if let Some((f, next)) = wire_field(data, pos as int) {
            assert(wire_field(both, n + pos) == Some((f, n + next)));
            lemma_wire_field_extent(data, pos as int);
            lemma_fields_behind(before, data, next as nat);
        } else {
            assert(wire_field(both, n + pos) is None);
        }
    }
}

/// One step through a message: the fields from `pos` on are the field there and
/// those from the next position on, clamped or not.
pub proof fn lemma_fields_step(data: Seq<u8>, pos: nat, next: nat)
    requires
        pos < data.len(),
        wire_field(data, pos as int) matches Some((f, end)) && next == (if end <= data.len() {
            end
        } else {
            data.len() as int
        }),
    ensures
        wire_fields(data, pos).fields == seq![(wire_field(data, pos as int)->0).0] + wire_fields(
            data,
            next,
        ).fields,
        wire_fields(data, pos).complete == wire_fields(data, next).complete,
{
    lemma_wire_field_extent(data, pos as int);
    let end = (wire_field(data, pos as int)->0).1;
    assert(wire_fields(data, end as nat) == wire_fields(data, next));
}

// -- What is written can be read back --------------------------------------------

/// A field as a sender writes it: a tag, which is the number of the field and its
/// wire type, and what belongs to it.
pub ghost enum Written {
    Varint { tag: u64, value: u64 },
    Bytes { tag: u64, body: Seq<u8> },
    Four { tag: u64, bytes: Seq<u8> },
    Eight { tag: u64, bytes: Seq<u8> },
}

impl Written {
    /// The wire type in the tag is that of the field, and its length fits.
    pub open spec fn well_formed(self) -> bool {
        match self {
            Written::Varint { tag, .. } => tag % 8 == 0,
            Written::Bytes { tag, body } => tag % 8 == 2 && body.len() <= usize::MAX,
            Written::Four { tag, bytes } => tag % 8 == 5 && bytes.len() == 4,
            Written::Eight { tag, bytes } => tag % 8 == 1 && bytes.len() == 8,
        }
    }

    /// The bytes of the field.
    pub open spec fn bytes(self) -> Seq<u8> {
        match self {
            Written::Varint { tag, value } => varint_bytes(tag as nat) + varint_bytes(value as nat),
            Written::Bytes { tag, body } => varint_bytes(tag as nat) + varint_bytes(body.len())
                + body,
            Written::Four { tag, bytes } => varint_bytes(tag as nat) + bytes,
            Written::Eight { tag, bytes } => varint_bytes(tag as nat) + bytes,
        }
    }

    /// The field that a reader meets.
    pub open spec fn read(self) -> WireField {
        match self {
            Written::Varint { tag, value } => WireField::Varint { field: (tag / 8) as u32, value },
            Written::Bytes { tag, body } => WireField::Bytes { field: (tag / 8) as u32, body },
            Written::Four { tag, .. } => WireField::Fixed { field: (tag / 8) as u32 },
            Written::Eight { tag, .. } => WireField::Fixed { field: (tag / 8) as u32 },
        }
    }
}

/// The bytes of fields, one after the other.
pub open spec fn written(list: Seq<Written>) -> Seq<u8>
    decreases list.len(),
{
    if list.len() == 0 {
        Seq::empty()
    } else {
        list[0].bytes() + written(list.drop_first())
    }
}

/// Every field of a list is well formed.
pub open spec fn all_well_formed(list: Seq<Written>) -> bool {
    forall|i: int| 0 <= i < list.len() ==> (#[trigger] list[i]).well_formed()
}

/// A field is read where it stands, whatever follows it.
proof fn lemma_written_field(f: Written, after: Seq<u8>)
    requires
        f.well_formed(),
    ensures
        wire_field(f.bytes() + after, 0) == Some((f.read(), f.bytes().len() as int)),
        f.bytes().len() > 0,
{
    let none = Seq::<u8>::empty();
    let data = f.bytes() + after;
    let tag = match f {
        Written::Varint { tag, .. } => tag,
        Written::Bytes { tag, .. } => tag,
        Written::Four { tag, .. } => tag,
        Written::Eight { tag, .. } => tag,
    };
    let t = varint_bytes(tag as nat);
    let rest = f.bytes().skip(t.len() as int) + after;
    assert(data =~= none + t + rest);
    law_varint_reads_what_was_written(none, tag, rest);
    lemma_varint_bytes_len(tag as nat);
    assert((tag >> 3) as u32 == (tag / 8) as u32 && (tag & 7) as u8 == tag % 8) by (bit_vector);
    match f {
        Written::Varint { value, .. } => {
            law_varint_reads_what_was_written(t, value, after);
            assert(data =~= t + varint_bytes(value as nat) + after);
        },
        Written::Bytes { body, .. } => {
            let l = varint_bytes(body.len());
            law_varint_reads_what_was_written(t, body.len() as u64, body + after);
            assert(data =~= t + l + (body + after));
            let start = t.len() + l.len();
            assert(data.subrange(start as int, (start + body.len()) as int) =~= body);
        },
        _ => {},
    }
}

/// Fields that are written one after the other are read one after the other, each
/// as it was written, and then what follows them is.
pub proof fn law_fields_read_back(list: Seq<Written>, after: Seq<u8>)
    requires
        all_well_formed(list),
    ensures
        wire_fields(written(list) + after, 0).fields == list.map_values(|f: Written| f.read())
            + wire_fields(after, 0).fields,
        wire_fields(written(list) + after, 0).complete == wire_fields(after, 0).complete,
    decreases list.len(),
{
    let read = |f: Written| f.read();
    if list.len() == 0 {
        assert(written(list) + after =~= after);
        assert(list.map_values(read) + wire_fields(after, 0).fields =~= wire_fields(
            after,
            0,
        ).fields);
    } else {
        let rest = list.drop_first();
        let first = list[0].bytes();
        let more = written(rest) + after;
        let data = written(list) + after;
        assert forall|i: int| 0 <= i < rest.len() implies (#[trigger] rest[i]).well_formed() by {
            assert(rest[i] == list[i + 1]);
        }
        law_fields_read_back(rest, after);
        assert(data =~= first + more);
        lemma_written_field(list[0], more);
        lemma_fields_step(data, 0, first.len());
        lemma_fields_behind(first, more, 0);
        assert(wire_fields(data, 0).fields =~= list.map_values(read) + wire_fields(after, 0).fields);
    }
}

/// Fields that are written one after the other, with nothing behind them, are
/// read as they were written.
pub proof fn law_all_fields_read_back(list: Seq<Written>)
    requires
        all_well_formed(list),
    ensures
        wire_fields(written(list), 0).fields == list.map_values(|f: Written| f.read()),
        wire_fields(written(list), 0).complete,
{
    let none = Seq::<u8>::empty();
    law_fields_read_back(list, none);
    assert(written(list) + none =~= written(list));
    assert(wire_fields(none, 0).fields =~= Seq::<WireField>::empty());
    assert(list.map_values(|f: Written| f.read()) + Seq::<WireField>::empty() =~= list.map_values(
        |f: Written| f.read(),
    ));
}

/// A varint is read byte by byte, seven bits each, the lowest first, up to ten
/// bytes.
pub proof fn law_varint_is_read_byte_by_byte(data: Seq<u8>, pos: int)
    requires
        0 <= pos,
    ensures
        pos >= data.len() ==> varint(data, pos) is None,
        pos < data.len() && data[pos] < 128 ==> varint(data, pos) == Some((data[pos] as u64, 1nat)),
        pos < data.len() && data[pos] >= 128 ==> varint(data, pos) == (match varint(data, pos + 1) {
            Some((v, n)) => if n < 10 {
                Some((((data[pos] - 128 + 128 * v) % 0x1_0000_0000_0000_0000) as u64, n + 1))
            } else {
                None
            },
            None => None,
        }),
{
    if pos < data.len() {
        if data[pos] < 128 {
            assert((data[pos] as nat) % 0x1_0000_0000_0000_0000 == data[pos] as nat);
        } else {
            lemma_varint_tail_shift(data, pos, 0);
            if let Some((v, n)) = varint_tail(data, pos + 1, 0) {
                let m = 0x1_0000_0000_0000_0000int;
                let low = data[pos] - 128;
                let q = v as int / m;
                assert(v == q * m + v as int % m) by {
                    vstd::arithmetic::div_mod::lemma_fundamental_div_mod(v as int, m);
                }
                assert(low + 128 * v == (low + 128 * (v as int % m)) + (128 * q) * m);
                vstd::arithmetic::div_mod::lemma_mod_multiples_vanish(
                    128 * q,
                    low + 128 * (v as int % m),
                    m,
                );
            }
        }
    }
}

proof fn lemma_varint_tail_shift(data: Seq<u8>, pos: int, k: nat)
    requires
        0 <= pos,
        k < 10,
    ensures
        varint_tail(data, pos, k + 1) == (match varint_tail(data, pos + 1, k) {
            Some((v, n)) => if k + n < 10 {
                Some((v, n))
            } else {
                None
            },
            None => None,
        }),
    decreases 10 - k,
{
    lemma_varint_extent(data, pos + 1, k);
    lemma_varint_extent(data, pos, k + 1);
    if k < 9 {
        lemma_varint_tail_shift(data, pos, k + 1);
    }
}

/// A field whose length reaches past the data is noticed as cut, and is the last;
/// a tag of an unknown wire type ends the reading.
pub proof fn law_broken_fields_end_the_reading(
    list: Seq<Written>,
    tag: u64,
    len: u64,
    rest: Seq<u8>,
)
    requires
        all_well_formed(list),
    ensures
        tag % 8 == 2 && rest.len() < len <= usize::MAX ==> {
            let w = wire_fields(
                written(list) + (varint_bytes(tag as nat) + varint_bytes(len as nat) + rest),
                0,
            );
            w.complete && w.fields == list.map_values(|f: Written| f.read()).push(
                WireField::Cut { field: (tag / 8) as u32 },
            )
        },
        tag % 8 == 3 || tag % 8 == 4 || tag % 8 == 6 || tag % 8 == 7 ==> {
            let w = wire_fields(written(list) + (varint_bytes(tag as nat) + rest), 0);
            !w.complete && w.fields == list.map_values(|f: Written| f.read())
        },
{
    let none = Seq::<u8>::empty();
    let t = varint_bytes(tag as nat);
    let l = varint_bytes(len as nat);
    let read = list.map_values(|f: Written| f.read());
    lemma_varint_bytes_len(tag as nat);
    assert((tag >> 3) as u32 == (tag / 8) as u32 && (tag & 7) as u8 == tag % 8) by (bit_vector);
    if tag % 8 == 2 && rest.len() < len <= usize::MAX {
        let data = t + l + rest;
        law_fields_read_back(list, data);
        law_varint_reads_what_was_written(none, tag, l + rest);
        assert(data =~= none + t + (l + rest));
        law_varint_reads_what_was_written(t, len, rest);
        lemma_fields_step(data, 0, data.len());
        let w = wire_fields(data, 0);
        assert(wire_fields(data, data.len()).fields =~= Seq::<WireField>::empty());
        assert(w.fields =~= seq![WireField::Cut { field: (tag / 8) as u32 }]);
        assert(read + w.fields =~= read.push(WireField::Cut { field: (tag / 8) as u32 }));
    }
    if tag % 8 == 3 || tag % 8 == 4 || tag % 8 == 6 || tag % 8 == 7 {
        let data = t + rest;
        law_fields_read_back(list, data);
        law_varint_reads_what_was_written(none, tag, rest);
        assert(data =~= none + t + rest);
        assert(wire_field(data, 0) is None);
        assert(wire_fields(data, 0).fields =~= Seq::<WireField>::empty());
        assert(read + Seq::<WireField>::empty() =~= read);
    }
}

} // verus!
