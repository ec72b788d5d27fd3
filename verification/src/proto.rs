//! The protobuf wire format: varints, tags and the fields of a message.
//!
//! Writing and reading the raw varints goes through the `protobuf` crate;
//! which fields a message holds, in which order, is this crate's own logic.
use vstd::prelude::*;

verus! {

/// Wire type of a varint field.
pub const WIRE_VARINT: u32 = 0;

/// Wire type of a 64-bit fixed field.
pub const WIRE_FIXED64: u32 = 1;

/// Wire type of a length-delimited field.
pub const WIRE_LEN: u32 = 2;

/// Wire type of a 32-bit fixed field.
pub const WIRE_FIXED32: u32 = 5;

/// Wire type that opens a group.
pub const WIRE_START_GROUP: u32 = 3;

/// Wire type that closes a group.
pub const WIRE_END_GROUP: u32 = 4;

/// Largest field number that protobuf accepts.
pub const FIELD_NUMBER_MAX: u32 = 0x1fff_ffff;

/// How deep groups may nest inside a skipped group: protobuf's default
/// recursion limit.
pub const RECURSION_LIMIT: u64 = 100;

/// The base-128 varint encoding of `v`: seven bits per byte, least
/// significant group first, the high bit set on every byte but the last.
pub open spec fn varint(v: nat) -> Seq<u8>
    decreases v,
{
    if v < 128 {
        seq![v as u8]
    } else {
        seq![((v % 128) + 128) as u8] + varint(v / 128)
    }
}

/// The tag of field `field` with wire type `wire`.
pub open spec fn tag(field: nat, wire: nat) -> Seq<u8> {
    varint(field * 8 + wire)
}

/// A varint field: its tag, then the value.
pub open spec fn varint_field(field: nat, v: nat) -> Seq<u8> {
    tag(field, 0) + varint(v)
}

/// A length-delimited field: its tag, the length, then the bytes.
pub open spec fn len_field(field: nat, b: Seq<u8>) -> Seq<u8> {
    tag(field, 2) + varint(b.len()) + b
}

/// A varint field as proto3 writes it: absent when the value is zero.
pub open spec fn opt_varint_field(field: nat, v: nat) -> Seq<u8> {
    if v == 0 {
        Seq::empty()
    } else {
        varint_field(field, v)
    }
}

/// A length-delimited field as proto3 writes it: absent when empty.
pub open spec fn opt_len_field(field: nat, b: Seq<u8>) -> Seq<u8> {
    if b.len() == 0 {
        Seq::empty()
    } else {
        len_field(field, b)
    }
}

/// An embedded message field: written whenever the message is present,
/// even when its encoding is empty.
pub open spec fn opt_message_field(field: nat, m: Option<Seq<u8>>) -> Seq<u8> {
    match m {
        Some(b) => len_field(field, b),
        None => Seq::empty(),
    }
}

/// `128` to the power `i`.
pub open spec fn pow128(i: nat) -> nat
    decreases i,
{
    if i == 0 {
        1
    } else {
        128 * pow128((i - 1) as nat)
    }
}

/// Reading a varint from byte `i` on, with `acc` the value of the bytes
/// before it: at most `max_len` bytes, the last of which may not exceed
/// `last_max`. Gives the value and the number of bytes read.
pub open spec fn varint_scan(s: Seq<u8>, i: nat, acc: nat, max_len: nat, last_max: nat) -> Option<
    (nat, nat),
>
    decreases max_len - i,
{
    if i >= max_len || i >= s.len() {
        None
    } else if i + 1 == max_len {
        if s[i as int] > last_max {
            None
        } else {
            Some(((acc + s[i as int] * pow128(i)) as nat, i + 1))
        }
    } else if s[i as int] < 128 {
        Some(((acc + s[i as int] * pow128(i)) as nat, i + 1))
    } else {
        varint_scan(s, i + 1, (acc + (s[i as int] - 128) * pow128(i)) as nat, max_len, last_max)
    }
}

/// A 64-bit varint at the start of `s`: at most ten bytes, the tenth at
/// most 1.
pub open spec fn parse_varint64(s: Seq<u8>) -> Option<(nat, nat)> {
    varint_scan(s, 0, 0, 10, 1)
}

/// A 32-bit varint at the start of `s`: at most five bytes, the fifth at
/// most 15.
pub open spec fn parse_varint32(s: Seq<u8>) -> Option<(nat, nat)> {
    varint_scan(s, 0, 0, 5, 15)
}

/// Appends the field `field` with varint value `v`.
///
/// Calls `protobuf::CodedOutputStream::write_uint64` on a stream over `out`,
/// then `flush`: the source writes the tag `field << 3` as a varint, then `v`
/// as a varint, each in the base-128 encoding of `varint`. Writing to a
/// `Vec` does not fail.
#[verifier::external_body]
pub(crate) fn push_varint_field(out: &mut Vec<u8>, field: u32, v: u64)
    requires
        1 <= field <= FIELD_NUMBER_MAX,
    ensures
        final(out)@ == old(out)@ + varint_field(field as nat, v as nat),
{
    let mut os = protobuf::CodedOutputStream::vec(out);
    let _ = os.write_uint64(field, v);
    let _ = os.flush();
}

/// Appends the length-delimited field `field` holding `b`.
///
/// Calls `protobuf::CodedOutputStream::write_bytes` on a stream over `out`,
/// then `flush`: the source writes the tag `(field << 3) | 2`, the length of
/// `b` as a varint, then the bytes of `b`. Writing to a `Vec` does not fail.
#[verifier::external_body]
pub(crate) fn push_len_field(out: &mut Vec<u8>, field: u32, b: &[u8])
    requires
        1 <= field <= FIELD_NUMBER_MAX,
        b@.len() <= u32::MAX,
    ensures
        final(out)@ == old(out)@ + len_field(field as nat, b@),
{
    let mut os = protobuf::CodedOutputStream::vec(out);
    let _ = os.write_bytes(field, b);
    let _ = os.flush();
}

/// Reads a 64-bit varint at the start of `s`: its value and the number of
/// bytes it took.
///
/// Calls `protobuf::CodedInputStream::read_raw_varint64` on a stream over
/// `s` and reads the position after it. The source decodes at most ten
/// bytes, seven bits each, stops at the first byte below `0x80`, refuses a
/// tenth byte above 1, and fails when `s` ends first.
#[verifier::external_body]
pub(crate) fn read_varint64(s: &[u8]) -> (r: Option<(u64, usize)>)
    ensures
        match r {
            Some((v, n)) => parse_varint64(s@) == Some((v as nat, n as nat)),
            None => parse_varint64(s@) is None,
        },
{
    let mut is = protobuf::CodedInputStream::from_bytes(s);
    match is.read_raw_varint64() {
        Ok(v) => Some((v, is.pos() as usize)),
        Err(_) => None,
    }
}

/// Reads a 32-bit varint at the start of `s`: its value and the number of
/// bytes it took.
///
/// Calls `protobuf::CodedInputStream::read_raw_varint32` on a stream over
/// `s` and reads the position after it. The source decodes at most five
/// bytes, seven bits each, stops at the first byte below `0x80`, refuses a
/// fifth byte above `0x0f`, and fails when `s` ends first.
#[verifier::external_body]
pub(crate) fn read_varint32(s: &[u8]) -> (r: Option<(u32, usize)>)
    ensures
        match r {
            Some((v, n)) => parse_varint32(s@) == Some((v as nat, n as nat)),
            None => parse_varint32(s@) is None,
        },
{
    let mut is = protobuf::CodedInputStream::from_bytes(s);
    match is.read_raw_varint32() {
        Ok(v) => Some((v, is.pos() as usize)),
        Err(_) => None,
    }
}


/// One field of a message as it stands on the wire.
pub enum WireField {
    /// A varint field: its number and value.
    Varint(nat, u64),
    /// A length-delimited field: its number and bytes.
    Len(nat, Seq<u8>),
    /// A fixed-width field (64 or 32 bits), or a group, skipped: its number.
    Fixed(nat),
}

/// One field of a message, read from the wire.
pub enum Field {
    /// A varint field: its number and value.
    Varint(u32, u64),
    /// A length-delimited field: its number and bytes.
    Len(u32, Vec<u8>),
    /// A fixed-width field (64 or 32 bits), or a group, skipped: its number.
    Fixed(u32),
}

impl View for Field {
    type V = WireField;

    open spec fn view(&self) -> WireField {
        match self {
            Field::Varint(n, v) => WireField::Varint(*n as nat, *v),
            Field::Len(n, b) => WireField::Len(*n as nat, b@),
            Field::Fixed(n) => WireField::Fixed(*n as nat),
        }
    }
}

/// The fields of `v`, each by its view.
pub open spec fn fields_view(v: Seq<Field>) -> Seq<WireField> {
    v.map_values(|f: Field| f@)
}

/// The number of bytes that a value of wire type `wire` other than a group
/// takes at the start of `s`: a 64-bit varint, 8 bytes, a 32-bit varint
/// length followed by that many bytes, or 4 bytes.
pub open spec fn value_len(s: Seq<u8>, wire: nat) -> Option<nat> {
    if wire == 0 {
        match parse_varint64(s) {
            Some((_, m)) => Some(m),
            None => None,
        }
    } else if wire == 1 {
        if 8 <= s.len() {
            Some(8)
        } else {
            None
        }
    } else if wire == 2 {
        match parse_varint32(s) {
            Some((l, m)) => if m + l <= s.len() {
                Some(m + l)
            } else {
                None
            },
            None => None,
        }
    } else if wire == 5 {
        if 4 <= s.len() {
            Some(4)
        } else {
            None
        }
    } else {
        None
    }
}

/// The number of bytes that the rest of a group takes at the start of `s`,
/// up to and including its end tag, when `level` groups around it have
/// been entered past the outermost one.
///
/// Each field inside is skipped by its wire type; a nested group is entered
/// only while `level` is below `RECURSION_LIMIT`. A tag with field number 0
/// or an unknown wire type, a value that runs past the end, or a group that
/// never ends is refused. The end tag's field number is not compared with
/// the start tag's.
#[verifier::opaque]
pub open spec fn group_len(s: Seq<u8>, level: nat) -> Option<nat>
    decreases s.len(),
{
    match parse_varint32(s) {
        None => None,
        Some((t, n)) => {
            let num = t / 8;
            let wire = t % 8;
            if n == 0 || n > s.len() || num == 0 || wire > 5 {
                None
            } else if wire == 4 {
                Some(n)
            } else {
                let body = if wire == 3 {
                    if level >= RECURSION_LIMIT {
                        None
                    } else {
                        group_len(s.skip(n as int), level + 1)
                    }
                } else {
                    value_len(s.skip(n as int), wire)
                };
                match body {
                    Some(m) => if n + m <= s.len() {
                        match group_len(s.skip((n + m) as int), level) {
                            Some(k) => Some(n + m + k),
                            None => None,
                        }
                    } else {
                        None
                    },
                    None => None,
                }
            }
        },
    }
}

/// The field at the start of `s` and the number of bytes it takes.
///
/// The tag is a 32-bit varint whose low three bits are the wire type and
/// whose other bits are the field number, which may not be 0. A varint value
/// is a 64-bit varint; a length-delimited value is a 32-bit varint length
/// followed by that many bytes; fixed values take 8 or 4 bytes. A group
/// (wire type 3) is skipped up to its end tag, as `group_len` reads it, and
/// stands as `WireField::Fixed`. A lone end tag (wire type 4) and unknown
/// wire types are refused. Group nesting is counted as for a message read
/// on its own, whatever message holds the bytes.
pub open spec fn parse_field(s: Seq<u8>) -> Option<(WireField, nat)> {
    match parse_varint32(s) {
        None => None,
        Some((t, n)) => {
            let num = t / 8;
            let wire = t % 8;
            let rest = s.skip(n as int);
            if num == 0 {
                None
            } else if wire == 0 {
                match parse_varint64(rest) {
                    Some((v, m)) => Some((WireField::Varint(num, v as u64), n + m)),
                    None => None,
                }
            } else if wire == 1 {
                if n + 8 <= s.len() {
                    Some((WireField::Fixed(num), n + 8))
                } else {
                    None
                }
            } else if wire == 2 {
                match parse_varint32(rest) {
                    Some((l, m)) => if n + m + l <= s.len() {
                        Some(
                            (
                                WireField::Len(num, s.subrange((n + m) as int, (n + m + l) as int)),
                                n + m + l,
                            ),
                        )
                    } else {
                        None
                    },
                    None => None,
                }
            } else if wire == 3 {
                match group_len(rest, 0) {
                    Some(k) => Some((WireField::Fixed(num), n + k)),
                    None => None,
                }
            } else if wire == 5 {
                if n + 4 <= s.len() {
                    Some((WireField::Fixed(num), n + 4))
                } else {
                    None
                }
            } else {
                None
            }
        },
    }
}

/// The fields of the message encoded by `s`, in the order they stand.
pub open spec fn parse_fields(s: Seq<u8>) -> Option<Seq<WireField>>
    decreases s.len(),
{
    if s.len() == 0 {
        Some(Seq::empty())
    } else {
        match parse_field(s) {
            Some((f, n)) => if 0 < n <= s.len() {
                match parse_fields(s.skip(n as int)) {
                    Some(rest) => Some(seq![f] + rest),
                    None => None,
                }
            } else {
                None
            },
            None => None,
        }
    }
}

proof fn lemma_varint_scan_len(s: Seq<u8>, i: nat, acc: nat, max_len: nat, last_max: nat)
    ensures
        varint_scan(s, i, acc, max_len, last_max) matches Some((v, n)) ==> i < n <= s.len() && n
            <= max_len,
    decreases max_len - i,
{
    if i < max_len && i < s.len() && i + 1 != max_len && s[i as int] >= 128 {
        lemma_varint_scan_len(
            s,
            i + 1,
            (acc + (s[i as int] - 128) * pow128(i)) as nat,
            max_len,
            last_max,
        );
    }
}

/// A varint read takes at least one byte and no more than there are.
pub proof fn lemma_varint_len(s: Seq<u8>)
    ensures
        parse_varint32(s) matches Some((v, n)) ==> 0 < n <= s.len() && n <= 5,
        parse_varint64(s) matches Some((v, n)) ==> 0 < n <= s.len() && n <= 10,
{
    lemma_varint_scan_len(s, 0, 0, 5, 15);
    lemma_varint_scan_len(s, 0, 0, 10, 1);
}

proof fn lemma_value_len(s: Seq<u8>, wire: nat)
    ensures
        value_len(s, wire) matches Some(m) ==> 0 < m <= s.len(),
{
    lemma_varint_len(s);
}

/// A group read takes at least one byte and no more than there are.
pub proof fn lemma_group_len(s: Seq<u8>, level: nat)
    ensures
        group_len(s, level) matches Some(k) ==> 0 < k <= s.len(),
    decreases s.len(),
{
    reveal(group_len);
    lemma_varint_len(s);
    if let Some((t, n)) = parse_varint32(s) {
        let wire = t % 8;
        if n > 0 && n <= s.len() && t / 8 != 0 && wire <= 5 && wire != 4 {
            if wire == 3 && level < RECURSION_LIMIT {
                lemma_group_len(s.skip(n as int), level + 1);
            }
            lemma_value_len(s.skip(n as int), wire);
            let body = if wire == 3 {
                if level >= RECURSION_LIMIT {
                    None
                } else {
                    group_len(s.skip(n as int), level + 1)
                }
            } else {
                value_len(s.skip(n as int), wire)
            };
            if let Some(m) = body {
                if n + m <= s.len() {
                    lemma_group_len(s.skip((n + m) as int), level);
                }
            }
        }
    }
}

/// Skips a value of wire type `wire` other than a group at the start of
/// `s`: the number of bytes it takes.
fn skip_value(s: &[u8], wire: u32) -> (r: Option<usize>)
    ensures
        match r {
            Some(m) => value_len(s@, wire as nat) == Some(m as nat),
            None => value_len(s@, wire as nat) is None,
        },
{
    proof {
        lemma_varint_len(s@);
    }
    if wire == WIRE_VARINT {
        match read_varint64(s) {
            Some((_, m)) => Some(m),
            None => None,
        }
    } else if wire == WIRE_FIXED64 {
        if 8 <= s.len() {
            Some(8)
        } else {
            None
        }
    } else if wire == WIRE_LEN {
        match read_varint32(s) {
            Some((l, m)) => if (l as usize) <= s.len() - m {
                Some(m + l as usize)
            } else {
                None
            },
            None => None,
        }
    } else if wire == WIRE_FIXED32 {
        if 4 <= s.len() {
            Some(4)
        } else {
            None
        }
    } else {
        None
    }
}

/// Skips the rest of a group at the start of `s`, up to and including its
/// end tag, with `level` groups around it entered past the outermost one:
/// the number of bytes it takes.
fn skip_group(s: &[u8], level: u64) -> (r: Option<usize>)
    requires
        level <= RECURSION_LIMIT,
    ensures
        match r {
            Some(k) => group_len(s@, level as nat) == Some(k as nat) && k <= s@.len(),
            None => group_len(s@, level as nat) is None,
        },
    decreases s@.len(),
{
    let mut pos: usize = 0;
    assert(s@.skip(0) =~= s@);
    loop
        invariant
            level <= RECURSION_LIMIT,
            pos <= s@.len(),
            group_len(s@, level as nat) == match group_len(s@.skip(pos as int), level as nat) {
                Some(k) => Some((pos + k) as nat),
                None => None,
            },
        decreases s@.len() - pos,
    {
        let rest = &s[pos..s.len()];
        assert(rest@ =~= s@.skip(pos as int));
        proof {
            reveal(group_len);
            lemma_varint_len(rest@);
            lemma_group_len(rest@, level as nat);
        }
        let (t, n) = match read_varint32(rest) {
            Some(p) => p,
            None => return None,
        };
        let num = t / 8;
        let wire = t % 8;
        if num == 0 || wire > 5 {
            return None;
        }
        if wire == WIRE_END_GROUP {
            return Some(pos + n);
        }
        let after = &rest[n..rest.len()];
        assert(after@ =~= rest@.skip(n as int));
        let m = if wire == WIRE_START_GROUP {
            if level >= RECURSION_LIMIT {
                return None;
            }
            match skip_group(after, level + 1) {
                Some(m) => m,
                None => return None,
            }
        } else {
            proof {
                lemma_value_len(after@, wire as nat);
            }
            match skip_value(after, wire) {
                Some(m) => m,
                None => return None,
            }
        };
        assert(rest@.skip((n + m) as int) =~= s@.skip((pos + n + m) as int));
        pos = pos + n + m;
    }
}

/// Reads the field at the start of `s`: the field and the bytes it takes.
pub fn read_field(s: &[u8]) -> (r: Option<(Field, usize)>)
    ensures
        match r {
            Some((f, n)) => parse_field(s@) == Some((f@, n as nat)),
            None => parse_field(s@) is None,
        },
{
    proof {
        lemma_varint_len(s@);
    }
    let (t, n) = match read_varint32(s) {
        Some(p) => p,
        None => return None,
    };
    let num = t / 8;
    let wire = t % 8;
    let rest = &s[n..s.len()];
    assert(rest@ == s@.skip(n as int));
    proof {
        lemma_varint_len(rest@);
    }
    if num == 0 {
        None
    } else if wire == 0 {
        match read_varint64(rest) {
            Some((v, m)) => Some((Field::Varint(num, v), n + m)),
            None => None,
        }
    } else if wire == 1 {
        if 8 <= s.len() - n {
            Some((Field::Fixed(num), n + 8))
        } else {
            None
        }
    } else if wire == 2 {
        match read_varint32(rest) {
            Some((l, m)) => {
                if (l as usize) <= s.len() - n - m {
                    let start = n + m;
                    let end = n + m + l as usize;
                    let data = vstd::slice::slice_to_vec(&s[start..end]);
                    Some((Field::Len(num, data), end))
                } else {
                    None
                }
            },
            None => None,
        }
    } else if wire == WIRE_START_GROUP {
        match skip_group(rest, 0) {
            Some(k) => Some((Field::Fixed(num), n + k)),
            None => None,
        }
    } else if wire == 5 {
        if 4 <= s.len() - n {
            Some((Field::Fixed(num), n + 4))
        } else {
            None
        }
    } else {
        None
    }
}

/// Reads all fields of the message encoded by `s`, in the order they stand.
pub fn read_fields(s: &[u8]) -> (r: Option<Vec<Field>>)
    ensures
        match r {
            Some(v) => parse_fields(s@) == Some(fields_view(v@)),
            None => parse_fields(s@) is None,
        },
{
    let mut out: Vec<Field> = Vec::new();
    let mut pos: usize = 0;
    assert(s@.skip(0) =~= s@);
    while pos < s.len()
        invariant
            pos <= s@.len(),
            parse_fields(s@) == match parse_fields(s@.skip(pos as int)) {
                Some(rest) => Some(fields_view(out@) + rest),
                None => None,
            },
        decreases s@.len() - pos,
    {
        let rest = &s[pos..s.len()];
        assert(rest@ =~= s@.skip(pos as int));
        match read_field(rest) {
            Some((f, n)) => {
                if n == 0 || n > rest.len() {
                    return None;
                }
                proof {
                    let ghost old_out = fields_view(out@);
                    assert(s@.skip(pos as int).skip(n as int) =~= s@.skip(pos + n));
                    let ghost tail = parse_fields(s@.skip(pos + n));
                    if let Some(t) = tail {
                        assert(old_out + (seq![f@] + t) =~= (old_out + seq![f@]) + t);
                    }
                }
                let ghost before = out@;
                let ghost fv = f@;
                out.push(f);
                assert(fields_view(out@) =~= fields_view(before) + seq![fv]);
                pos = pos + n;
            },
            None => {
                return None;
            },
        }
    }
    assert(s@.skip(pos as int) =~= Seq::<u8>::empty());
    assert(fields_view(out@) + Seq::<WireField>::empty() =~= fields_view(out@));
    Some(out)
}


/// The value of the last varint field numbered `num`, if any.
pub open spec fn last_varint(fs: Seq<WireField>, num: nat) -> Option<u64>
    decreases fs.len(),
{
    if fs.len() == 0 {
        None
    } else {
        match fs.last() {
            WireField::Varint(n, v) if n == num => Some(v),
            _ => last_varint(fs.drop_last(), num),
        }
    }
}

/// The bytes of the last length-delimited field numbered `num`, if any.
pub open spec fn last_len(fs: Seq<WireField>, num: nat) -> Option<Seq<u8>>
    decreases fs.len(),
{
    if fs.len() == 0 {
        None
    } else {
        match fs.last() {
            WireField::Len(n, b) if n == num => Some(b),
            _ => last_len(fs.drop_last(), num),
        }
    }
}

/// The bytes of every length-delimited field numbered `num`, in order.
pub open spec fn all_len(fs: Seq<WireField>, num: nat) -> Seq<Seq<u8>>
    decreases fs.len(),
{
    if fs.len() == 0 {
        Seq::empty()
    } else {
        match fs.last() {
            WireField::Len(n, b) if n == num => all_len(fs.drop_last(), num).push(b),
            _ => all_len(fs.drop_last(), num),
        }
    }
}

/// The bytes of every length-delimited field numbered `num`, joined: an
/// embedded message that occurs several times is the merge of them all,
/// which reads as the message their concatenation encodes.
pub open spec fn joined_len(fs: Seq<WireField>, num: nat) -> Seq<u8>
    decreases fs.len(),
{
    if fs.len() == 0 {
        Seq::empty()
    } else {
        match fs.last() {
            WireField::Len(n, b) if n == num => joined_len(fs.drop_last(), num) + b,
            _ => joined_len(fs.drop_last(), num),
        }
    }
}

/// A field that is not a varint field numbered `num`, or one whose value,
/// read as `i64`, lies in the range of `i32`.
pub open spec fn fits_i32(f: WireField, num: nat) -> bool {
    match f {
        WireField::Varint(n, v) => n == num ==> i32::MIN <= (v as i64) <= i32::MAX,
        _ => true,
    }
}

/// A field that is not a varint field numbered `num`, or one whose value
/// lies in the range of `u32`.
pub open spec fn fits_u32(f: WireField, num: nat) -> bool {
    match f {
        WireField::Varint(n, v) => n == num ==> v <= u32::MAX,
        _ => true,
    }
}

/// A field that is not a length-delimited field numbered `num`, or one that
/// holds valid UTF-8.
pub open spec fn is_utf8(f: WireField, num: nat) -> bool {
    match f {
        WireField::Len(n, b) => n == num ==> vstd::utf8::valid_utf8(b),
        _ => true,
    }
}

/// Every varint field numbered `num` holds, read as `i64`, a value in the
/// range of `i32` (what an `int32` or enum field must hold).
pub open spec fn varints_fit_i32(fs: Seq<WireField>, num: nat) -> bool {
    forall|i: int| 0 <= i < fs.len() ==> fits_i32(#[trigger] fs[i], num)
}

/// Every varint field numbered `num` holds a value in the range of `u32`.
pub open spec fn varints_fit_u32(fs: Seq<WireField>, num: nat) -> bool {
    forall|i: int| 0 <= i < fs.len() ==> fits_u32(#[trigger] fs[i], num)
}

/// Every length-delimited field numbered `num` holds valid UTF-8 (what a
/// `string` field must hold).
pub open spec fn lens_utf8(fs: Seq<WireField>, num: nat) -> bool {
    forall|i: int| 0 <= i < fs.len() ==> is_utf8(#[trigger] fs[i], num)
}

/// The value of an `int64` field: the last one, or 0.
pub open spec fn int64_of(fs: Seq<WireField>, num: nat) -> i64 {
    match last_varint(fs, num) {
        Some(v) => v as i64,
        None => 0,
    }
}

/// The value of an `int32` or enum field: the last one, or 0.
pub open spec fn int32_of(fs: Seq<WireField>, num: nat) -> i32 {
    match last_varint(fs, num) {
        Some(v) => (v as i64) as i32,
        None => 0,
    }
}

/// The value of a `uint32` field: the last one, or 0.
pub open spec fn uint32_of(fs: Seq<WireField>, num: nat) -> u32 {
    match last_varint(fs, num) {
        Some(v) => v as u32,
        None => 0,
    }
}

/// The value of a `bytes` field: the last one, or empty.
pub open spec fn bytes_of(fs: Seq<WireField>, num: nat) -> Seq<u8> {
    match last_len(fs, num) {
        Some(b) => b,
        None => Seq::empty(),
    }
}

/// The value of a `string` field: the last one decoded, or empty.
pub open spec fn string_of(fs: Seq<WireField>, num: nat) -> Seq<char> {
    vstd::utf8::decode_utf8(bytes_of(fs, num))
}

/// Whether an embedded message field numbered `num` occurs.
pub open spec fn has_len(fs: Seq<WireField>, num: nat) -> bool {
    last_len(fs, num) is Some
}

proof fn lemma_take_step<A>(s: Seq<A>, i: int)
    requires
        0 <= i < s.len(),
    ensures
        s.take(i + 1).drop_last() == s.take(i),
        s.take(i + 1).last() == s[i],
        s.take(i + 1).len() == i + 1,
{
    assert(s.take(i + 1).drop_last() =~= s.take(i));
}

/// The last varint field numbered `num`.
pub fn find_varint(fs: &Vec<Field>, num: u32) -> (r: Option<u64>)
    ensures
        r == last_varint(fields_view(fs@), num as nat),
{
    let mut r: Option<u64> = None;
    let mut i: usize = 0;
    while i < fs.len()
        invariant
            i <= fs@.len(),
            r == last_varint(fields_view(fs@).take(i as int), num as nat),
        decreases fs@.len() - i,
    {
        proof {
            lemma_take_step(fields_view(fs@), i as int);
        }
        match &fs[i] {
            Field::Varint(n, v) => {
                if *n == num {
                    r = Some(*v);
                }
            },
            _ => {},
        }
        i = i + 1;
    }
    assert(fields_view(fs@).take(i as int) =~= fields_view(fs@));
    r
}

/// The bytes of the last length-delimited field numbered `num`.
pub fn find_len(fs: &Vec<Field>, num: u32) -> (r: Option<Vec<u8>>)
    ensures
        match r {
            Some(b) => last_len(fields_view(fs@), num as nat) == Some(b@),
            None => last_len(fields_view(fs@), num as nat) is None,
        },
{
    let mut r: Option<Vec<u8>> = None;
    let mut i: usize = 0;
    while i < fs.len()
        invariant
            i <= fs@.len(),
            match r {
                Some(b) => last_len(fields_view(fs@).take(i as int), num as nat) == Some(b@),
                None => last_len(fields_view(fs@).take(i as int), num as nat) is None,
            },
        decreases fs@.len() - i,
    {
        proof {
            lemma_take_step(fields_view(fs@), i as int);
        }
        match &fs[i] {
            Field::Len(n, b) => {
                if *n == num {
                    r = Some(b.clone());
                }
            },
            _ => {},
        }
        i = i + 1;
    }
    assert(fields_view(fs@).take(i as int) =~= fields_view(fs@));
    r
}

/// The bytes of every length-delimited field numbered `num`, in order.
pub fn find_all_len(fs: &Vec<Field>, num: u32) -> (r: Vec<Vec<u8>>)
    ensures
        r@.map_values(|b: Vec<u8>| b@) == all_len(fields_view(fs@), num as nat),
{
    let mut r: Vec<Vec<u8>> = Vec::new();
    let mut i: usize = 0;
    while i < fs.len()
        invariant
            i <= fs@.len(),
            r@.map_values(|b: Vec<u8>| b@) == all_len(fields_view(fs@).take(i as int), num as nat),
        decreases fs@.len() - i,
    {
        proof {
            lemma_take_step(fields_view(fs@), i as int);
        }
        match &fs[i] {
            Field::Len(n, b) => {
                if *n == num {
                    let ghost before = r@;
                    r.push(b.clone());
                    assert(r@.map_values(|b: Vec<u8>| b@) =~= before.map_values(|b: Vec<u8>| b@).push(
                        b@,
                    ));
                }
            },
            _ => {},
        }
        i = i + 1;
    }
    assert(fields_view(fs@).take(i as int) =~= fields_view(fs@));
    r
}

/// The bytes of every length-delimited field numbered `num`, joined, or
/// `None` when there is none.
pub fn find_joined_len(fs: &Vec<Field>, num: u32) -> (r: Option<Vec<u8>>)
    ensures
        match r {
            Some(b) => has_len(fields_view(fs@), num as nat) && b@ == joined_len(
                fields_view(fs@),
                num as nat,
            ),
            None => !has_len(fields_view(fs@), num as nat),
        },
{
    let mut r: Vec<u8> = Vec::new();
    let mut found = false;
    let mut i: usize = 0;
    while i < fs.len()
        invariant
            i <= fs@.len(),
            r@ == joined_len(fields_view(fs@).take(i as int), num as nat),
            found == has_len(fields_view(fs@).take(i as int), num as nat),
        decreases fs@.len() - i,
    {
        proof {
            lemma_take_step(fields_view(fs@), i as int);
        }
        match &fs[i] {
            Field::Len(n, b) => {
                if *n == num {
                    let mut c = b.clone();
                    r.append(&mut c);
                    found = true;
                }
            },
            _ => {},
        }
        i = i + 1;
    }
    assert(fields_view(fs@).take(i as int) =~= fields_view(fs@));
    if found {
        Some(r)
    } else {
        None
    }
}

/// Whether every varint field numbered `num` fits `i32` when read as `i64`.
pub fn check_varints_i32(fs: &Vec<Field>, num: u32) -> (r: bool)
    ensures
        r == varints_fit_i32(fields_view(fs@), num as nat),
{
    let mut i: usize = 0;
    while i < fs.len()
        invariant
            i <= fs@.len(),
            forall|j: int| 0 <= j < i ==> fits_i32(#[trigger] fields_view(fs@)[j], num as nat),
        decreases fs@.len() - i,
    {
        match &fs[i] {
            Field::Varint(n, v) => {
                if *n == num {
                    let x = *v as i64;
                    if x < -2147483648 || x > 2147483647 {
                        assert(fields_view(fs@)[i as int] == fs@[i as int]@);
                        return false;
                    }
                }
            },
            _ => {},
        }
        assert(fields_view(fs@)[i as int] == fs@[i as int]@);
        i = i + 1;
    }
    true
}

/// Whether every varint field numbered `num` fits `u32`.
pub fn check_varints_u32(fs: &Vec<Field>, num: u32) -> (r: bool)
    ensures
        r == varints_fit_u32(fields_view(fs@), num as nat),
{
    let mut i: usize = 0;
    while i < fs.len()
        invariant
            i <= fs@.len(),
            forall|j: int| 0 <= j < i ==> fits_u32(#[trigger] fields_view(fs@)[j], num as nat),
        decreases fs@.len() - i,
    {
        match &fs[i] {
            Field::Varint(n, v) => {
                if *n == num && *v > 4294967295 {
                    assert(fields_view(fs@)[i as int] == fs@[i as int]@);
                    return false;
                }
            },
            _ => {},
        }
        assert(fields_view(fs@)[i as int] == fs@[i as int]@);
        i = i + 1;
    }
    true
}

/// Decodes UTF-8 bytes into a `String`.
///
/// Calls `String::from_utf8`, which std documents to fail exactly when the
/// bytes are not valid UTF-8 and otherwise to hold the characters they
/// encode.
#[verifier::external_body]
pub(crate) fn utf8_string(v: Vec<u8>) -> (r: Option<String>)
    ensures
        match r {
            Some(s) => vstd::utf8::valid_utf8(v@) && s@ == vstd::utf8::decode_utf8(v@),
            None => !vstd::utf8::valid_utf8(v@),
        },
{
    String::from_utf8(v).ok()
}

/// Whether every length-delimited field numbered `num` holds valid UTF-8.
pub fn check_lens_utf8(fs: &Vec<Field>, num: u32) -> (r: bool)
    ensures
        r == lens_utf8(fields_view(fs@), num as nat),
{
    let mut i: usize = 0;
    while i < fs.len()
        invariant
            i <= fs@.len(),
            forall|j: int| 0 <= j < i ==> is_utf8(#[trigger] fields_view(fs@)[j], num as nat),
        decreases fs@.len() - i,
    {
        assert(fields_view(fs@)[i as int] == fs@[i as int]@);
        match &fs[i] {
            Field::Len(n, b) => {
                if *n == num {
                    if utf8_string(b.clone()).is_none() {
                        return false;
                    }
                }
            },
            _ => {},
        }
        i = i + 1;
    }
    true
}

/// The value of a `string` field: the last one, or empty. All of them must
/// be valid UTF-8.
pub fn find_string(fs: &Vec<Field>, num: u32) -> (r: String)
    requires
        lens_utf8(fields_view(fs@), num as nat),
    ensures
        r@ == string_of(fields_view(fs@), num as nat),
{
    proof {
        lemma_last_len_in(fields_view(fs@), num as nat);
    }
    let b = match find_len(fs, num) {
        Some(b) => b,
        None => Vec::new(),
    };
    proof {
        lemma_utf8_empty();
    }
    match utf8_string(b) {
        Some(s) => s,
        None => String::new(),
    }
}

/// The last length-delimited field numbered `num` is one of the fields.
proof fn lemma_last_len_in(fs: Seq<WireField>, num: nat)
    ensures
        last_len(fs, num) matches Some(b) ==> exists|i: int|
            0 <= i < fs.len() && #[trigger] fs[i] == WireField::Len(num, b),
    decreases fs.len(),
{
    if fs.len() > 0 {
        lemma_last_len_in(fs.drop_last(), num);
        if let WireField::Len(n, b) = fs.last() {
            if n == num {
                assert(fs[fs.len() - 1] == WireField::Len(num, b));
            }
        }
        if let Some(b) = last_len(fs.drop_last(), num) {
            if !(fs.last() matches WireField::Len(n, _) && n == num) {
                let i = choose|i: int|
                    0 <= i < fs.drop_last().len() && #[trigger] fs.drop_last()[i] == WireField::Len(
                        num,
                        b,
                    );
                assert(fs[i] == WireField::Len(num, b));
            }
        }
    }
}

/// The empty byte sequence is valid UTF-8 and decodes to no character.
pub proof fn lemma_utf8_empty()
    ensures
        vstd::utf8::valid_utf8(Seq::empty()),
        vstd::utf8::decode_utf8(Seq::empty()) == Seq::<char>::empty(),
{
    reveal_with_fuel(vstd::utf8::valid_utf8, 1);
}


/// The bytes of a `string` value: its UTF-8 encoding.
pub open spec fn utf8(s: Seq<char>) -> Seq<u8> {
    vstd::utf8::encode_utf8(s)
}

/// The varint value of an `int32` or enum field: sign-extended to 64 bits.
pub open spec fn i32_wire(v: i32) -> nat {
    (v as u64) as nat
}

/// The varint value of an `int64` field: its two's complement bits.
pub open spec fn i64_wire(v: i64) -> nat {
    (v as u64) as nat
}

/// Appends a varint field unless its value is zero.
pub fn push_opt_varint(out: &mut Vec<u8>, field: u32, v: u64)
    requires
        1 <= field <= FIELD_NUMBER_MAX,
    ensures
        final(out)@ == old(out)@ + opt_varint_field(field as nat, v as nat),
{
    if v != 0 {
        push_varint_field(out, field, v);
    } else {
        assert(old(out)@ + Seq::<u8>::empty() =~= old(out)@);
    }
}

/// Appends a length-delimited field unless it is empty.
pub fn push_opt_len(out: &mut Vec<u8>, field: u32, b: &[u8])
    requires
        1 <= field <= FIELD_NUMBER_MAX,
        b@.len() <= u32::MAX,
    ensures
        final(out)@ == old(out)@ + opt_len_field(field as nat, b@),
{
    if b.len() != 0 {
        push_len_field(out, field, b);
    } else {
        assert(old(out)@ + Seq::<u8>::empty() =~= old(out)@);
    }
}

/// Appends a `string` field unless the string is empty.
pub fn push_opt_string(out: &mut Vec<u8>, field: u32, s: &String)
    requires
        1 <= field <= FIELD_NUMBER_MAX,
        utf8(s@).len() <= u32::MAX,
    ensures
        final(out)@ == old(out)@ + opt_len_field(field as nat, utf8(s@)),
{
    let b = s.as_str().as_bytes();
    push_opt_len(out, field, b);
}


/// The value of an `int64` field: the last one, or 0.
pub fn int64_field(fs: &Vec<Field>, num: u32) -> (r: i64)
    ensures
        r == int64_of(fields_view(fs@), num as nat),
{
    match find_varint(fs, num) {
        Some(v) => v as i64,
        None => 0,
    }
}

/// The value of an `int32` or enum field: the last one, or 0.
pub fn int32_field(fs: &Vec<Field>, num: u32) -> (r: i32)
    ensures
        r == int32_of(fields_view(fs@), num as nat),
{
    match find_varint(fs, num) {
        Some(v) => (v as i64) as i32,
        None => 0,
    }
}

/// The value of a `uint32` field: the last one, or 0.
pub fn uint32_field(fs: &Vec<Field>, num: u32) -> (r: u32)
    ensures
        r == uint32_of(fields_view(fs@), num as nat),
{
    match find_varint(fs, num) {
        Some(v) => v as u32,
        None => 0,
    }
}

/// The value of a `bytes` field: the last one, or empty.
pub fn bytes_field(fs: &Vec<Field>, num: u32) -> (r: Vec<u8>)
    ensures
        r@ == bytes_of(fields_view(fs@), num as nat),
{
    match find_len(fs, num) {
        Some(b) => b,
        None => Vec::new(),
    }
}


proof fn lemma_pow128_pos(i: nat)
    ensures
        pow128(i) > 0,
    decreases i,
{
    if i > 0 {
        lemma_pow128_pos((i - 1) as nat);
    }
}

/// Reading a varint from byte `i` of `s`, where the encoding of `w` stands,
/// gives `w` at the place value of byte `i`, when the value fits.
proof fn lemma_varint_scan(s: Seq<u8>, i: nat, acc: nat, w: nat, max_len: nat, last_max: nat)
    requires
        i < max_len,
        last_max < 128,
        i + varint(w).len() <= s.len(),
        s.subrange(i as int, (i + varint(w).len()) as int) == varint(w),
        acc < pow128(i),
        acc + w * pow128(i) < pow128((max_len - 1) as nat) * (last_max + 1),
    ensures
        varint_scan(s, i, acc, max_len, last_max) == Some(
            ((acc + w * pow128(i)) as nat, i + varint(w).len()),
        ),
    decreases w,
{
    let p = pow128(i);
    lemma_pow128_pos(i);
    let top = pow128((max_len - 1) as nat);
    if i + 1 == max_len {
        assert(top == p);
        assert(w < last_max + 1) by (nonlinear_arith)
            requires
                acc + w * p < p * (last_max + 1),
                p > 0,
        ;
        assert(varint(w) == seq![w as u8]);
        assert(s[i as int] == varint(w)[0]);
    } else if w < 128 {
        assert(varint(w) == seq![w as u8]);
        assert(s[i as int] == varint(w)[0]);
    } else {
        let b = ((w % 128) + 128) as u8;
        assert(varint(w) == seq![b] + varint(w / 128));
        assert(s[i as int] == varint(w)[0]);
        let sub = s.subrange(i as int, (i + varint(w).len()) as int);
        let tail = varint(w / 128);
        assert(varint(w).len() == 1 + tail.len());
        assert forall|k: int| 0 <= k < tail.len() implies s[i + 1 + k] == tail[k] by {
            assert(sub[1 + k] == varint(w)[1 + k]);
            assert(varint(w)[1 + k] == tail[k]);
        }
        assert(s.subrange((i + 1) as int, (i + 1 + tail.len()) as int) =~= tail);
        let acc2 = acc + (w % 128) * p;
        assert(pow128(i + 1) == 128 * p);
        assert(acc2 < 128 * p) by (nonlinear_arith)
            requires
                acc < p,
                w % 128 < 128,
                acc2 == acc + (w % 128) * p,
        ;
        assert(acc2 + (w / 128) * (128 * p) == acc + w * p) by (nonlinear_arith)
            requires
                acc2 == acc + (w % 128) * p,
                w == 128 * (w / 128) + w % 128,
        ;
        lemma_varint_scan(s, i + 1, acc2 as nat, w / 128, max_len, last_max);
    }
}

proof fn lemma_pow128_values()
    ensures
        pow128(4) == 0x1000_0000,
        pow128(9) == 0x8000_0000_0000_0000,
{
    reveal_with_fuel(pow128, 10);
}

/// A varint read gives back the value a varint write wrote, and the number
/// of bytes written.
pub proof fn lemma_varint_roundtrip(v: nat, rest: Seq<u8>)
    ensures
        v <= u64::MAX ==> parse_varint64(varint(v) + rest) == Some((v, varint(v).len())),
        v <= u32::MAX ==> parse_varint32(varint(v) + rest) == Some((v, varint(v).len())),
{
    lemma_pow128_values();
    let s = varint(v) + rest;
    assert(s.subrange(0, varint(v).len() as int) =~= varint(v));
    assert(pow128(0) == 1);
    assert(0 + v * pow128(0) == v) by (nonlinear_arith)
        requires
            pow128(0) == 1,
    ;
    if v <= u64::MAX {
        let top = pow128(9);
        assert(top * 2 == 0x1_0000_0000_0000_0000nat);
        assert(((10 - 1) as nat) == 9nat);
        lemma_varint_scan(s, 0, 0, v, 10, 1);
    }
    if v <= u32::MAX {
        let top = pow128(4);
        assert(top * 16 == 0x1_0000_0000nat);
        assert(((5 - 1) as nat) == 4nat);
        lemma_varint_scan(s, 0, 0, v, 5, 15);
    }
}


/// Prepends `a` to the fields `r`, if they read.
pub open spec fn prepend(a: Seq<WireField>, r: Option<Seq<WireField>>) -> Option<Seq<WireField>> {
    match r {
        Some(fs) => Some(a + fs),
        None => None,
    }
}

/// The fields an optional varint field writes.
pub open spec fn opt_varint_fields(f: nat, v: nat) -> Seq<WireField> {
    if v == 0 {
        Seq::empty()
    } else {
        seq![WireField::Varint(f, v as u64)]
    }
}

/// The fields an optional length-delimited field writes.
pub open spec fn opt_len_fields(f: nat, b: Seq<u8>) -> Seq<WireField> {
    if b.len() == 0 {
        Seq::empty()
    } else {
        seq![WireField::Len(f, b)]
    }
}

/// The fields an optional embedded message writes.
pub open spec fn opt_message_fields(f: nat, m: Option<Seq<u8>>) -> Seq<WireField> {
    match m {
        Some(b) => seq![WireField::Len(f, b)],
        None => Seq::empty(),
    }
}

proof fn lemma_parse_fields_prefix(a: Seq<u8>, rest: Seq<u8>, f: WireField)
    requires
        a.len() > 0,
        parse_field(a + rest) == Some((f, a.len())),
    ensures
        parse_fields(a + rest) == prepend(seq![f], parse_fields(rest)),
{
    assert((a + rest).skip(a.len() as int) =~= rest);
}

/// A varint field reads back as the field written.
pub proof fn lemma_varint_field_roundtrip(f: nat, v: nat, rest: Seq<u8>)
    requires
        1 <= f <= FIELD_NUMBER_MAX,
        v <= u64::MAX,
    ensures
        parse_field(varint_field(f, v) + rest) == Some(
            (WireField::Varint(f, v as u64), varint_field(f, v).len()),
        ),
{
    let s = varint_field(f, v) + rest;
    let t = f * 8;
    let tail = varint(v) + rest;
    assert(s =~= varint(t) + tail);
    lemma_varint_roundtrip(t, tail);
    let n = varint(t).len();
    assert(s.skip(n as int) =~= tail);
    lemma_varint_roundtrip(v, rest);
    assert(t / 8 == f);
    assert(t % 8 == 0);
}

/// A length-delimited field reads back as the field written.
pub proof fn lemma_len_field_roundtrip(f: nat, b: Seq<u8>, rest: Seq<u8>)
    requires
        1 <= f <= FIELD_NUMBER_MAX,
        b.len() <= u32::MAX,
    ensures
        parse_field(len_field(f, b) + rest) == Some((WireField::Len(f, b), len_field(f, b).len())),
{
    let s = len_field(f, b) + rest;
    let t = f * 8 + 2;
    let tail = varint(b.len()) + b + rest;
    assert(s =~= varint(t) + tail);
    lemma_varint_roundtrip(t, tail);
    let n = varint(t).len();
    assert(s.skip(n as int) =~= tail);
    assert(tail =~= varint(b.len()) + (b + rest));
    lemma_varint_roundtrip(b.len(), b + rest);
    let m = varint(b.len()).len();
    assert(s.subrange((n + m) as int, (n + m + b.len()) as int) =~= b);
    assert(t / 8 == f);
    assert(t % 8 == 2);
}

/// Reading an optional varint field and what follows.
pub proof fn lemma_opt_varint_fields(f: nat, v: nat, rest: Seq<u8>)
    requires
        1 <= f <= FIELD_NUMBER_MAX,
        v <= u64::MAX,
    ensures
        parse_fields(opt_varint_field(f, v) + rest) == prepend(
            opt_varint_fields(f, v),
            parse_fields(rest),
        ),
{
    if v == 0 {
        assert(opt_varint_field(f, v) + rest =~= rest);
        if let Some(fs) = parse_fields(rest) {
            assert(Seq::<WireField>::empty() + fs =~= fs);
        }
    } else {
        lemma_varint_field_roundtrip(f, v, rest);
        lemma_parse_fields_prefix(varint_field(f, v), rest, WireField::Varint(f, v as u64));
    }
}

/// Reading an optional length-delimited field and what follows.
pub proof fn lemma_opt_len_fields(f: nat, b: Seq<u8>, rest: Seq<u8>)
    requires
        1 <= f <= FIELD_NUMBER_MAX,
        b.len() <= u32::MAX,
    ensures
        parse_fields(opt_len_field(f, b) + rest) == prepend(opt_len_fields(f, b), parse_fields(rest)),
{
    if b.len() == 0 {
        assert(opt_len_field(f, b) + rest =~= rest);
        if let Some(fs) = parse_fields(rest) {
            assert(Seq::<WireField>::empty() + fs =~= fs);
        }
    } else {
        lemma_len_field_roundtrip(f, b, rest);
        lemma_parse_fields_prefix(len_field(f, b), rest, WireField::Len(f, b));
    }
}

/// Reading an optional embedded message field and what follows.
pub proof fn lemma_opt_message_fields(f: nat, m: Option<Seq<u8>>, rest: Seq<u8>)
    requires
        1 <= f <= FIELD_NUMBER_MAX,
        m matches Some(b) ==> b.len() <= u32::MAX,
    ensures
        parse_fields(opt_message_field(f, m) + rest) == prepend(
            opt_message_fields(f, m),
            parse_fields(rest),
        ),
{
    match m {
        Some(b) => {
            lemma_len_field_roundtrip(f, b, rest);
            lemma_parse_fields_prefix(len_field(f, b), rest, WireField::Len(f, b));
        },
        None => {
            assert(opt_message_field(f, m) + rest =~= rest);
            if let Some(fs) = parse_fields(rest) {
                assert(Seq::<WireField>::empty() + fs =~= fs);
            }
        },
    }
}

/// The last value of a field in two lists of fields: the second's, if it
/// has one.
pub proof fn lemma_last_concat(a: Seq<WireField>, b: Seq<WireField>, n: nat)
    ensures
        last_varint(a + b, n) == if last_varint(b, n) is Some {
            last_varint(b, n)
        } else {
            last_varint(a, n)
        },
        last_len(a + b, n) == if last_len(b, n) is Some {
            last_len(b, n)
        } else {
            last_len(a, n)
        },
        joined_len(a + b, n) == joined_len(a, n) + joined_len(b, n),
    decreases b.len(),
{
    if b.len() == 0 {
        assert(a + b =~= a);
        assert(joined_len(a, n) + Seq::<u8>::empty() =~= joined_len(a, n));
    } else {
        assert((a + b).drop_last() =~= a + b.drop_last());
        assert((a + b).last() == b.last());
        lemma_last_concat(a, b.drop_last(), n);
        assert(joined_len(a, n) + joined_len(b.drop_last(), n) + match b.last() {
            WireField::Len(m, x) => if m == n {
                x
            } else {
                Seq::empty()
            },
            _ => Seq::empty(),
        } =~= joined_len(a, n) + joined_len(b, n));
    }
}

/// The number of a field.
pub open spec fn number_of(f: WireField) -> nat {
    match f {
        WireField::Varint(n, _) => n,
        WireField::Len(n, _) => n,
        WireField::Fixed(n) => n,
    }
}

/// No field of `fs` is numbered `n`.
pub open spec fn lacks(fs: Seq<WireField>, n: nat) -> bool {
    forall|i: int| 0 <= i < fs.len() ==> number_of(#[trigger] fs[i]) != n
}

/// Every field of `fs` is numbered below `n`.
#[verifier::opaque]
pub open spec fn numbered_below(fs: Seq<WireField>, n: nat) -> bool {
    forall|i: int| 0 <= i < fs.len() ==> number_of(#[trigger] fs[i]) < n
}

/// Every field of `fs` is numbered above `n`.
#[verifier::opaque]
pub open spec fn numbered_above(fs: Seq<WireField>, n: nat) -> bool {
    forall|i: int| 0 <= i < fs.len() ==> number_of(#[trigger] fs[i]) > n
}

proof fn lemma_no_field(fs: Seq<WireField>, n: nat)
    requires
        lacks(fs, n),
    ensures
        last_varint(fs, n) is None,
        last_len(fs, n) is None,
        joined_len(fs, n) == Seq::<u8>::empty(),
    decreases fs.len(),
{
    if fs.len() > 0 {
        assert(fs[fs.len() - 1] == fs.last());
        assert(lacks(fs.drop_last(), n)) by {
            assert forall|i: int| 0 <= i < fs.drop_last().len() implies number_of(
                #[trigger] fs.drop_last()[i],
            ) != n by {
                assert(fs.drop_last()[i] == fs[i]);
            }
        }
        lemma_no_field(fs.drop_last(), n);
    }
}

/// The fields written for a field numbered `n` that stands between fields
/// with other numbers are all that reads for `n`.
pub proof fn lemma_between(pre: Seq<WireField>, mid: Seq<WireField>, post: Seq<WireField>, n: nat)
    requires
        numbered_below(pre, n),
        numbered_above(post, n),
    ensures
        last_varint(pre + mid + post, n) == last_varint(mid, n),
        last_len(pre + mid + post, n) == last_len(mid, n),
        joined_len(pre + mid + post, n) == joined_len(mid, n),
        varints_fit_i32(mid, n) ==> varints_fit_i32(pre + mid + post, n),
        varints_fit_u32(mid, n) ==> varints_fit_u32(pre + mid + post, n),
        lens_utf8(mid, n) ==> lens_utf8(pre + mid + post, n),
{
    reveal(numbered_below);
    reveal(numbered_above);
    lemma_no_field(pre, n);
    lemma_no_field(post, n);
    lemma_last_concat(pre + mid, post, n);
    lemma_last_concat(pre, mid, n);
    assert(Seq::<u8>::empty() + joined_len(mid, n) + Seq::<u8>::empty() =~= joined_len(mid, n));
    let all = pre + mid + post;
    assert forall|i: int| 0 <= i < all.len() implies (number_of(#[trigger] all[i]) != n || (
    pre.len() <= i < pre.len() + mid.len() && all[i] == mid[i - pre.len()])) by {
        if i < pre.len() {
            assert(all[i] == pre[i]);
        } else if i >= pre.len() + mid.len() {
            assert(all[i] == post[i - pre.len() - mid.len()]);
        }
    }
    if varints_fit_i32(mid, n) {
        assert forall|i: int| 0 <= i < all.len() implies fits_i32(#[trigger] all[i], n) by {
            if pre.len() <= i < pre.len() + mid.len() {
                assert(fits_i32(mid[i - pre.len()], n));
            }
        }
    }
    if varints_fit_u32(mid, n) {
        assert forall|i: int| 0 <= i < all.len() implies fits_u32(#[trigger] all[i], n) by {
            if pre.len() <= i < pre.len() + mid.len() {
                assert(fits_u32(mid[i - pre.len()], n));
            }
        }
    }
    if lens_utf8(mid, n) {
        assert forall|i: int| 0 <= i < all.len() implies is_utf8(#[trigger] all[i], n) by {
            if pre.len() <= i < pre.len() + mid.len() {
                assert(is_utf8(mid[i - pre.len()], n));
            }
        }
    }
}

/// Fields numbered below (above) `n`, one list after another, are still
/// numbered below (above) `n`.
pub proof fn lemma_numbered_concat(a: Seq<WireField>, b: Seq<WireField>, n: nat)
    ensures
        numbered_below(a, n) && numbered_below(b, n) ==> numbered_below(a + b, n),
        numbered_above(a, n) && numbered_above(b, n) ==> numbered_above(a + b, n),
{
    reveal(numbered_below);
    reveal(numbered_above);
    let ab = a + b;
    if numbered_below(a, n) && numbered_below(b, n) {
        assert forall|i: int| 0 <= i < ab.len() implies number_of(#[trigger] ab[i]) < n by {
            if i < a.len() {
                assert(ab[i] == a[i]);
            } else {
                assert(ab[i] == b[i - a.len()]);
            }
        }
    }
    if numbered_above(a, n) && numbered_above(b, n) {
        assert forall|i: int| 0 <= i < ab.len() implies number_of(#[trigger] ab[i]) > n by {
            if i < a.len() {
                assert(ab[i] == a[i]);
            } else {
                assert(ab[i] == b[i - a.len()]);
            }
        }
    }
}

/// The fields an optional field numbered `f` writes are numbered below
/// (above) any number above (below) `f`; no fields are numbered both.
pub proof fn lemma_numbered_parts(f: nat, v: nat, b: Seq<u8>, m: Option<Seq<u8>>, n: nat)
    ensures
        numbered_below(Seq::empty(), n),
        numbered_above(Seq::empty(), n),
        f < n ==> numbered_below(opt_varint_fields(f, v), n),
        f < n ==> numbered_below(opt_len_fields(f, b), n),
        f < n ==> numbered_below(opt_message_fields(f, m), n),
        f > n ==> numbered_above(opt_varint_fields(f, v), n),
        f > n ==> numbered_above(opt_len_fields(f, b), n),
        f > n ==> numbered_above(opt_message_fields(f, m), n),
{
    reveal(numbered_below);
    reveal(numbered_above);
}

/// What reads from the fields a single field writes.
pub proof fn lemma_single(f: WireField, n: nat)
    ensures
        last_varint(seq![f], n) == (match f {
            WireField::Varint(m, v) => if m == n {
                Some(v)
            } else {
                None
            },
            _ => None,
        }),
        last_len(seq![f], n) == (match f {
            WireField::Len(m, b) => if m == n {
                Some(b)
            } else {
                None
            },
            _ => None,
        }),
        joined_len(seq![f], n) == (match f {
            WireField::Len(m, b) => if m == n {
                b
            } else {
                Seq::empty()
            },
            _ => Seq::empty(),
        }),
{
    reveal_with_fuel(last_varint, 2);
    reveal_with_fuel(last_len, 2);
    reveal_with_fuel(joined_len, 2);
    let s = seq![f];
    assert(s.drop_last() =~= Seq::<WireField>::empty());
    assert(s.last() == f);
    assert(Seq::<u8>::empty() + match f {
        WireField::Len(m, b) => if m == n {
            b
        } else {
            Seq::<u8>::empty()
        },
        _ => Seq::<u8>::empty(),
    } =~= match f {
        WireField::Len(m, b) => if m == n {
            b
        } else {
            Seq::<u8>::empty()
        },
        _ => Seq::<u8>::empty(),
    });
}

} // verus!
