//! Binary form of a deletion carried by a transaction.
//!
//! A tag byte is followed by length-prefixed fields; lengths are 32-bit and
//! little-endian.

use vstd::prelude::*;

use crate::text::{copy_bytes, push_bytes};

verus! {

/// What a deletion removes.
#[derive(Clone, Debug, PartialEq, Eq)]
pub enum DeleteTarget {
    /// A whole column.
    Column { table: String, column: String },
    /// One element of a map column.
    MapElement { table: String, column: String, map_key: Vec<u8> },
}

/// What a deletion removes, abstractly.
#[verifier::ext_equal]
pub enum TargetView {
    Column { table: Seq<char>, column: Seq<char> },
    MapElement { table: Seq<char>, column: Seq<char>, map_key: Seq<u8> },
}

impl View for DeleteTarget {
    type V = TargetView;

    open spec fn view(&self) -> TargetView {
        match *self {
            DeleteTarget::Column { table, column } => TargetView::Column {
                table: table@,
                column: column@,
            },
            DeleteTarget::MapElement { table, column, map_key } => TargetView::MapElement {
                table: table@,
                column: column@,
                map_key: map_key@,
            },
        }
    }
}

/// Little-endian bytes of a 32-bit number.
pub open spec fn le_bytes(n: u32) -> Seq<u8> {
    seq![
        (n % 256) as u8,
        (n / 256 % 256) as u8,
        (n / 65536 % 256) as u8,
        (n / 16777216) as u8,
    ]
}

/// The number with the given little-endian bytes.
pub open spec fn from_le(b: Seq<u8>) -> int {
    b[0] + 256 * b[1] + 65536 * b[2] + 16777216 * b[3]
}

/// A length-prefixed field.
pub open spec fn field(bytes: Seq<u8>) -> Seq<u8> {
    le_bytes(bytes.len() as u32) + bytes
}

/// A length-prefixed text.
pub open spec fn text_field(text: Seq<char>) -> Seq<u8> {
    field(vstd::utf8::encode_utf8(text))
}

impl TargetView {
    /// The binary form.
    pub open spec fn encoded(self) -> Seq<u8> {
        match self {
            TargetView::Column { table, column } => seq![1u8] + text_field(table) + text_field(
                column,
            ),
            TargetView::MapElement { table, column, map_key } => seq![2u8] + text_field(table)
                + text_field(column) + field(map_key),
        }
    }

    /// Every field's length fits its prefix.
    pub open spec fn encodable(self) -> bool {
        match self {
            TargetView::Column { table, column } => text_fits(table) && text_fits(column),
            TargetView::MapElement { table, column, map_key } => text_fits(table) && text_fits(
                column,
            ) && map_key.len() <= u32::MAX,
        }
    }
}

/// A text whose UTF-8 length fits a length prefix.
pub open spec fn text_fits(text: Seq<char>) -> bool {
    vstd::utf8::encode_utf8(text).len() <= u32::MAX
}

/// The field at a position and the position behind it.
pub open spec fn field_at(data: Seq<u8>, pos: int) -> Option<(Seq<u8>, int)> {
    if pos + 4 > data.len() {
        None
    } else {
        let len = from_le(data.subrange(pos, pos + 4));
        if pos + 4 + len > data.len() {
            None
        } else {
            Some((data.subrange(pos + 4, pos + 4 + len), pos + 4 + len))
        }
    }
}

/// The text at a position and the position behind it.
pub open spec fn text_at(data: Seq<u8>, pos: int) -> Option<(Seq<char>, int)> {
    match field_at(data, pos) {
        Some((bytes, next)) => if vstd::utf8::valid_utf8(bytes) {
            Some((vstd::utf8::decode_utf8(bytes), next))
        } else {
            None
        },
        None => None,
    }
}

/// The deletion that a binary form denotes; bytes behind it are ignored.
pub open spec fn decoded(data: Seq<u8>) -> Option<TargetView> {
    if data.len() == 0 {
        None
    } else if data[0] != 1 && data[0] != 2 {
        None
    } else {
        match text_at(data, 1) {
            Some((table, p1)) => match text_at(data, p1) {
                Some((column, p2)) => if data[0] == 1 {
                    Some(TargetView::Column { table, column })
                } else {
                    match field_at(data, p2) {
                        Some((map_key, p3)) => Some(
                            TargetView::MapElement { table, column, map_key },
                        ),
                        None => None,
                    }
                },
                None => None,
            },
            None => None,
        }
    }
}

/// A number survives its little-endian form.
pub proof fn lemma_le_roundtrip(n: u32)
    ensures
        from_le(le_bytes(n)) == n,
{
    assert(n % 256 + 256 * (n / 256 % 256) + 65536 * (n / 65536 % 256) + 16777216 * (n / 16777216)
        == n);
    assert(n / 16777216 < 256);
}

/// A field written at a position is read back there.
proof fn lemma_field_roundtrip(prefix: Seq<u8>, bytes: Seq<u8>, rest: Seq<u8>)
    requires
        bytes.len() <= u32::MAX,
    ensures
        field_at(prefix + field(bytes) + rest, prefix.len() as int) == Some(
            (bytes, (prefix.len() + 4 + bytes.len()) as int),
        ),
{
    let data = prefix + field(bytes) + rest;
    let pos = prefix.len() as int;
    lemma_le_roundtrip(bytes.len() as u32);
    assert(data.subrange(pos, pos + 4) =~= le_bytes(bytes.len() as u32));
    assert(data.subrange(pos + 4, pos + 4 + bytes.len()) =~= bytes);
}

/// A text written at a position is read back there.
proof fn lemma_text_roundtrip(prefix: Seq<u8>, text: Seq<char>, rest: Seq<u8>)
    requires
        text_fits(text),
    ensures
        text_at(prefix + text_field(text) + rest, prefix.len() as int) == Some(
            (text, (prefix.len() + text_field(text).len()) as int),
        ),
{
    lemma_field_roundtrip(prefix, vstd::utf8::encode_utf8(text), rest);
    vstd::utf8::encode_utf8_valid_utf8(text);
    vstd::utf8::encode_utf8_decode_utf8(text);
}

/// What is written is read back, whatever follows it.
pub proof fn targets_roundtrip(target: TargetView, rest: Seq<u8>)
    requires
        target.encodable(),
    ensures
        decoded(target.encoded() + rest) == Some(target),
{
    let data = target.encoded() + rest;
    match target {
        TargetView::Column { table, column } => {
            let tag = seq![1u8];
            let tf = text_field(table);
            let cf = text_field(column);
            lemma_two_texts_roundtrip(tag, table, column, rest);
            assert(data =~= tag + tf + cf + rest);
            assert(data[0] == 1);
        },
        TargetView::MapElement { table, column, map_key } => {
            let tag = seq![2u8];
            let tf = text_field(table);
            let cf = text_field(column);
            let kf = field(map_key);
            lemma_two_texts_roundtrip(tag, table, column, kf + rest);
            assert(data =~= tag + tf + cf + (kf + rest));
            assert(data[0] == 2);
            lemma_field_roundtrip(tag + tf + cf, map_key, rest);
            assert(data =~= (tag + tf + cf) + kf + rest);
        },
    }
}

/// Two texts written one after the other behind a tag are read back.
proof fn lemma_two_texts_roundtrip(tag: Seq<u8>, a: Seq<char>, b: Seq<char>, rest: Seq<u8>)
    requires
        tag.len() == 1,
        text_fits(a),
        text_fits(b),
    ensures
        text_at(tag + text_field(a) + text_field(b) + rest, 1) == Some(
            (a, (1 + text_field(a).len()) as int),
        ),
        text_at(
            tag + text_field(a) + text_field(b) + rest,
            (1 + text_field(a).len()) as int,
        ) == Some((b, (1 + text_field(a).len() + text_field(b).len()) as int)),
{
    let fa = text_field(a);
    let fb = text_field(b);
    let data = tag + fa + fb + rest;
    lemma_text_roundtrip(tag, a, fb + rest);
    assert(data =~= tag + fa + (fb + rest));
    lemma_text_roundtrip(tag + fa, b, rest);
    assert(data =~= (tag + fa) + fb + rest);
}

/// `String::from_utf8`: the text of the bytes where they are valid UTF-8, and
/// an error otherwise.
#[verifier::external_body]
fn text_from_utf8(bytes: Vec<u8>) -> (r: Option<String>)
    ensures
        match r {
            Some(s) => vstd::utf8::valid_utf8(bytes@) && s@ == vstd::utf8::decode_utf8(bytes@),
            None => !vstd::utf8::valid_utf8(bytes@),
        },
{
    String::from_utf8(bytes).ok()
}

fn push_field(buf: &mut Vec<u8>, bytes: &[u8])
    ensures
        final(buf)@ == old(buf)@ + field(bytes@),
{
    let n: u32 = #[verifier::truncate]
    (bytes.len() as u32);
    buf.push((n % 256) as u8);
    buf.push((n / 256 % 256) as u8);
    buf.push((n / 65536 % 256) as u8);
    buf.push((n / 16777216) as u8);
    assert(buf@ =~= old(buf)@ + le_bytes(n));
    push_bytes(buf, bytes);
    assert(buf@ =~= old(buf)@ + field(bytes@));
}

/// The field at a position and the position behind it.
fn read_bytes(data: &[u8], pos: usize) -> (r: Option<(Vec<u8>, usize)>)
    requires
        pos <= data@.len(),
    ensures
        match r {
            Some((bytes, next)) => field_at(data@, pos as int) == Some((bytes@, next as int)) && next
                <= data@.len(),
            None => field_at(data@, pos as int) is None,
        },
{
    if data.len() - pos < 4 {
        return None;
    }
    let len: u32 = data[pos] as u32 + 256 * data[pos + 1] as u32 + 65536 * data[pos + 2] as u32
        + 16777216 * data[pos + 3] as u32;
    let start: usize = pos + 4;
    proof {
        let b = data@.subrange(pos as int, pos + 4);
        assert(b[0] == data@[pos as int] && b[1] == data@[pos + 1] && b[2] == data@[pos + 2]
            && b[3] == data@[pos + 3]);
        assert(len == from_le(b));
    }
    if data.len() - start < len as usize {
        return None;
    }
    let end: usize = start + len as usize;
    let bytes = copy_bytes(vstd::slice::slice_subrange(data, start, end));
    Some((bytes, end))
}

/// The text at a position and the position behind it.
fn read_text(data: &[u8], pos: usize) -> (r: Option<(String, usize)>)
    requires
        pos <= data@.len(),
    ensures
        match r {
            Some((text, next)) => text_at(data@, pos as int) == Some((text@, next as int)) && next
                <= data@.len(),
            None => text_at(data@, pos as int) is None,
        },
{
    match read_bytes(data, pos) {
        Some((bytes, next)) => match text_from_utf8(bytes) {
            Some(text) => Some((text, next)),
            None => None,
        },
        None => None,
    }
}

impl DeleteTarget {
    /// The binary form.
    pub fn serialize(&self) -> (buf: Vec<u8>)
        ensures
            buf@ == self@.encoded(),
    {
        let mut buf: Vec<u8> = Vec::new();
        match self {
            DeleteTarget::Column { table, column } => {
                buf.push(1);
                push_field(&mut buf, table.as_str().as_bytes());
                push_field(&mut buf, column.as_str().as_bytes());
            },
            DeleteTarget::MapElement { table, column, map_key } => {
                buf.push(2);
                push_field(&mut buf, table.as_str().as_bytes());
                push_field(&mut buf, column.as_str().as_bytes());
                push_field(&mut buf, map_key.as_slice());
            },
        }
        assert(buf@ =~= self@.encoded());
        buf
    }

    /// The deletion that a binary form denotes.
    pub fn deserialize(data: &[u8]) -> (r: Option<DeleteTarget>)
        ensures
            match r {
                Some(target) => decoded(data@) == Some(target@),
                None => decoded(data@) is None,
            },
    {
        if data.len() == 0 {
            return None;
        }
        let tag: u8 = data[0];
        if tag != 1 && tag != 2 {
            return None;
        }
        let (table, p1) = match read_text(data, 1) {
            Some(x) => x,
            None => {
                return None;
            },
        };
        let (column, p2) = match read_text(data, p1) {
            Some(x) => x,
            None => {
                return None;
            },
        };
        if tag == 1 {
            return Some(DeleteTarget::Column { table, column });
        }
        match read_bytes(data, p2) {
            Some((map_key, _)) => Some(DeleteTarget::MapElement { table, column, map_key }),
            None => None,
        }
    }
}

/// The binary form of a deletion is a tag, one for a column and two for an element of a map,
/// and behind it the table, the column and, of an element, its key, each as its bytes with
/// their number before them.
pub proof fn forms_have_tagged_fields(table: Seq<char>, column: Seq<char>, key: Seq<u8>)
    ensures
        ({
            let t = vstd::utf8::encode_utf8(table);
            let c = vstd::utf8::encode_utf8(column);
            &&& TargetView::Column { table, column }.encoded() == seq![1u8] + le_bytes(
                t.len() as u32,
            ) + t + le_bytes(c.len() as u32) + c
            &&& TargetView::MapElement { table, column, map_key: key }.encoded() == seq![2u8]
                + le_bytes(t.len() as u32) + t + le_bytes(c.len() as u32) + c + le_bytes(
                key.len() as u32,
            ) + key
        }),
{
    let t = vstd::utf8::encode_utf8(table);
    let c = vstd::utf8::encode_utf8(column);
    assert(TargetView::Column { table, column }.encoded() =~= seq![1u8] + le_bytes(t.len() as u32)
        + t + le_bytes(c.len() as u32) + c);
    assert(TargetView::MapElement { table, column, map_key: key }.encoded() =~= seq![2u8] + le_bytes(
        t.len() as u32,
    ) + t + le_bytes(c.len() as u32) + c + le_bytes(key.len() as u32) + key);
}

/// A number takes four bytes, the lowest first.
pub proof fn numbers_begin_with_their_lowest_byte(n: u32)
    ensures
        le_bytes(n).len() == 4,
        le_bytes(n)[0] == n % 256,
        le_bytes(n)[0] + 256 * le_bytes(n)[1] + 65536 * le_bytes(n)[2] + 16777216 * le_bytes(n)[3]
            == n,
{
    lemma_le_roundtrip(n);
}

proof fn lemma_field_read(data: Seq<u8>, pos: int)
    requires
        0 <= pos,
        field_at(data, pos) is Some,
    ensures
        ({
            let (bytes, next) = field_at(data, pos)->0;
            &&& pos <= next <= data.len()
            &&& bytes.len() <= u32::MAX
            &&& data.subrange(pos, next) == field(bytes)
        }),
{
    let b = data.subrange(pos, pos + 4);
    let (bytes, next) = field_at(data, pos)->0;
    let n = from_le(b);
    assert(0 <= n <= u32::MAX);
    assert(bytes.len() == n);
    let m = n as u32;
    assert(m % 256 == b[0] && m / 256 % 256 == b[1] && m / 65536 % 256 == b[2] && m / 16777216
        == b[3]);
    assert(le_bytes(m) =~= b);
    assert(data.subrange(pos, next) =~= b + bytes);
}

proof fn lemma_text_read(data: Seq<u8>, pos: int)
    requires
        0 <= pos,
        text_at(data, pos) is Some,
    ensures
        ({
            let (text, next) = text_at(data, pos)->0;
            &&& pos <= next <= data.len()
            &&& text_fits(text)
            &&& data.subrange(pos, next) == text_field(text)
        }),
{
    lemma_field_read(data, pos);
    let (bytes, next) = field_at(data, pos)->0;
    vstd::utf8::decode_utf8_encode_utf8(bytes);
}

/// Bytes denote a deletion only where they begin with its binary form: a form that is cut
/// short, has another tag or a text that is no text denotes nothing.
pub proof fn only_forms_are_read(data: Seq<u8>)
    ensures
        decoded(data) matches Some(target) ==> target.encodable() && target.encoded().is_prefix_of(
            data,
        ),
        data.len() == 0 ==> decoded(data) is None,
        data.len() > 0 && data[0] != 1 && data[0] != 2 ==> decoded(data) is None,
{
    if decoded(data) is Some {
        lemma_text_read(data, 1);
        let (table, p1) = text_at(data, 1)->0;
        lemma_text_read(data, p1);
        let (column, p2) = text_at(data, p1)->0;
        let head = data.subrange(0, p2);
        assert(head =~= data.subrange(0, 1) + data.subrange(1, p1) + data.subrange(p1, p2));
        assert(data.subrange(0, 1) =~= seq![data[0]]);
        if data[0] == 1 {
            let e = decoded(data)->0.encoded();
            assert(e =~= head);
            assert(e =~= data.subrange(0, e.len() as int));
        } else {
            lemma_field_read(data, p2);
            let (key, p3) = field_at(data, p2)->0;
            let e = decoded(data)->0.encoded();
            assert(data.subrange(0, p3) =~= head + data.subrange(p2, p3));
            assert(e =~= data.subrange(0, p3));
            assert(e =~= data.subrange(0, e.len() as int));
        }
    }
}

/// A deletion is modelled by its kind and its parts, each in its own place.
pub proof fn models_say_what_is_deleted(d: DeleteTarget)
    ensures
        d matches DeleteTarget::Column { table, column } ==> d@ == (TargetView::Column {
            table: table@,
            column: column@,
        }),
        d matches DeleteTarget::MapElement { table, column, map_key } ==> d@ == (
        TargetView::MapElement { table: table@, column: column@, map_key: map_key@ }),
{
}

} // verus!
