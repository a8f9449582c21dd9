//! The wire format of the configuration data.
//!
//! The entries are written one after the other, each as its key and then its
//! value. A field is a length in four little-endian bytes, the bytes of the
//! text in UTF-8, and zero bytes up to the next multiple of four. The number
//! of entries is not part of the data: the reader is told it.

use vstd::prelude::*;
use vstd::slice::{slice_subrange, slice_to_vec};
use vstd::string::*;
use vstd::utf8::*;
use crate::error::{ConfigError, FormatError, InputError};
use crate::text::is_prefix;

verus! {

/// The entries as the contracts speak of them: pairs of character sequences.
pub open spec fn entries_view(entries: Seq<(String, String)>) -> Seq<(Seq<char>, Seq<char>)> {
    entries.map_values(|e: (String, String)| (e.0@, e.1@))
}

/// The four bytes of `x`, lowest first.
pub open spec fn le_bytes(x: u32) -> Seq<u8> {
    seq![
        (x as int % 256) as u8,
        (x as int / 256 % 256) as u8,
        (x as int / 65536 % 256) as u8,
        (x as int / 16777216) as u8,
    ]
}

/// The number that four bytes, lowest first, stand for.
pub open spec fn le_value(bytes: Seq<u8>) -> int
    recommends
        bytes.len() == 4,
{
    bytes[0] as int + 256 * bytes[1] as int + 65536 * bytes[2] as int + 16777216 * bytes[3] as int
}

/// The number of zero bytes that follow `len` bytes of text.
pub open spec fn padding(len: int) -> int {
    (4 - len % 4) % 4
}

/// `len` zero bytes.
pub open spec fn zeros(len: int) -> Seq<u8> {
    Seq::new(len as nat, |i: int| 0u8)
}

/// The number of bytes a field with `len` bytes of text takes.
pub open spec fn field_size(len: int) -> int {
    4 + len + padding(len)
}

/// One field: length, bytes, padding.
#[verifier::opaque]
pub open spec fn encode_field(data: Seq<u8>) -> Seq<u8> {
    le_bytes(data.len() as u32) + data + zeros(padding(data.len() as int))
}

/// One entry: the key's field, then the value's.
pub open spec fn encode_entry(entry: (Seq<char>, Seq<char>)) -> Seq<u8> {
    encode_field(encode_utf8(entry.0)) + encode_field(encode_utf8(entry.1))
}

/// All entries, in their order.
pub open spec fn encode_entries(entries: Seq<(Seq<char>, Seq<char>)>) -> Seq<u8>
    decreases entries.len(),
{
    if entries.len() == 0 {
        Seq::empty()
    } else {
        encode_entry(entries[0]) + encode_entries(entries.drop_first())
    }
}

/// Whether the length of the text fits the length prefix.
pub open spec fn text_fits(text: Seq<char>) -> bool {
    encode_utf8(text).len() <= u32::MAX
}

/// Whether the key and the value of the entry fit their length prefixes.
pub open spec fn entry_fits(entry: (Seq<char>, Seq<char>)) -> bool {
    text_fits(entry.0) && text_fits(entry.1)
}

/// Whether every key and every value fits its length prefix.
pub open spec fn encodable(entries: Seq<(Seq<char>, Seq<char>)>) -> bool {
    forall|i: int| 0 <= i < entries.len() ==> entry_fits(#[trigger] entries[i])
}

/// What reading one field at `pos` gives: its bytes and the position after
/// its padding, or nothing where the field does not lie within `bytes`.
pub open spec fn decode_field(bytes: Seq<u8>, pos: int) -> Option<(Seq<u8>, int)> {
    if pos < 0 || pos + 4 > bytes.len() {
        None
    } else {
        let len = le_value(bytes.subrange(pos, pos + 4));
        if pos + field_size(len) > bytes.len() {
            None
        } else {
            Some((bytes.subrange(pos + 4, pos + 4 + len), pos + field_size(len)))
        }
    }
}

/// What reading one text at `pos` gives: the text and the position after it.
pub open spec fn decode_text(bytes: Seq<u8>, pos: int) -> Result<(Seq<char>, int), FormatError> {
    match decode_field(bytes, pos) {
        None => Err(FormatError::TruncatedBlob { offset: pos as usize }),
        Some((data, next)) => if valid_utf8(data) {
            Ok((decode_utf8(data), next))
        } else {
            Err(FormatError::InvalidText { offset: pos as usize })
        },
    }
}

/// What reading `count` entries from `pos` on gives: the entries, or the
/// failure of the first field that cannot be read.
pub open spec fn decode_entries(bytes: Seq<u8>, pos: int, count: nat) -> Result<
    Seq<(Seq<char>, Seq<char>)>,
    FormatError,
>
    decreases count,
{
    if count == 0 {
        Ok(Seq::empty())
    } else {
        match decode_text(bytes, pos) {
            Err(e) => Err(e),
            Ok((key, after_key)) => match decode_text(bytes, after_key) {
                Err(e) => Err(e),
                Ok((value, after_value)) => match decode_entries(
                    bytes,
                    after_value,
                    (count - 1) as nat,
                ) {
                    Err(e) => Err(e),
                    Ok(rest) => Ok(seq![(key, value)] + rest),
                },
            },
        }
    }
}

/// Four bytes, lowest first, stand for the number they were made from.
pub proof fn lemma_le_round_trip(x: u32)
    ensures
        le_bytes(x).len() == 4,
        le_value(le_bytes(x)) == x,
{
}

/// A field is as long as `field_size` says, and that is a multiple of four.
pub proof fn lemma_field_size(data: Seq<u8>)
    ensures
        encode_field(data).len() == field_size(data.len() as int),
        field_size(data.len() as int) % 4 == 0,
        0 <= padding(data.len() as int) < 4,
{
    reveal(encode_field);
}

/// The length of the encoded entries is a multiple of four.
pub proof fn lemma_encoded_len_aligned(entries: Seq<(Seq<char>, Seq<char>)>)
    ensures
        encode_entries(entries).len() % 4 == 0,
    decreases entries.len(),
{
    if entries.len() > 0 {
        lemma_field_size(encode_utf8(entries[0].0));
        lemma_field_size(encode_utf8(entries[0].1));
        lemma_encoded_len_aligned(entries.drop_first());
    }
}

/// Appending an entry appends its bytes.
pub proof fn lemma_encode_push(entries: Seq<(Seq<char>, Seq<char>)>, entry: (Seq<char>, Seq<char>))
    ensures
        encode_entries(entries.push(entry)) == encode_entries(entries) + encode_entry(entry),
    decreases entries.len(),
{
    let pushed = entries.push(entry);
    if entries.len() == 0 {
        assert(pushed[0] == entry);
        assert(pushed.drop_first() =~= Seq::empty());
        assert(encode_entries(pushed.drop_first()) =~= Seq::empty());
        assert(encode_entries(pushed) =~= encode_entry(entry));
        assert(encode_entries(entries) + encode_entry(entry) =~= encode_entry(entry));
    } else {
        assert(entries.push(entry).drop_first() =~= entries.drop_first().push(entry));
        lemma_encode_push(entries.drop_first(), entry);
        assert(encode_entries(entries.push(entry)) =~= encode_entries(entries) + encode_entry(
            entry,
        ));
    }
}

/// After each entry the length of the data so far is a multiple of four,
/// whatever the lengths of its key and value are: the data of the first
/// `written` entries is how the data of all entries begins, and its length
/// is a multiple of four.
pub proof fn lemma_padding(entries: Seq<(Seq<char>, Seq<char>)>, written: int)
    requires
        0 <= written <= entries.len(),
    ensures
        is_prefix(encode_entries(entries.take(written)), encode_entries(entries)),
        encode_entries(entries.take(written)).len() % 4 == 0,
{
    let head = entries.take(written);
    let rest = entries.skip(written);
    lemma_encoded_len_aligned(head);
    lemma_encode_concat(head, rest);
    assert(head + rest =~= entries);
    assert((encode_entries(head) + encode_entries(rest)).subrange(
        0,
        encode_entries(head).len() as int,
    ) =~= encode_entries(head));
}

/// The data of entries that follow one another is their data, one after
/// the other.
pub proof fn lemma_encode_concat(
    head: Seq<(Seq<char>, Seq<char>)>,
    rest: Seq<(Seq<char>, Seq<char>)>,
)
    ensures
        encode_entries(head + rest) == encode_entries(head) + encode_entries(rest),
    decreases rest.len(),
{
    if rest.len() == 0 {
        assert(head + rest =~= head);
        assert(encode_entries(head) + encode_entries(rest) =~= encode_entries(head));
    } else {
        let front = rest.drop_last();
        lemma_encode_concat(head, front);
        lemma_encode_push(head + front, rest.last());
        lemma_encode_push(front, rest.last());
        assert((head + front).push(rest.last()) =~= head + rest);
        assert(front.push(rest.last()) =~= rest);
        assert(encode_entries(head) + (encode_entries(front) + encode_entry(rest.last()))
            =~= (encode_entries(head) + encode_entries(front)) + encode_entry(rest.last()));
    }
}

/// A field that lies at `pos` is read back as it was written.
pub proof fn lemma_decode_field_at(bytes: Seq<u8>, pos: int, data: Seq<u8>)
    requires
        data.len() <= u32::MAX,
        0 <= pos,
        pos + field_size(data.len() as int) <= bytes.len(),
        bytes.subrange(pos, pos + field_size(data.len() as int)) == encode_field(data),
    ensures
        decode_field(bytes, pos) == Some((data, pos + field_size(data.len() as int))),
{
    reveal(encode_field);
    let len = data.len() as int;
    let field = bytes.subrange(pos, pos + field_size(len));
    lemma_le_round_trip(len as u32);
    assert(bytes.subrange(pos, pos + 4) =~= field.subrange(0, 4));
    assert(field.subrange(0, 4) =~= le_bytes(len as u32));
    assert(bytes.subrange(pos + 4, pos + 4 + len) =~= field.subrange(4, 4 + len));
    assert(field.subrange(4, 4 + len) =~= data);
}

/// A text whose field lies at `pos` is read back as it was written.
pub proof fn lemma_decode_text_at(bytes: Seq<u8>, pos: int, text: Seq<char>)
    requires
        text_fits(text),
        0 <= pos,
        pos + field_size(encode_utf8(text).len() as int) <= bytes.len(),
        bytes.subrange(pos, pos + field_size(encode_utf8(text).len() as int)) == encode_field(
            encode_utf8(text),
        ),
    ensures
        decode_text(bytes, pos) == Ok::<(Seq<char>, int), FormatError>(
            (text, pos + field_size(encode_utf8(text).len() as int)),
        ),
{
    lemma_decode_field_at(bytes, pos, encode_utf8(text));
    encode_utf8_valid_utf8(text);
    encode_utf8_decode_utf8(text);
}

/// Entries whose encoding lies at `pos` are read back as they were written.
pub proof fn lemma_decode_at(bytes: Seq<u8>, pos: int, entries: Seq<(Seq<char>, Seq<char>)>)
    requires
        encodable(entries),
        0 <= pos,
        pos + encode_entries(entries).len() <= bytes.len(),
        bytes.subrange(pos, pos + encode_entries(entries).len()) == encode_entries(entries),
    ensures
        decode_entries(bytes, pos, entries.len()) == Ok::<Seq<(Seq<char>, Seq<char>)>, FormatError>(
            entries,
        ),
    decreases entries.len(),
{
    if entries.len() > 0 {
        let all = encode_entries(entries);
        let key = entries[0].0;
        let value = entries[0].1;
        let rest = entries.drop_first();
        let key_size = field_size(encode_utf8(key).len() as int);
        let value_size = field_size(encode_utf8(value).len() as int);
        assert(entry_fits(entries[0]));
        lemma_field_size(encode_utf8(key));
        lemma_field_size(encode_utf8(value));
        assert(all == encode_field(encode_utf8(key)) + encode_field(encode_utf8(value))
            + encode_entries(rest));
        assert(bytes.subrange(pos, pos + key_size) =~= all.subrange(0, key_size));
        assert(all.subrange(0, key_size) =~= encode_field(encode_utf8(key)));
        lemma_decode_text_at(bytes, pos, key);
        let mid = pos + key_size;
        assert(bytes.subrange(mid, mid + value_size) =~= all.subrange(
            key_size,
            key_size + value_size,
        ));
        assert(all.subrange(key_size, key_size + value_size) =~= encode_field(encode_utf8(value)));
        lemma_decode_text_at(bytes, mid, value);
        let next = mid + value_size;
        assert forall|i: int| 0 <= i < rest.len() implies entry_fits(#[trigger] rest[i]) by {
            assert(rest[i] == entries[i + 1]);
        }
        assert(bytes.subrange(next, next + encode_entries(rest).len()) =~= all.subrange(
            key_size + value_size,
            all.len() as int,
        ));
        assert(all.subrange(key_size + value_size, all.len() as int) =~= encode_entries(rest));
        lemma_decode_at(bytes, next, rest);
        assert(seq![(key, value)] + rest =~= entries);
    } else {
        assert(entries =~= Seq::empty());
    }
}

/// Reading as many entries as were written gives back those entries, in
/// their order and with their duplicates, whatever bytes follow them.
pub proof fn lemma_round_trip(entries: Seq<(Seq<char>, Seq<char>)>, trailing: Seq<u8>)
    requires
        encodable(entries),
    ensures
        decode_entries(encode_entries(entries) + trailing, 0, entries.len()) == Ok::<
            Seq<(Seq<char>, Seq<char>)>,
            FormatError,
        >(entries),
{
    let bytes = encode_entries(entries) + trailing;
    assert(bytes.subrange(0, encode_entries(entries).len() as int) =~= encode_entries(entries));
    lemma_decode_at(bytes, 0, entries);
}

/// The entries `head`, followed by what reading gave, where it gave any.
pub open spec fn prepend(
    head: Seq<(Seq<char>, Seq<char>)>,
    tail: Result<Seq<(Seq<char>, Seq<char>)>, FormatError>,
) -> Result<Seq<(Seq<char>, Seq<char>)>, FormatError> {
    match tail {
        Ok(rest) => Ok(head + rest),
        Err(e) => Err(e),
    }
}

/// `String::from_utf8`: the text whose UTF-8 bytes are `bytes`, and nothing
/// where `bytes` is not UTF-8.
#[verifier::external_body]
fn text_from_utf8(bytes: Vec<u8>) -> (text: Option<String>)
    ensures
        text is Some <==> valid_utf8(bytes@),
        text matches Some(t) ==> encode_utf8(t@) == bytes@,
{
    match String::from_utf8(bytes) {
        Ok(text) => Some(text),
        Err(_) => None,
    }
}

/// Appends the four bytes of `x`, lowest first.
pub fn put_u32(out: &mut Vec<u8>, x: u32)
    ensures
        final(out)@ == old(out)@ + le_bytes(x),
{
    out.push((x % 256) as u8);
    out.push((x / 256 % 256) as u8);
    out.push((x / 65536 % 256) as u8);
    out.push((x / 16777216) as u8);
    assert(out@ =~= old(out)@ + le_bytes(x));
}

/// Reads the number that the four bytes at `pos` stand for, lowest first.
pub fn get_u32(bytes: &[u8], pos: usize) -> (x: u32)
    requires
        pos + 4 <= bytes@.len(),
    ensures
        x == le_value(bytes@.subrange(pos as int, pos + 4)),
{
    let b0: u32 = bytes[pos] as u32;
    let b1: u32 = bytes[pos + 1] as u32;
    let b2: u32 = bytes[pos + 2] as u32;
    let b3: u32 = bytes[pos + 3] as u32;
    b0 + 256 * b1 + 65536 * b2 + 16777216 * b3
}

/// Appends one field that holds `text`: its length, its bytes, its padding.
pub fn write_data_str(out: &mut Vec<u8>, text: &str)
    requires
        text_fits(text@),
    ensures
        final(out)@ == old(out)@ + encode_field(encode_utf8(text@)),
        final(out)@.len() == old(out)@.len() + field_size(encode_utf8(text@).len() as int),
{
    let data = text.as_bytes();
    let len: usize = data.len();
    put_u32(out, len as u32);
    out.extend_from_slice(data);
    let rem: usize = len % 4;
    let mut written: usize = 0;
    let pad: usize = (4 - rem) % 4;
    while written < pad
        invariant
            written <= pad,
            pad == padding(len as int),
            out@ == old(out)@ + le_bytes(len as u32) + data@ + zeros(written as int),
        decreases pad - written,
    {
        out.push(0u8);
        written = written + 1;
        assert(out@ =~= old(out)@ + le_bytes(len as u32) + data@ + zeros(written as int));
    }
    proof {
        reveal(encode_field);
        assert(out@ =~= old(out)@ + encode_field(data@));
    }
}

/// Writes the entries in the wire format.
///
/// Fails where a key or a value is longer than a length prefix can say, and
/// names the first entry that holds one.
pub fn encode(entries: &Vec<(String, String)>) -> (blob: Result<Vec<u8>, ConfigError>)
    ensures
        match blob {
            Ok(bytes) => {
                &&& encodable(entries_view(entries@))
                &&& bytes@ == encode_entries(entries_view(entries@))
                &&& bytes@.len() % 4 == 0
            },
            Err(e) => {
                &&& e matches ConfigError::Input(InputError::FieldTooLong { entry })
                &&& entry < entries.len()
                &&& !entry_fits(entries_view(entries@)[entry as int])
                &&& forall|j: int| 0 <= j < entry ==> entry_fits(#[trigger] entries_view(entries@)[j])
            },
        },
{
    let ghost view = entries_view(entries@);
    let mut out: Vec<u8> = Vec::new();
    let mut i: usize = 0;
    assert(view.take(0) =~= Seq::empty());
    while i < entries.len()
        invariant
            i <= entries.len(),
            view == entries_view(entries@),
            out@ == encode_entries(view.take(i as int)),
            forall|j: int| 0 <= j < i ==> entry_fits(#[trigger] view[j]),
        decreases entries.len() - i,
    {
        let key = entries[i].0.as_str();
        let value = entries[i].1.as_str();
        if key.as_bytes().len() > u32::MAX as usize || value.as_bytes().len() > u32::MAX as usize {
            return Err(ConfigError::Input(InputError::FieldTooLong { entry: i }));
        }
        write_data_str(&mut out, key);
        write_data_str(&mut out, value);
        proof {
            lemma_encode_push(view.take(i as int), view[i as int]);
            assert(view.take(i as int).push(view[i as int]) =~= view.take(i + 1));
            assert(out@ =~= encode_entries(view.take(i as int)) + encode_entry(view[i as int]));
        }
        i = i + 1;
    }
    assert(view.take(i as int) =~= view);
    proof {
        lemma_encoded_len_aligned(view);
    }
    Ok(out)
}

/// Reads the field at `*offset` as text and moves `*offset` past its padding.
///
/// Fails, and leaves `*offset` where it was, where the field does not lie
/// within `data` or does not hold UTF-8.
pub fn read_data_str(data: &[u8], offset: &mut usize) -> (text: Result<String, ConfigError>)
    ensures
        match decode_text(data@, *old(offset) as int) {
            Ok((t, next)) => text matches Ok(s) && s@ == t && *final(offset) == next,
            Err(e) => text matches Err(f) && f == ConfigError::Format(e) && *final(offset) == *old(
                offset,
            ),
        },
{
    let start: usize = *offset;
    let total: usize = data.len();
    if start > total || total - start < 4 {
        return Err(ConfigError::Format(FormatError::TruncatedBlob { offset: start }));
    }
    let len: usize = get_u32(data, start) as usize;
    let pad: usize = (4 - len % 4) % 4;
    let room: usize = total - start - 4;
    if len > room || room - len < pad {
        return Err(ConfigError::Format(FormatError::TruncatedBlob { offset: start }));
    }
    let body: usize = start + 4;
    let raw = slice_to_vec(slice_subrange(data, body, body + len));
    match text_from_utf8(raw) {
        None => Err(ConfigError::Format(FormatError::InvalidText { offset: start })),
        Some(text) => {
            proof {
                encode_utf8_decode_utf8(text@);
            }
            *offset = body + len + pad;
            Ok(text)
        },
    }
}

/// Reads `count` entries from the start of `bytes`; what follows them is not
/// looked at.
///
/// Fails with the failure of the first field that does not lie within
/// `bytes` or does not hold UTF-8.
pub fn decode(bytes: &[u8], count: u32) -> (entries: Result<Vec<(String, String)>, ConfigError>)
    ensures
        match decode_entries(bytes@, 0, count as nat) {
            Ok(es) => entries matches Ok(v) && entries_view(v@) == es,
            Err(e) => entries matches Err(f) && f == ConfigError::Format(e),
        },
{
    let mut out: Vec<(String, String)> = Vec::new();
    let mut offset: usize = 0;
    let mut i: u32 = 0;
    assert(entries_view(out@) =~= Seq::empty());
    assert(prepend(Seq::empty(), decode_entries(bytes@, 0, count as nat)) == decode_entries(
        bytes@,
        0,
        count as nat,
    )) by {
        match decode_entries(bytes@, 0, count as nat) {
            Ok(es) => assert(Seq::<(Seq<char>, Seq<char>)>::empty() + es =~= es),
            Err(_) => {},
        }
    }
    while i < count
        invariant
            i <= count,
            decode_entries(bytes@, 0, count as nat) == prepend(
                entries_view(out@),
                decode_entries(bytes@, offset as int, (count - i) as nat),
            ),
        decreases count - i,
    {
        let ghost before = entries_view(out@);
        let ghost start = offset as int;
        let key = match read_data_str(bytes, &mut offset) {
            Ok(key) => key,
            Err(e) => { return Err(e); },
        };
        let ghost middle = offset as int;
        let value = match read_data_str(bytes, &mut offset) {
            Ok(value) => value,
            Err(e) => { return Err(e); },
        };
        let ghost pair = (key@, value@);
        out.push((key, value));
        proof {
            let rest = decode_entries(bytes@, offset as int, (count - i - 1) as nat);
            assert(decode_entries(bytes@, start, (count - i) as nat) == prepend(seq![pair], rest));
            assert(entries_view(out@) =~= before.push(pair));
            match rest {
                Ok(r) => assert(before + (seq![pair] + r) =~= before.push(pair) + r),
                Err(_) => {},
            }
        }
        i = i + 1;
    }
    proof {
        assert(entries_view(out@) + Seq::empty() =~= entries_view(out@));
    }
    Ok(out)
}

} // verus!
