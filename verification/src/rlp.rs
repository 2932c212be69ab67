//! Recursive length prefix (RLP) items: byte strings, numbers and the frame of a list.
//!
//! Every item starts with a header that says whether a string or a list follows and how many bytes
//! of payload it has. A single byte below `0x80` is its own item. Only the shortest header of each
//! item is accepted, so an item has one encoding.
use crate::num;
use crate::num::{read_be, write_be, U256};
use vstd::prelude::*;

verus! {

/// Why bytes are not the item that was asked for.
#[derive(Clone, Copy, Debug, PartialEq, Eq)]
pub enum RlpError {
    /// The number has more bytes than its type.
    Overflow,
    /// A number or a length starts with a zero byte.
    LeadingZero,
    /// The item ends before its payload does.
    InputTooShort,
    /// A single byte below `0x80` carries a header.
    NonCanonicalSingleByte,
    /// A payload of fewer than 56 bytes has the long form of the header.
    NonCanonicalSize,
    /// The string has another length than its type.
    UnexpectedLength,
    /// A string stands where a list was expected.
    UnexpectedString,
    /// A list stands where a string was expected.
    UnexpectedList,
    /// The fields of a list do not fill it, or reach beyond it.
    ListLengthMismatch { expected: usize, got: usize },
    /// Anything else, in words.
    Custom(&'static str),
}

/// What the first bytes of an item say.
#[derive(Clone, Copy, Debug, PartialEq, Eq)]
pub struct ItemHeader {
    /// Whether the item is a list.
    pub list: bool,
    /// How many bytes the header has.
    pub header_len: usize,
    /// How many bytes of payload follow it.
    pub payload_len: usize,
}

/// The header of an item with `len` bytes of payload.
pub open spec fn item_header(list: bool, len: nat) -> Seq<u8> {
    let short: int = if list {
        0xc0
    } else {
        0x80
    };
    if len < 56 {
        seq![(short + len) as u8]
    } else {
        seq![(short + 55 + num::be_bytes(len).len()) as u8] + num::be_bytes(len)
    }
}

/// A byte string as an item.
pub open spec fn string_item(payload: Seq<u8>) -> Seq<u8> {
    if payload.len() == 1 && payload[0] < 0x80 {
        payload
    } else {
        item_header(false, payload.len()) + payload
    }
}

/// A number as an item: the string of its shortest spelling.
pub open spec fn number_item(n: nat) -> Seq<u8> {
    string_item(num::be_bytes(n))
}

/// A list as an item, from the items in it.
pub open spec fn list_item(payload: Seq<u8>) -> Seq<u8> {
    item_header(true, payload.len()) + payload
}

/// A header of `header_len` bytes, accepted if the payload is all there.
pub open spec fn fitting(s: Seq<u8>, list: bool, header_len: nat, payload_len: nat) -> Result<
    ItemHeader,
    RlpError,
> {
    if s.len() < header_len + payload_len {
        Err(RlpError::InputTooShort)
    } else {
        Ok(
            ItemHeader {
                list,
                header_len: header_len as usize,
                payload_len: payload_len as usize,
            },
        )
    }
}

/// A header in the long form, whose length takes `width` bytes.
pub open spec fn long_header(s: Seq<u8>, list: bool, width: nat) -> Result<ItemHeader, RlpError> {
    if s.len() < 1 + width {
        Err(RlpError::InputTooShort)
    } else if s[1] == 0 {
        Err(RlpError::LeadingZero)
    } else {
        let len = num::be_value(s.subrange(1, 1 + width as int));
        if len > usize::MAX {
            Err(RlpError::Custom("Input too big"))
        } else if len < 56 {
            Err(RlpError::NonCanonicalSize)
        } else {
            fitting(s, list, 1 + width, len)
        }
    }
}

/// What stands at the front of `s`.
#[verifier::opaque]
pub open spec fn header_at(s: Seq<u8>) -> Result<ItemHeader, RlpError> {
    if s.len() == 0 {
        Err(RlpError::InputTooShort)
    } else if s[0] < 0x80 {
        Ok(ItemHeader { list: false, header_len: 0, payload_len: 1 })
    } else if s[0] == 0x81 && s.len() > 1 && s[1] < 0x80 {
        Err(RlpError::NonCanonicalSingleByte)
    } else if s[0] < 0xb8 {
        fitting(s, false, 1, (s[0] - 0x80) as nat)
    } else if s[0] < 0xc0 {
        long_header(s, false, (s[0] - 0xb7) as nat)
    } else if s[0] < 0xf8 {
        fitting(s, true, 1, (s[0] - 0xc0) as nat)
    } else {
        long_header(s, true, (s[0] - 0xf7) as nat)
    }
}

/// The payload of the string or list at the front of `s`, and how many bytes the item takes.
pub open spec fn payload_at(s: Seq<u8>, list: bool) -> Result<(Seq<u8>, nat), RlpError> {
    match header_at(s) {
        Err(e) => Err(e),
        Ok(h) => if h.list != list {
            Err(
                if list {
                    RlpError::UnexpectedString
                } else {
                    RlpError::UnexpectedList
                },
            )
        } else {
            let end = h.header_len + h.payload_len;
            Ok((s.subrange(h.header_len as int, end), end as nat))
        },
    }
}

/// What a field of a record holds.
#[derive(Clone, Copy, Debug, PartialEq, Eq)]
pub enum FieldKind {
    /// A string of exactly this many bytes.
    Fixed(usize),
    /// A number of at most 8 bytes.
    Word,
    /// A number of at most 32 bytes.
    Wide,
    /// Any string.
    Data,
}

/// What is wrong with a payload for a field of this kind, if anything.
pub open spec fn fault(kind: FieldKind, p: Seq<u8>) -> Option<RlpError> {
    let zero_first = p.len() > 0 && p[0] == 0;
    match kind {
        FieldKind::Fixed(width) => if p.len() != width {
            Some(RlpError::UnexpectedLength)
        } else {
            None
        },
        FieldKind::Word => if p.len() > 8 {
            Some(RlpError::Overflow)
        } else if zero_first {
            Some(RlpError::LeadingZero)
        } else {
            None
        },
        FieldKind::Wide => if zero_first {
            Some(RlpError::LeadingZero)
        } else if p.len() > 32 {
            Some(RlpError::Overflow)
        } else {
            None
        },
        FieldKind::Data => None,
    }
}

/// The payload of the field at the front of `s`, and how many bytes its item takes.
pub open spec fn field_at(s: Seq<u8>, kind: FieldKind) -> Result<(Seq<u8>, nat), RlpError> {
    match payload_at(s, false) {
        Err(e) => Err(e),
        Ok((p, n)) => match fault(kind, p) {
            Some(e) => Err(e),
            None => Ok((p, n)),
        },
    }
}

/// The payloads of the fields from number `i` on, and how many bytes their items take. The first
/// `must` fields have to be there; a later one is there while `room` bytes are left for it.
pub open spec fn fields_at(
    s: Seq<u8>,
    kinds: Seq<FieldKind>,
    i: nat,
    must: nat,
    room: int,
) -> Result<(Seq<Seq<u8>>, nat), RlpError>
    decreases kinds.len() - i,
{
    if i >= kinds.len() || (i >= must && room <= 0) {
        Ok((Seq::empty(), 0))
    } else {
        match field_at(s, kinds[i as int]) {
            Err(e) => Err(e),
            Ok((p, n)) => match fields_at(s.skip(n as int), kinds, i + 1, must, room - n) {
                Err(e) => Err(e),
                Ok((ps, m)) => Ok((seq![p] + ps, n + m)),
            },
        }
    }
}

/// The record at the front of `s`: the payloads of its fields, and how many bytes the list takes.
pub open spec fn record_at(s: Seq<u8>, kinds: Seq<FieldKind>, must: nat) -> Result<
    (Seq<Seq<u8>>, nat),
    RlpError,
> {
    match header_at(s) {
        Err(e) => Err(e),
        Ok(h) => if !h.list {
            Err(RlpError::UnexpectedString)
        } else {
            match fields_at(s.skip(h.header_len as int), kinds, 0, must, h.payload_len as int) {
                Err(e) => Err(e),
                Ok((ps, n)) => if n != h.payload_len {
                    Err(
                        RlpError::ListLengthMismatch {
                            expected: h.payload_len,
                            got: n as usize,
                        },
                    )
                } else {
                    Ok((ps, (h.header_len + n) as nat))
                },
            }
        },
    }
}

// ---- how far reading goes ----

/// How many bytes the header at the front of `s` takes, in a long form whose length takes `width`
/// bytes.
pub open spec fn long_header_taken(s: Seq<u8>, width: nat) -> nat {
    if s.len() < 1 + width {
        1
    } else {
        1 + width
    }
}

/// How many bytes reading the header at the front of `s` takes, whether it is accepted or refused: a
/// length that is not all there is left unread.
pub open spec fn header_taken(s: Seq<u8>) -> nat {
    if s.len() == 0 || s[0] < 0x80 {
        0
    } else if 0xb8 <= s[0] < 0xc0 {
        long_header_taken(s, (s[0] - 0xb7) as nat)
    } else if 0xf8 <= s[0] {
        long_header_taken(s, (s[0] - 0xf7) as nat)
    } else {
        1
    }
}

/// How many bytes reading the string or list at the front of `s` takes: the whole item, or the header
/// alone if it is refused.
pub open spec fn payload_taken(s: Seq<u8>, list: bool) -> nat {
    match payload_at(s, list) {
        Ok((_, n)) => n,
        Err(_) => header_taken(s),
    }
}

/// How many bytes reading the field at the front of `s` takes. A string is taken before it is looked
/// at. A short number is looked at first: nothing is taken of one in another spelling than its own.
pub open spec fn field_taken(s: Seq<u8>, kind: FieldKind) -> nat {
    match kind {
        FieldKind::Word => match payload_at(s, false) {
            Ok((p, n)) => if fault(kind, p) == Some(RlpError::LeadingZero) {
                0
            } else {
                n
            },
            Err(RlpError::NonCanonicalSingleByte) => 0,
            Err(_) => header_taken(s),
        },
        _ => payload_taken(s, false),
    }
}

/// How many bytes reading the fields from number `i` on takes, up to the first that is refused.
pub open spec fn fields_taken(
    s: Seq<u8>,
    kinds: Seq<FieldKind>,
    i: nat,
    must: nat,
    room: int,
) -> nat
    decreases kinds.len() - i,
{
    if i >= kinds.len() || (i >= must && room <= 0) {
        0
    } else {
        match field_at(s, kinds[i as int]) {
            Err(_) => field_taken(s, kinds[i as int]),
            Ok((_, n)) => n + fields_taken(s.skip(n as int), kinds, i + 1, must, room - n),
        }
    }
}

/// How many bytes reading the record at the front of `s` takes, up to the first field that is
/// refused.
pub open spec fn record_taken(s: Seq<u8>, kinds: Seq<FieldKind>, must: nat) -> nat {
    match header_at(s) {
        Err(_) => header_taken(s),
        Ok(h) => if !h.list {
            header_taken(s)
        } else {
            header_taken(s) + fields_taken(
                s.skip(h.header_len as int),
                kinds,
                0,
                must,
                h.payload_len as int,
            )
        },
    }
}

/// The items of the payloads from number `i` on, one behind the other.
pub open spec fn items_from(ps: Seq<Seq<u8>>, i: nat) -> Seq<u8>
    decreases ps.len() - i,
{
    if i >= ps.len() {
        Seq::empty()
    } else {
        string_item(ps[i as int]) + items_from(ps, i + 1)
    }
}

/// A record as an item, from the payloads of its fields.
pub open spec fn record_item(ps: Seq<Seq<u8>>) -> Seq<u8> {
    list_item(items_from(ps, 0))
}

/// Whether these payloads are those of a record: every field that has to be there, and none with a
/// fault.
pub open spec fn record_fields(ps: Seq<Seq<u8>>, kinds: Seq<FieldKind>, must: nat) -> bool {
    &&& must <= ps.len() <= kinds.len()
    &&& forall|i: int|
        0 <= i < ps.len() ==> #[trigger] fault(kinds[i], ps[i]) is None
}

// ---- laws ----

/// The length of a payload takes one to eight bytes in the long form.
proof fn lemma_length_width(len: nat)
    requires
        56 <= len <= usize::MAX,
    ensures
        1 <= num::be_bytes(len).len() <= 8,
        num::be_bytes(len)[0] != 0,
        num::be_value(num::be_bytes(len)) == len,
{
    num::lemma_word_ranges();
    num::lemma_bytes_len(len, 8);
    num::lemma_bytes_no_leading_zero(len);
    num::lemma_value_of_bytes(len);
}

/// A header in front of its payload is read back, whatever follows. The one exception is a single
/// byte below `0x80`, which is a string without a header.
pub proof fn law_header_read_back(list: bool, payload: Seq<u8>, rest: Seq<u8>)
    requires
        payload.len() <= usize::MAX,
        !list && payload.len() == 1 ==> payload[0] >= 0x80,
    ensures
        header_at(item_header(list, payload.len()) + payload + rest) == Ok::<ItemHeader, RlpError>(
            ItemHeader {
                list,
                header_len: item_header(list, payload.len()).len() as usize,
                payload_len: payload.len() as usize,
            },
        ),
        1 <= item_header(list, payload.len()).len() <= 9,
{
    reveal(header_at);
    let len = payload.len();
    let h = item_header(list, len);
    let s = h + payload + rest;
    assert(s[0] == h[0]);
    if len < 56 {
        if len == 1 {
            assert(s[1] == payload[0]);
        }
    } else {
        lemma_length_width(len);
        let width = num::be_bytes(len).len();
        assert(s[1] == num::be_bytes(len)[0]);
        assert(s.subrange(1, 1 + width as int) =~= num::be_bytes(len));
    }
}

/// The items that are read are those that are written: a header is accepted only in the form that
/// `item_header` gives it.
pub proof fn law_header_canonical(s: Seq<u8>)
    ensures
        header_at(s) matches Ok(h) ==> {
            &&& h.header_len + h.payload_len <= s.len()
            &&& h.header_len > 0 ==> s.take(h.header_len as int) == item_header(
                h.list,
                h.payload_len as nat,
            )
            &&& h.header_len == 0 ==> !h.list && h.payload_len == 1 && s[0] < 0x80
            &&& h.header_len > 0 && !h.list && h.payload_len == 1 ==> s[1] >= 0x80
        },
{
    reveal(header_at);
    if let Ok(h) = header_at(s) {
        if s[0] < 0x80 {
        } else if s[0] < 0xb8 || (0xc0 <= s[0] && s[0] < 0xf8) {
            assert(s.take(1) =~= item_header(h.list, h.payload_len as nat));
        } else {
            let width = (h.header_len - 1) as nat;
            let digits = s.subrange(1, 1 + width as int);
            assert(digits[0] == s[1]);
            num::lemma_bytes_of_value(digits);
            assert(s.take(1 + width as int) =~= item_header(h.list, h.payload_len as nat));
        }
    }
}

/// A string item is read back, whatever follows.
pub proof fn law_string_read_back(payload: Seq<u8>, rest: Seq<u8>)
    requires
        payload.len() <= usize::MAX - 9,
    ensures
        payload_at(string_item(payload) + rest, false) == Ok::<(Seq<u8>, nat), RlpError>(
            (payload, string_item(payload).len()),
        ),
{
    let s = string_item(payload) + rest;
    if payload.len() == 1 && payload[0] < 0x80 {
        reveal(header_at);
        assert(s[0] == payload[0]);
        assert(s.subrange(0, 1) =~= payload);
    } else {
        let h = item_header(false, payload.len());
        law_header_read_back(false, payload, rest);
        assert(s =~= h + payload + rest);
        assert(s.subrange(h.len() as int, (h.len() + payload.len()) as int) =~= payload);
    }
}

/// A list item is read back, whatever follows.
pub proof fn law_list_read_back(payload: Seq<u8>, rest: Seq<u8>)
    requires
        payload.len() <= usize::MAX - 9,
    ensures
        payload_at(list_item(payload) + rest, true) == Ok::<(Seq<u8>, nat), RlpError>(
            (payload, list_item(payload).len()),
        ),
{
    let h = item_header(true, payload.len());
    let s = list_item(payload) + rest;
    law_header_read_back(true, payload, rest);
    assert(s =~= h + payload + rest);
    assert(s.subrange(h.len() as int, (h.len() + payload.len()) as int) =~= payload);
}

/// A string is accepted only in its one encoding.
pub proof fn law_string_canonical(s: Seq<u8>)
    ensures
        payload_at(s, false) matches Ok((p, n)) ==> n <= s.len() && s.take(n as int)
            == string_item(p),
{
    law_header_canonical(s);
    if let Ok((p, n)) = payload_at(s, false) {
        let h = header_at(s)->Ok_0;
        if h.header_len == 0 {
            reveal(header_at);
            assert(p =~= s.take(1));
        } else {
            assert(p.len() == h.payload_len);
            if p.len() == 1 {
                lemma_short_string_header(s);
                assert(p[0] == s[1]);
            }
            assert(s.take(n as int) =~= s.take(h.header_len as int) + p);
        }
    }
}

/// The header of a one-byte string has one byte.
proof fn lemma_short_string_header(s: Seq<u8>)
    ensures
        header_at(s) matches Ok(h) ==> h.header_len > 0 && h.payload_len < 56 ==> h.header_len == 1,
{
    reveal(header_at);
}

/// A header that is accepted is taken whole, and one that is refused no further than the bytes go.
pub proof fn law_header_taken(s: Seq<u8>)
    ensures
        header_taken(s) <= s.len(),
        header_at(s) matches Ok(h) ==> header_taken(s) == h.header_len,
{
    reveal(header_at);
}

/// A field that is accepted is taken whole, and one that is refused no further than the bytes go.
pub proof fn law_field_taken(s: Seq<u8>, kind: FieldKind)
    ensures
        field_taken(s, kind) <= s.len(),
        field_at(s, kind) matches Ok((_, n)) ==> field_taken(s, kind) == n,
{
    law_header_taken(s);
    law_header_canonical(s);
}

proof fn lemma_fields_taken(s: Seq<u8>, kinds: Seq<FieldKind>, i: nat, must: nat, room: int)
    ensures
        fields_taken(s, kinds, i, must, room) <= s.len(),
        fields_at(s, kinds, i, must, room) matches Ok((_, n)) ==> fields_taken(
            s,
            kinds,
            i,
            must,
            room,
        ) == n,
    decreases kinds.len() - i,
{
    if !(i >= kinds.len() || (i >= must && room <= 0)) {
        law_field_taken(s, kinds[i as int]);
        if let Ok((_, n)) = field_at(s, kinds[i as int]) {
            lemma_fields_taken(s.skip(n as int), kinds, i + 1, must, room - n);
        }
    }
}

/// A record that is accepted is taken whole, and one that is refused no further than the bytes go.
pub proof fn law_record_taken(s: Seq<u8>, kinds: Seq<FieldKind>, must: nat)
    ensures
        record_taken(s, kinds, must) <= s.len(),
        record_at(s, kinds, must) matches Ok((_, n)) ==> record_taken(s, kinds, must) == n,
{
    law_header_taken(s);
    law_header_canonical(s);
    if let Ok(h) = header_at(s) {
        lemma_fields_taken(s.skip(h.header_len as int), kinds, 0, must, h.payload_len as int);
    }
}

/// A string item has at least one byte.
proof fn lemma_string_item_len(p: Seq<u8>)
    ensures
        string_item(p).len() >= p.len(),
        string_item(p).len() >= 1,
{
}

proof fn lemma_fields_read_back(
    ps: Seq<Seq<u8>>,
    kinds: Seq<FieldKind>,
    i: nat,
    must: nat,
    rest: Seq<u8>,
)
    requires
        record_fields(ps, kinds, must),
        i <= ps.len(),
        items_from(ps, i).len() <= usize::MAX - 9,
    ensures
        fields_at(items_from(ps, i) + rest, kinds, i, must, items_from(ps, i).len() as int) == Ok::<
            (Seq<Seq<u8>>, nat),
            RlpError,
        >((ps.skip(i as int), items_from(ps, i).len())),
    decreases ps.len() - i,
{
    if i == ps.len() {
        assert(ps.skip(i as int) =~= Seq::empty());
    } else {
        let p = ps[i as int];
        let item = string_item(p);
        let later = items_from(ps, i + 1);
        let s = items_from(ps, i) + rest;
        lemma_string_item_len(p);
        law_string_read_back(p, later + rest);
        assert(s =~= item + (later + rest));
        assert(s.skip(item.len() as int) =~= later + rest);
        lemma_fields_read_back(ps, kinds, i + 1, must, rest);
        assert(fault(kinds[i as int], ps[i as int]) is None);
        assert(seq![p] + ps.skip(i as int + 1) =~= ps.skip(i as int));
    }
}

/// A record is read back, whatever follows.
pub proof fn law_record_read_back(
    ps: Seq<Seq<u8>>,
    kinds: Seq<FieldKind>,
    must: nat,
    rest: Seq<u8>,
)
    requires
        record_fields(ps, kinds, must),
        items_from(ps, 0).len() <= usize::MAX - 9,
    ensures
        record_at(record_item(ps) + rest, kinds, must) == Ok::<(Seq<Seq<u8>>, nat), RlpError>(
            (ps, record_item(ps).len()),
        ),
{
    let payload = items_from(ps, 0);
    let h = item_header(true, payload.len());
    let s = record_item(ps) + rest;
    law_header_read_back(true, payload, rest);
    assert(s =~= h + payload + rest);
    assert(s.skip(h.len() as int) =~= payload + rest);
    lemma_fields_read_back(ps, kinds, 0, must, rest);
    assert(ps.skip(0) =~= ps);
}

/// The payloads fit the fields from number `i` on.
spec fn fit_from(ps: Seq<Seq<u8>>, kinds: Seq<FieldKind>, i: nat) -> bool {
    forall|j: int| 0 <= j < ps.len() ==> fault(kinds[i + j], #[trigger] ps[j]) is None
}

proof fn lemma_fit_cons(p: Seq<u8>, ps: Seq<Seq<u8>>, kinds: Seq<FieldKind>, i: nat)
    requires
        fault(kinds[i as int], p) is None,
        fit_from(ps, kinds, i + 1),
    ensures
        fit_from(seq![p] + ps, kinds, i),
{
    let all = seq![p] + ps;
    assert forall|j: int| 0 <= j < all.len() implies fault(
        kinds[i + j],
        #[trigger] all[j],
    ) is None by {
        if j > 0 {
            assert(all[j] == ps[j - 1]);
        }
    }
}

proof fn lemma_items_cons(p: Seq<u8>, ps: Seq<Seq<u8>>)
    ensures
        items_from(seq![p] + ps, 0) == string_item(p) + items_from(ps, 0),
{
    let all = seq![p] + ps;
    assert(all.skip(1) =~= ps);
    lemma_items_shift(all, ps, 0);
}

proof fn lemma_fields_canonical(
    s: Seq<u8>,
    kinds: Seq<FieldKind>,
    i: nat,
    must: nat,
    room: int,
)
    requires
        i <= kinds.len(),
        must <= kinds.len(),
    ensures
        fields_at(s, kinds, i, must, room) matches Ok((ps, n)) ==> {
            &&& n <= s.len()
            &&& s.take(n as int) == items_from(ps, 0)
            &&& i + ps.len() <= kinds.len()
            &&& must <= i + ps.len()
            &&& fit_from(ps, kinds, i)
        },
    decreases kinds.len() - i,
{
    if i >= kinds.len() || (i >= must && room <= 0) {
        assert(s.take(0) =~= items_from(Seq::empty(), 0));
    } else {
        law_string_canonical(s);
        if let Ok((p, n)) = field_at(s, kinds[i as int]) {
            let later = s.skip(n as int);
            lemma_fields_canonical(later, kinds, i + 1, must, room - n);
            if let Ok((ps, m)) = fields_at(later, kinds, i + 1, must, room - n) {
                lemma_items_cons(p, ps);
                lemma_fit_cons(p, ps, kinds, i);
                assert(s.take((n + m) as int) =~= s.take(n as int) + later.take(m as int));
            }
        }
    }
}

proof fn lemma_items_shift(all: Seq<Seq<u8>>, tail: Seq<Seq<u8>>, i: nat)
    requires
        all.len() == tail.len() + 1,
        all.skip(1) == tail,
    ensures
        items_from(all, i + 1) == items_from(tail, i),
    decreases tail.len() - i,
{
    if i < tail.len() {
        assert(all[i as int + 1] == all.skip(1)[i as int]);
        lemma_items_shift(all, tail, i + 1);
    }
}

/// A record is accepted only in its one encoding.
pub proof fn law_record_canonical(s: Seq<u8>, kinds: Seq<FieldKind>, must: nat)
    requires
        must <= kinds.len(),
    ensures
        record_at(s, kinds, must) matches Ok((ps, n)) ==> {
            &&& n <= s.len()
            &&& s.take(n as int) == record_item(ps)
            &&& record_fields(ps, kinds, must)
        },
{
    law_header_canonical(s);
    if let Ok((ps, n)) = record_at(s, kinds, must) {
        let h = header_at(s)->Ok_0;
        let body = s.skip(h.header_len as int);
        lemma_fields_canonical(body, kinds, 0, must, h.payload_len as int);
        assert(s.take(n as int) =~= s.take(h.header_len as int) + body.take(h.payload_len as int));
        assert forall|i: int| 0 <= i < ps.len() implies #[trigger] fault(kinds[i], ps[i]) is None by {
            assert(kinds[0 + i] == kinds[i]);
        }
    }
}

/// The shortest spelling of a 64-bit number is the payload of a number field.
pub proof fn lemma_word_payload(n: u64)
    ensures
        fault(FieldKind::Word, num::be_bytes(n as nat)) is None,
        num::be_value(num::be_bytes(n as nat)) == n,
{
    num::lemma_word_ranges();
    num::lemma_bytes_len(n as nat, 8);
    num::lemma_bytes_no_leading_zero(n as nat);
    num::lemma_value_of_bytes(n as nat);
}

/// The shortest spelling of a 256-bit number is the payload of a wide number field, and padding it
/// gives the number's bytes.
pub proof fn lemma_wide_payload(v: U256)
    ensures
        fault(FieldKind::Wide, num::be_bytes(v@)) is None,
        num::left_padded(num::be_bytes(v@), 32) == v.be@,
{
    let digits = num::be_bytes(v@);
    num::lemma_value_bound(v.be@);
    num::lemma_bytes_len(v@, 32);
    num::lemma_bytes_no_leading_zero(v@);
    num::lemma_value_of_bytes(v@);
    num::lemma_padding_value((32 - digits.len()) as nat, digits);
    num::lemma_value_injective(num::left_padded(digits, 32), v.be@);
}

// ---- writing ----

/// Appends the header of an item with `len` bytes of payload.
pub fn put_header(out: &mut Vec<u8>, list: bool, len: usize)
    ensures
        final(out)@ == old(out)@ + item_header(list, len as nat),
{
    let short: u8 = if list {
        0xc0
    } else {
        0x80
    };
    if len < 56 {
        out.push(short + len as u8);
        assert(out@ =~= old(out)@ + item_header(list, len as nat));
    } else {
        let mut width = write_be(len as u64);
        proof {
            lemma_length_width(len as nat);
        }
        out.push(short + 55 + width.len() as u8);
        out.append(&mut width);
        assert(out@ =~= old(out)@ + item_header(list, len as nat));
    }
}

/// Appends all of `bytes`.
pub fn put_slice(out: &mut Vec<u8>, bytes: &[u8])
    ensures
        final(out)@ == old(out)@ + bytes@,
{
    let mut i: usize = 0;
    while i < bytes.len()
        invariant
            i <= bytes@.len(),
            out@ == old(out)@ + bytes@.take(i as int),
        decreases bytes@.len() - i,
    {
        out.push(bytes[i]);
        assert(bytes@.take(i as int + 1) =~= bytes@.take(i as int).push(bytes@[i as int]));
        assert(out@ =~= old(out)@ + bytes@.take(i as int + 1));
        i += 1;
    }
    assert(bytes@.take(i as int) =~= bytes@);
}

/// Appends a string item.
pub fn put_string(out: &mut Vec<u8>, payload: &[u8])
    ensures
        final(out)@ == old(out)@ + string_item(payload@),
{
    if payload.len() != 1 || payload[0] >= 0x80 {
        put_header(out, false, payload.len());
    }
    put_slice(out, payload);
    assert(out@ =~= old(out)@ + string_item(payload@));
}

/// Appends a 64-bit number.
pub fn put_u64(out: &mut Vec<u8>, n: u64)
    ensures
        final(out)@ == old(out)@ + number_item(n as nat),
{
    let digits = write_be(n);
    put_string(out, digits.as_slice());
}

/// The contents of a vector of byte strings.
pub open spec fn payloads(v: Seq<Vec<u8>>) -> Seq<Seq<u8>> {
    v.map_values(|p: Vec<u8>| p@)
}

/// Appends a list item.
pub fn put_list(out: &mut Vec<u8>, payload: &[u8])
    ensures
        final(out)@ == old(out)@ + list_item(payload@),
{
    put_header(out, true, payload.len());
    put_slice(out, payload);
    assert(out@ =~= old(out)@ + list_item(payload@));
}

/// Appends a record with these payloads.
pub fn put_record(out: &mut Vec<u8>, ps: &Vec<Vec<u8>>)
    ensures
        final(out)@ == old(out)@ + record_item(payloads(ps@)),
{
    let mut body: Vec<u8> = Vec::new();
    let mut i: usize = 0;
    let ghost all = items_from(payloads(ps@), 0);
    assert(body@ + all =~= all);
    while i < ps.len()
        invariant
            i <= ps@.len(),
            body@ + items_from(payloads(ps@), i as nat) == all,
        decreases ps@.len() - i,
    {
        let ghost before = body@;
        put_string(&mut body, ps[i].as_slice());
        assert(payloads(ps@)[i as int] == ps@[i as int]@);
        assert(body@ + items_from(payloads(ps@), (i + 1) as nat) =~= before + items_from(
            payloads(ps@),
            i as nat,
        ));
        i += 1;
    }
    assert(body@ =~= all);
    put_list(out, body.as_slice());
}

// ---- reading ----

fn fit(s: &[u8], list: bool, header_len: usize, payload_len: usize) -> (r: Result<
    ItemHeader,
    RlpError,
>)
    requires
        header_len <= s@.len(),
    ensures
        r == fitting(s@, list, header_len as nat, payload_len as nat),
{
    if s.len() - header_len < payload_len {
        Err(RlpError::InputTooShort)
    } else {
        Ok(ItemHeader { list, header_len, payload_len })
    }
}

fn take_long_header(s: &[u8], list: bool, width: usize) -> (r: Result<ItemHeader, RlpError>)
    requires
        1 <= width <= 8,
    ensures
        r == long_header(s@, list, width as nat),
{
    if s.len() < 1 + width {
        return Err(RlpError::InputTooShort);
    }
    if s[1] == 0 {
        return Err(RlpError::LeadingZero);
    }
    let len = read_be(vstd::slice::slice_subrange(s, 1, 1 + width));
    if len > usize::MAX as u64 {
        return Err(RlpError::Custom("Input too big"));
    }
    if len < 56 {
        return Err(RlpError::NonCanonicalSize);
    }
    fit(s, list, 1 + width, len as usize)
}

/// Reads the header at the front of `s`.
pub fn take_header(s: &[u8]) -> (r: Result<ItemHeader, RlpError>)
    ensures
        r == header_at(s@),
{
    reveal(header_at);
    if s.len() == 0 {
        return Err(RlpError::InputTooShort);
    }
    let b = s[0];
    if b < 0x80 {
        Ok(ItemHeader { list: false, header_len: 0, payload_len: 1 })
    } else if b == 0x81 && s.len() > 1 && s[1] < 0x80 {
        Err(RlpError::NonCanonicalSingleByte)
    } else if b < 0xb8 {
        fit(s, false, 1, (b - 0x80) as usize)
    } else if b < 0xc0 {
        take_long_header(s, false, (b - 0xb7) as usize)
    } else if b < 0xf8 {
        fit(s, true, 1, (b - 0xc0) as usize)
    } else {
        take_long_header(s, true, (b - 0xf7) as usize)
    }
}

/// Reads the string or list at the front of `s`: its payload, and how many bytes the item takes.
pub fn take_payload(s: &[u8], list: bool) -> (r: Result<(&[u8], usize), RlpError>)
    ensures
        match r {
            Ok((p, n)) => payload_at(s@, list) == Ok::<(Seq<u8>, nat), RlpError>((p@, n as nat))
                && n <= s@.len(),
            Err(e) => payload_at(s@, list) == Err::<(Seq<u8>, nat), RlpError>(e),
        },
{
    let h = take_header(s)?;
    if h.list != list {
        return Err(
            if list {
                RlpError::UnexpectedString
            } else {
                RlpError::UnexpectedList
            },
        );
    }
    proof {
        law_header_canonical(s@);
        assert(s@.len() == s.len());
    }
    let end = h.header_len + h.payload_len;
    Ok((vstd::slice::slice_subrange(s, h.header_len, end), end))
}

/// Reads the field at the front of `s`: its payload, and how many bytes its item takes.
pub fn take_field(s: &[u8], kind: FieldKind) -> (r: Result<(&[u8], usize), RlpError>)
    ensures
        match r {
            Ok((p, n)) => field_at(s@, kind) == Ok::<(Seq<u8>, nat), RlpError>((p@, n as nat)) && n
                <= s@.len(),
            Err(e) => field_at(s@, kind) == Err::<(Seq<u8>, nat), RlpError>(e),
        },
{
    let (p, n) = take_payload(s, false)?;
    let zero_first = p.len() > 0 && p[0] == 0;
    match kind {
        FieldKind::Fixed(width) => if p.len() != width {
            return Err(RlpError::UnexpectedLength);
        },
        FieldKind::Word => if p.len() > 8 {
            return Err(RlpError::Overflow);
        } else if zero_first {
            return Err(RlpError::LeadingZero);
        },
        FieldKind::Wide => if zero_first {
            return Err(RlpError::LeadingZero);
        } else if p.len() > 32 {
            return Err(RlpError::Overflow);
        },
        FieldKind::Data => {},
    }
    Ok((p, n))
}

/// `r` with `parts`, which take `n` bytes, in front.
spec fn behind(
    parts: Seq<Seq<u8>>,
    n: nat,
    r: Result<(Seq<Seq<u8>>, nat), RlpError>,
) -> Result<(Seq<Seq<u8>>, nat), RlpError> {
    match r {
        Err(e) => Err(e),
        Ok((ps, m)) => Ok((parts + ps, n + m)),
    }
}

/// The contents of a vector of slices.
pub open spec fn contents(v: Seq<&[u8]>) -> Seq<Seq<u8>> {
    v.map_values(|p: &[u8]| p@)
}

/// Reads the record at the front of `s`: the payloads of its fields, and how many bytes it takes.
pub fn take_record<'a>(s: &'a [u8], kinds: &[FieldKind], must: usize) -> (r: Result<
    (Vec<&'a [u8]>, usize),
    RlpError,
>)
    ensures
        match r {
            Ok((ps, n)) => record_at(s@, kinds@, must as nat) == Ok::<
                (Seq<Seq<u8>>, nat),
                RlpError,
            >((contents(ps@), n as nat)) && n <= s@.len(),
            Err(e) => record_at(s@, kinds@, must as nat) == Err::<(Seq<Seq<u8>>, nat), RlpError>(e),
        },
{
    let h = take_header(s)?;
    if !h.list {
        return Err(RlpError::UnexpectedString);
    }
    proof {
        law_header_canonical(s@);
    }
    let body = vstd::slice::slice_subrange(s, h.header_len, s.len());
    assert(body@ =~= s@.skip(h.header_len as int));
    let ghost all = fields_at(body@, kinds@, 0, must as nat, h.payload_len as int);
    let mut parts: Vec<&'a [u8]> = Vec::new();
    let mut n: usize = 0;
    let mut i: usize = 0;
    proof {
        assert(body@.skip(0) =~= body@);
        if let Ok((ps, m)) = all {
            assert(contents(parts@) + ps =~= ps);
        }
    }
    while i < kinds.len() && (i < must || n < h.payload_len)
        invariant
            i <= kinds@.len(),
            n <= body@.len(),
            all == behind(
                contents(parts@),
                n as nat,
                fields_at(
                    body@.skip(n as int),
                    kinds@,
                    i as nat,
                    must as nat,
                    h.payload_len - n,
                ),
            ),
            h.list,
            header_at(s@) == Ok::<ItemHeader, RlpError>(h),
            body@ == s@.skip(h.header_len as int),
            all == fields_at(body@, kinds@, 0, must as nat, h.payload_len as int),
        decreases kinds@.len() - i,
    {
        let here = vstd::slice::slice_subrange(body, n, body.len());
        assert(here@ =~= body@.skip(n as int));
        let (p, m) = take_field(here, kinds[i])?;
        proof {
            assert(here@.skip(m as int) =~= body@.skip(n + m));
            let later = fields_at(
                body@.skip(n + m),
                kinds@,
                (i + 1) as nat,
                must as nat,
                h.payload_len - n - m,
            );
            assert(contents(parts@.push(p)) =~= contents(parts@).push(p@));
            if let Ok((ps, k)) = later {
                assert(contents(parts@) + (seq![p@] + ps) =~= contents(parts@.push(p)) + ps);
            }
        }
        parts.push(p);
        n += m;
        i += 1;
    }
    assert(contents(parts@) + Seq::<Seq<u8>>::empty() =~= contents(parts@));
    if n != h.payload_len {
        return Err(RlpError::ListLengthMismatch { expected: h.payload_len, got: n });
    }
    Ok((parts, h.header_len + n))
}

/// How far reading the header at the front of `s` goes.
pub fn header_reach(s: &[u8]) -> (r: usize)
    ensures
        r == header_taken(s@),
        r <= s@.len(),
{
    if s.len() == 0 || s[0] < 0x80 {
        return 0;
    }
    let b = s[0];
    let width: usize = if b >= 0xf8 {
        (b - 0xf7) as usize
    } else if 0xb8 <= b && b < 0xc0 {
        (b - 0xb7) as usize
    } else {
        0
    };
    if s.len() < 1 + width {
        1
    } else {
        1 + width
    }
}

/// How far reading the string or list at the front of `s` goes.
pub fn payload_reach(s: &[u8], list: bool) -> (r: usize)
    ensures
        r == payload_taken(s@, list),
        r <= s@.len(),
{
    match take_payload(s, list) {
        Ok((_, n)) => n,
        Err(_) => header_reach(s),
    }
}

/// How far reading the field at the front of `s` goes.
pub fn field_reach(s: &[u8], kind: FieldKind) -> (r: usize)
    ensures
        r == field_taken(s@, kind),
        r <= s@.len(),
{
    proof {
        law_field_taken(s@, kind);
    }
    match take_payload(s, false) {
        Ok((p, n)) => match kind {
            FieldKind::Word => if p.len() <= 8 && p.len() > 0 && p[0] == 0 {
                0
            } else {
                n
            },
            _ => n,
        },
        Err(RlpError::NonCanonicalSingleByte) => match kind {
            FieldKind::Word => 0,
            _ => header_reach(s),
        },
        Err(_) => header_reach(s),
    }
}

/// How far reading the record at the front of `s` goes.
pub fn record_reach(s: &[u8], kinds: &[FieldKind], must: usize) -> (r: usize)
    ensures
        r == record_taken(s@, kinds@, must as nat),
        r <= s@.len(),
{
    proof {
        law_header_taken(s@);
        law_header_canonical(s@);
        law_record_taken(s@, kinds@, must as nat);
    }
    let h = match take_header(s) {
        Ok(h) => h,
        Err(_) => {
            return header_reach(s);
        },
    };
    if !h.list {
        return header_reach(s);
    }
    let body = vstd::slice::slice_subrange(s, h.header_len, s.len());
    assert(body@ =~= s@.skip(h.header_len as int));
    let ghost all = fields_taken(body@, kinds@, 0, must as nat, h.payload_len as int);
    let mut n: usize = 0;
    let mut i: usize = 0;
    assert(body@.skip(0) =~= body@);
    while i < kinds.len() && (i < must || n < h.payload_len)
        invariant
            i <= kinds@.len(),
            n <= body@.len(),
            all == n + fields_taken(
                body@.skip(n as int),
                kinds@,
                i as nat,
                must as nat,
                h.payload_len - n,
            ),
            h.list,
            header_at(s@) == Ok::<ItemHeader, RlpError>(h),
            header_taken(s@) == h.header_len,
            body@ == s@.skip(h.header_len as int),
            s@.len() == h.header_len + body@.len(),
            all == fields_taken(body@, kinds@, 0, must as nat, h.payload_len as int),
        decreases kinds@.len() - i,
    {
        let here = vstd::slice::slice_subrange(body, n, body.len());
        assert(here@ =~= body@.skip(n as int));
        match take_field(here, kinds[i]) {
            Err(_) => {
                assert(s@.len() == s.len());
                return h.header_len + n + field_reach(here, kinds[i]);
            },
            Ok((_, m)) => {
                assert(here@.skip(m as int) =~= body@.skip(n + m));
                n += m;
                i += 1;
            },
        }
    }
    h.header_len + n
}

/// Copies `s` into an array of the same length.
pub fn into_array<const N: usize>(zero: [u8; N], s: &[u8]) -> (r: [u8; N])
    requires
        s@.len() == N,
    ensures
        r@ == s@,
{
    let mut r = zero;
    let mut i: usize = 0;
    while i < N
        invariant
            i <= N,
            s@.len() == N,
            forall|j: int| 0 <= j < i ==> r@[j] == s@[j],
        decreases N - i,
    {
        r[i] = s[i];
        i += 1;
    }
    assert(r@ =~= s@);
    r
}

// ---- the forms of an item ----

/// A byte below `0x80` is its own item. Any other string of fewer than 56 bytes has its length on top
/// of `0x80` in front, a list of that size on top of `0xc0`. What is longer has the width of its
/// length on top of `0xb7` or `0xf7`, then the length, then the payload.
pub proof fn law_item_forms(p: Seq<u8>)
    ensures
        p.len() == 1 && p[0] < 0x80 ==> string_item(p) == p,
        p.len() < 56 && !(p.len() == 1 && p[0] < 0x80) ==> string_item(p) == seq![
            (0x80 + p.len()) as u8,
        ] + p,
        p.len() < 56 ==> list_item(p) == seq![(0xc0 + p.len()) as u8] + p,
        p.len() >= 56 ==> string_item(p) == seq![
            (0xb7 + num::be_bytes(p.len()).len()) as u8,
        ] + num::be_bytes(p.len()) + p,
        p.len() >= 56 ==> list_item(p) == seq![
            (0xf7 + num::be_bytes(p.len()).len()) as u8,
        ] + num::be_bytes(p.len()) + p,
        p.len() <= usize::MAX && p.len() >= 56 ==> 1 <= num::be_bytes(p.len()).len() <= 8,
{
    if p.len() <= usize::MAX && p.len() >= 56 {
        lemma_length_width(p.len());
    }
}

/// A number is written as the string of its shortest spelling, so zero as an empty string.
pub proof fn law_number_form(n: nat)
    ensures
        number_item(0) == seq![0x80u8],
        0 < n < 0x80 ==> number_item(n) == seq![n as u8],
        number_item(n) == string_item(num::be_bytes(n)),
{
    assert(number_item(0) =~= seq![0x80u8]);
    if 0 < n < 0x80 {
        assert(num::be_bytes(n / 256) =~= Seq::<u8>::empty());
        assert(num::be_bytes(n) =~= seq![n as u8]);
    }
}

/// What a field of each kind may hold: a string of one length, a number without a leading zero in at
/// most eight or thirty-two bytes, or anything.
pub proof fn law_field_kinds(p: Seq<u8>, width: usize)
    ensures
        fault(FieldKind::Fixed(width), p) is None <==> p.len() == width,
        fault(FieldKind::Word, p) is None <==> p.len() <= 8 && (p.len() > 0 ==> p[0] != 0),
        fault(FieldKind::Wide, p) is None <==> p.len() <= 32 && (p.len() > 0 ==> p[0] != 0),
        fault(FieldKind::Data, p) is None,
{
}

} // verus!
