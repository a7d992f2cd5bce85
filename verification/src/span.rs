//! Source ranges in six bytes. A range of up to `MAX_LEN` bytes is held in
//! the span itself; a longer one is put into an interning table, and the
//! span holds its slot there.

use vstd::prelude::*;
use crate::position::BytePosition;

verus! {

/// The bit of the length field that tells an interned span from an inline
/// one.
pub const TAG_LEN: u16 = 0x8000;

/// The longest range that a span holds inline.
pub const MAX_LEN: u32 = 0x7FFF;

/// The number of ranges that one interning table can hold: a slot is told
/// in fifteen bits.
pub const MAX_SLOTS: usize = 0x8000;

/// A range of the source, from `low` up to and without `high`.
#[derive(Debug, Clone, Copy, PartialEq, Eq, PartialOrd, Ord, Hash, Structural)]
pub struct SpanData {
    pub low: BytePosition,
    pub high: BytePosition,
}

impl SpanData {
    /// The range does not end before it starts.
    pub open spec fn wf(&self) -> bool {
        self.low.0 <= self.high.0
    }
}

/// What a span says: either the range itself, or where the table has it.
pub enum SpanForm {
    Inline { low: u32, len: u16 },
    Interned { slot: u16 },
}

/// A range of the source in compact form. Two spans are equal where their
/// bits are: two interned spans of the same range in two slots are not.
#[derive(Debug, Clone, Copy, PartialEq, Eq, Hash, Structural)]
pub struct Span {
    base_index: u32,
    len_tag: u16,
}

impl Span {
    /// The bits that say nothing are zero: an interned span has no base of
    /// its own. Of two such spans, those that say the same are equal.
    pub closed spec fn wf(&self) -> bool {
        self.len_tag >= TAG_LEN ==> self.base_index == 0
    }
}

impl View for Span {
    type V = SpanForm;

    closed spec fn view(&self) -> SpanForm {
        if self.len_tag < TAG_LEN {
            SpanForm::Inline { low: self.base_index, len: self.len_tag }
        } else {
            SpanForm::Interned { slot: (self.len_tag - TAG_LEN) as u16 }
        }
    }
}

/// The ranges that were too long for their spans, in the order in which
/// they came. Nothing in it is ever changed or removed.
pub struct SpanInterner {
    spans: Vec<SpanData>,
}

impl View for SpanInterner {
    type V = Seq<SpanData>;

    closed spec fn view(&self) -> Seq<SpanData> {
        self.spans@
    }
}

/// The span that stands for the range from `low` to `high`, with `table`
/// as the interning table before: a range too long for a span goes behind
/// the last slot.
pub open spec fn encoded(table: Seq<SpanData>, low: u32, high: u32) -> SpanForm {
    if high - low <= MAX_LEN {
        SpanForm::Inline { low, len: (high - low) as u16 }
    } else {
        SpanForm::Interned { slot: table.len() as u16 }
    }
}

/// The interning table after the range from `low` to `high` was encoded.
pub open spec fn interned(table: Seq<SpanData>, low: u32, high: u32) -> Seq<SpanData> {
    if high - low <= MAX_LEN {
        table
    } else {
        table.push(SpanData { low: BytePosition(low), high: BytePosition(high) })
    }
}

/// Whether `table` can tell the range of a span of this form: an inline
/// span ends within the offsets that there are, and an interned one has its
/// slot in `table`, with a range in it.
pub open spec fn decodable(form: SpanForm, table: Seq<SpanData>) -> bool {
    match form {
        SpanForm::Inline { low, len } => len <= MAX_LEN && low + len <= u32::MAX,
        SpanForm::Interned { slot } => slot < MAX_SLOTS && slot < table.len()
            && table[slot as int].wf(),
    }
}

/// The range of a span of this form.
pub open spec fn decoded(form: SpanForm, table: Seq<SpanData>) -> SpanData {
    match form {
        SpanForm::Inline { low, len } => SpanData {
            low: BytePosition(low),
            high: BytePosition((low + len) as u32),
        },
        SpanForm::Interned { slot } => table[slot as int],
    }
}

impl SpanInterner {
    /// A table with no range in it.
    pub fn new() -> (interner: Self)
        ensures
            interner@ == Seq::<SpanData>::empty(),
    {
        Self { spans: Vec::new() }
    }

    /// The number of ranges in the table.
    pub fn len(&self) -> (len: usize)
        ensures
            len == self@.len(),
    {
        self.spans.len()
    }

    /// Whether the table has no slot left for another range.
    pub fn is_full(&self) -> (full: bool)
        ensures
            full == (self@.len() >= MAX_SLOTS),
    {
        self.spans.len() >= MAX_SLOTS
    }

    fn intern(&mut self, data: SpanData) -> (slot: u16)
        requires
            old(self)@.len() < MAX_SLOTS,
        ensures
            slot == old(self)@.len(),
            final(self)@ == old(self)@.push(data),
    {
        let slot = self.spans.len() as u16;
        self.spans.push(data);
        slot
    }

    fn get(&self, slot: u16) -> (data: SpanData)
        requires
            slot < self@.len(),
        ensures
            data == self@[slot as int],
    {
        self.spans[slot as usize]
    }
}

impl Span {
    /// The span that stands where no range is known: it reads as the empty
    /// range at the start of the source.
    pub fn dummy() -> (span: Self)
        ensures
            span.wf(),
            span@ == (SpanForm::Inline { low: 0, len: 0 }),
    {
        Span { base_index: 0, len_tag: 0 }
    }

    /// Whether this is the span that stands where no range is known.
    pub fn is_dummy(&self) -> (dummy: bool)
        ensures
            dummy == (self@ == SpanForm::Inline { low: 0, len: 0 }),
    {
        self.base_index == 0 && self.len_tag == 0
    }

    /// The span of the range from `low` to `high`. A range of more than
    /// [`MAX_LEN`] bytes takes the next slot of `interner`, which has to have
    /// one left.
    pub fn encode(low: BytePosition, high: BytePosition, interner: &mut SpanInterner) -> (span:
        Self)
        requires
            low.0 <= high.0,
            high.0 - low.0 <= MAX_LEN || old(interner)@.len() < MAX_SLOTS,
        ensures
            span.wf(),
            span@ == encoded(old(interner)@, low.0, high.0),
            final(interner)@ == interned(old(interner)@, low.0, high.0),
            decodable(span@, final(interner)@),
    {
        let len = high.0 - low.0;
        if len <= MAX_LEN {
            Span { base_index: low.0, len_tag: len as u16 }
        } else {
            let slot = interner.intern(SpanData { low, high });
            assert(slot < 0x8000 ==> (0x8000u16 | slot) >= 0x8000 && (0x8000u16 | slot) - 0x8000
                == slot) by (bit_vector);
            Span { base_index: 0, len_tag: TAG_LEN | slot }
        }
    }

    /// The range that the span stands for, `interner` being the table that
    /// the span was encoded with.
    pub fn decode(&self, interner: &SpanInterner) -> (data: SpanData)
        requires
            decodable(self@, interner@),
        ensures
            data.wf(),
            data == decoded(self@, interner@),
    {
        let tag = self.len_tag;
        assert(tag & 0x8000 == 0 <==> tag < 0x8000) by (bit_vector);
        assert(tag >= 0x8000 ==> tag & 0x7FFF == tag - 0x8000) by (bit_vector);
        if tag & TAG_LEN == 0 {
            SpanData {
                low: BytePosition(self.base_index),
                high: BytePosition(self.base_index + tag as u32),
            }
        } else {
            interner.get(tag & 0x7FFF)
        }
    }
}

/// A range of no more than [`MAX_LEN`] bytes comes back from its span as it
/// went in, and leaves the table as it was.
pub proof fn lemma_inline_round_trip(table: Seq<SpanData>, low: u32, high: u32)
    requires
        low <= high,
        high - low <= MAX_LEN,
    ensures
        interned(table, low, high) == table,
        decodable(encoded(table, low, high), table),
        decoded(encoded(table, low, high), table) == (SpanData {
            low: BytePosition(low),
            high: BytePosition(high),
        }),
{
}

/// A longer range comes back from its span as it went in, by way of the
/// table.
pub proof fn lemma_interned_round_trip(table: Seq<SpanData>, low: u32, high: u32)
    requires
        low <= high,
        high - low > MAX_LEN,
        table.len() < MAX_SLOTS,
    ensures
        decodable(encoded(table, low, high), interned(table, low, high)),
        decoded(encoded(table, low, high), interned(table, low, high)) == (SpanData {
            low: BytePosition(low),
            high: BytePosition(high),
        }),
{
}

/// A long range encoded twice gives two spans that differ, in two slots,
/// and both stand for the range.
pub proof fn lemma_interned_twice(table: Seq<SpanData>, low: u32, high: u32)
    requires
        low <= high,
        high - low > MAX_LEN,
        table.len() + 1 < MAX_SLOTS,
    ensures
        ({
            let first = encoded(table, low, high);
            let once = interned(table, low, high);
            let second = encoded(once, low, high);
            let twice = interned(once, low, high);
            &&& first != second
            &&& decodable(first, twice)
            &&& decodable(second, twice)
            &&& decoded(first, twice) == decoded(second, twice)
            &&& decoded(first, twice) == (SpanData {
                low: BytePosition(low),
                high: BytePosition(high),
            })
        }),
{
}

/// Two spans are equal where they say the same, and nowhere else: two
/// interned spans are equal only in the same slot, whatever stands there.
pub proof fn lemma_spans_equal_by_form(first: Span, second: Span)
    requires
        first.wf(),
        second.wf(),
    ensures
        first == second <==> first@ == second@,
{
}

/// What a table could tell before a range was encoded it tells after, and
/// tells the same.
pub proof fn lemma_decoding_is_stable(form: SpanForm, table: Seq<SpanData>, low: u32, high: u32)
    requires
        decodable(form, table),
    ensures
        decodable(form, interned(table, low, high)),
        decoded(form, interned(table, low, high)) == decoded(form, table),
{
}

/// The span that stands where no range is known reads, with any table, as
/// the empty range at the start of the source.
pub proof fn lemma_dummy_reads_empty(table: Seq<SpanData>)
    ensures
        decodable(SpanForm::Inline { low: 0, len: 0 }, table),
        decoded(SpanForm::Inline { low: 0, len: 0 }, table) == (SpanData {
            low: BytePosition(0),
            high: BytePosition(0),
        }),
{
}

} // verus!
