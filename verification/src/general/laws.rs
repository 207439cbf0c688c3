//! What holds of escadra strings whatever they are given: the laws that
//! `new`, `set_string`, `clone`, the conversions and the records obey.

use crate::general::escadra_string::{
    lemma_invariants, record_fault, record_length, record_max_length, record_pointer,
    record_storage, EscadraString,
};
use crate::general::growth::{grown_capacity, grows_in, lemma_grown_capacity};
use vstd::arithmetic::power2::{lemma2_to64, lemma_pow2_adds, pow2};
use vstd::bytes::*;
use vstd::prelude::*;
use vstd::std_specs::cmp::PartialEqSpec;
use vstd::utf8::*;

verus! {

/// A string is made of a text exactly where it is what `set_string` makes of
/// a new string for that text.
pub proof fn law_made_of_a_new_string(fresh: EscadraString, text: Seq<char>, after: EscadraString)
    requires
        fresh.is_new(),
    ensures
        fresh.set_to(text, &after) <==> after.is_made_of(text),
{
}

/// Whether a buffer of the capacity `capacity` has the size of the inline
/// chars, 16 bytes, doubled some number of times.
pub open spec fn doubles_from_inline(capacity: nat) -> bool {
    exists|doublings: nat| capacity + 1 == 16 * #[trigger] pow2(doublings)
}

/// `set_string` keeps the size of the storage a doubling of 16 bytes: so it
/// is for a new string, and for whatever is written into it from then on.
/// A string that `unpack` has read has the capacity that its record gave,
/// which may be any above 15; the buffer then doubles from that.
pub proof fn law_growth_keeps_the_doubling(
    before: EscadraString,
    text: Seq<char>,
    after: EscadraString,
)
    requires
        before.set_to(text, &after),
        before.is_new() || doubles_from_inline(before.capacity()),
    ensures
        doubles_from_inline(after.capacity()),
{
    lemma2_to64();
    if after.is_inline() {
    } else {
        let capacity = before.capacity();
        let grown = after.capacity();
        lemma_grown_capacity(capacity, encode_utf8(text).len());
        let more = choose|doublings: nat| #[trigger]
            grows_in(capacity, encode_utf8(text).len(), grown, doublings);
        let so_far = choose|doublings: nat| capacity + 1 == 16 * #[trigger] pow2(doublings);
        lemma_pow2_adds(so_far, more);
        assert((16 * pow2(so_far)) * pow2(more) == 16 * (pow2(so_far) * pow2(more)))
            by (nonlinear_arith);
    }
}

/// A text of at most 15 bytes that is written into a new string is held
/// inline: the string gives the text back, its capacity is 15, and it has no
/// buffer of its own.
pub proof fn law_short_text_is_held_inline(
    fresh: EscadraString,
    text: Seq<char>,
    after: EscadraString,
)
    requires
        fresh.is_new(),
        fresh.set_to(text, &after),
        encode_utf8(text).len() <= 15,
    ensures
        after@ == text,
        after.capacity() == 15,
        after.is_inline(),
{
    broadcast use encode_utf8_decode_utf8;
}

/// A text of more than 15 bytes that is written into a string, whatever it
/// held, is held in a buffer of its own, which is large enough for it: the
/// string gives the text back, and its capacity is at least the length of
/// the text.
pub proof fn law_long_text_is_held_in_a_buffer(
    before: EscadraString,
    text: Seq<char>,
    after: EscadraString,
)
    requires
        before.set_to(text, &after),
        encode_utf8(text).len() > 15,
    ensures
        after@ == text,
        after.capacity() >= encode_utf8(text).len(),
        !after.is_inline(),
{
    broadcast use encode_utf8_decode_utf8;

    lemma_grown_capacity(before.capacity(), encode_utf8(text).len());
}

/// Writing the same text twice in a row is writing it once: the string
/// gives the text back after either call, and the second call changes neither
/// the capacity nor the storage.
pub proof fn law_set_string_is_idempotent(
    before: EscadraString,
    text: Seq<char>,
    once: EscadraString,
    twice: EscadraString,
)
    requires
        before.set_to(text, &once),
        once.set_to(text, &twice),
    ensures
        once@ == text,
        twice@ == text,
        twice.bytes() == once.bytes(),
        twice.capacity() == once.capacity(),
        twice.is_inline() == once.is_inline(),
        twice.storage() == once.storage(),
{
    broadcast use encode_utf8_decode_utf8;

    lemma_grown_capacity(before.capacity(), encode_utf8(text).len());
}

/// A string that has taken a buffer of its own keeps one when a short text
/// follows a long one: it gives the short text back, and it is held in a
/// buffer of the capacity that the long text had made.
pub proof fn law_short_after_long_keeps_the_buffer(
    before: EscadraString,
    long: Seq<char>,
    grown: EscadraString,
    short: Seq<char>,
    after: EscadraString,
)
    requires
        before.set_to(long, &grown),
        grown.set_to(short, &after),
        encode_utf8(long).len() > 15,
        encode_utf8(short).len() <= 15,
    ensures
        after@ == short,
        !after.is_inline(),
        after.capacity() == grown.capacity(),
        after.capacity() > 15,
{
    broadcast use encode_utf8_decode_utf8;

    lemma_grown_capacity(before.capacity(), encode_utf8(long).len());
}

/// After `set_string` the byte that follows the content in the storage is
/// the terminator, and every byte after it is zero too.
pub proof fn law_content_is_terminated(
    before: EscadraString,
    text: Seq<char>,
    after: EscadraString,
)
    requires
        before.set_to(text, &after),
    ensures
        after.storage().len() == after.capacity() + 1,
        after.bytes().len() <= after.capacity(),
        after.storage()[after.bytes().len() as int] == 0,
        forall|i: int| after.bytes().len() <= i < after.storage().len() ==> after.storage()[i] == 0,
{
    lemma_grown_capacity(before.capacity(), encode_utf8(text).len());
}

/// A copy is made of the text of its original and of nothing else that
/// the original holds: it equals its original, and two strings that hold the
/// same text have the same copies, whatever their capacities are and
/// wherever they hold the text.
pub proof fn law_copy_is_made_of_the_text(
    original: EscadraString,
    copy: EscadraString,
    other: EscadraString,
    other_copy: EscadraString,
)
    requires
        original.wf(),
        other.wf(),
        other@ == original@,
        copy.is_made_of(original@),
        other_copy.is_made_of(other@),
    ensures
        copy@ == original@,
        copy.eq_spec(&original),
        other_copy.bytes() == copy.bytes(),
        other_copy.capacity() == copy.capacity(),
        other_copy.is_inline() == copy.is_inline(),
        other_copy.storage() == copy.storage(),
{
    lemma_invariants(original);
}

/// A string that is turned into its text and made of that text again holds
/// what it held: the text is short enough to be written, and the new string
/// equals the first.
pub proof fn law_text_round_trip(es: EscadraString, text: Seq<char>, back: EscadraString)
    requires
        es.wf(),
        text == es@,
        back.is_made_of(text),
    ensures
        encode_utf8(text).len() <= isize::MAX,
        back@ == es@,
        back.bytes() == es.bytes(),
        back.eq_spec(&es),
{
    lemma_invariants(es);
}

/// A text of exactly 15 bytes that is written into a new string is still
/// held inline, and one of exactly 16 bytes takes a buffer, of 32 bytes.
pub proof fn law_inline_boundary(fresh: EscadraString, text: Seq<char>, after: EscadraString)
    requires
        fresh.is_new(),
        fresh.set_to(text, &after),
    ensures
        encode_utf8(text).len() == 15 ==> after.is_inline() && after.capacity() == 15,
        encode_utf8(text).len() == 16 ==> !after.is_inline() && after.capacity() == 31,
{
    reveal_with_fuel(grown_capacity, 3);
}

/// Two strings are equal exactly where they hold the same text, whether
/// either is held inline or in a buffer, and whatever their capacities are.
pub proof fn law_equal_by_text(a: EscadraString, b: EscadraString)
    requires
        a.wf(),
        b.wf(),
    ensures
        a.eq_spec(&b) <==> a@ == b@,
{
    lemma_invariants(a);
    lemma_invariants(b);
}

/// A string that is written as a record can be read from it again: the
/// record has 32 bytes and breaks no rule of the layout, it gives the length
/// and the maximum length of the string, and its storage, with the buffer
/// of the string for what its pointer leads to, is that of the string.
pub proof fn law_record_round_trip(es: EscadraString, pointer: u64)
    requires
        es.wf(),
    ensures
        es.record(pointer).len() == 32,
        record_fault(es.record(pointer), es.storage()) is None,
        record_length(es.record(pointer)) == es.bytes().len(),
        record_max_length(es.record(pointer)) == es.capacity(),
        record_storage(es.record(pointer), es.storage()) == es.storage(),
        !es.is_inline() ==> record_pointer(es.record(pointer)) == pointer,
{
    lemma_invariants(es);
    lemma_auto_spec_u64_to_from_le_bytes();
    let record = es.record(pointer);
    let length = es.bytes().len() as u64;
    let max_length = es.capacity() as u64;
    assert(record.subrange(16, 24) =~= spec_u64_to_le_bytes(length));
    assert(record.subrange(24, 32) =~= spec_u64_to_le_bytes(max_length));
    if es.is_inline() {
        assert(record.subrange(0, 16) =~= es.storage());
    } else {
        assert(record.subrange(0, 8) =~= spec_u64_to_le_bytes(pointer));
    }
}
} // verus!
