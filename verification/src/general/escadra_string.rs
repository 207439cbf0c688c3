//! Defines a variable length string frequently used within Highfleet called an EscadraString.

use crate::general::growth::grown_capacity;
use crate::general::lexical::{compare_bytes, lexical_order, Lexical};
use crate::general::record::put;
use crate::general::text::{decimal, decimal_text};
use core::cmp::Ordering;
use core::hash::{Hash, Hasher};
use vstd::bytes::*;
use vstd::prelude::*;
use vstd::slice::*;
use vstd::string::*;
use vstd::utf8::*;

verus! {

/// The longest content, in bytes, that is held inside the string itself.
pub const INLINE_CAPACITY: u64 = 15;

/// The size of the buffer that is part of the string itself: the inline
/// content and its terminator.
pub const INLINE_SIZE: usize = 16;

/// `n` bytes that are all zero.
pub open spec fn zeros(n: int) -> Seq<u8> {
    Seq::new(
        if n >= 0 {
            n as nat
        } else {
            0
        },
        |i: int| 0u8,
    )
}

/// No buffer can be had for a content: it is longer than `isize::MAX` bytes.
#[derive(Debug, Clone, Copy, PartialEq, Eq, Structural)]
pub struct AllocationFailure {}

/// What makes 32 bytes of a record, and what their pointer leads to, no
/// escadra string.
#[derive(Debug, Clone, Copy, PartialEq, Eq, Structural)]
pub enum DecodeError {
    /// The maximum length is below 15, which the string has even when it is
    /// held inline.
    MaxLength,
    /// The length is above the maximum length, or above `isize::MAX`.
    Length,
    /// The buffer is not one byte larger than the maximum length.
    Buffer,
    /// The byte that follows the content is not zero.
    Terminator,
    /// The content is not valid UTF-8.
    Text,
}

/// Where the bytes of an escadra string are held.
#[derive(Debug)]
enum CharStorage {
    /// A raw 16 char string, held in the string itself.
    Inline([u8; 16]),
    /// A buffer of its own, owned by this string and by nothing else.
    Heap(Vec<u8>),
}

/// An escadra string is a variable length string.
/// If the max-length of the escadra string (without the null terminator)
/// exceeds 15 the string is stored in a buffer of its own.
/// Otherwise, the string is stored within the struct itself.
///
/// The string is always null terminated.
/// The `max_length` is 15 by default.
#[derive(Debug)]
pub struct EscadraString {
    /// The \[u8;16\] chars or the buffer, depending on if max_length is either 15 or more.
    string: CharStorage,
    /// The length of the currently stored string
    length: u64,
    /// The maximum length of the string.
    /// By default it's 15 (15 for the chars + 1 for the null terminator
    /// completely filling up the default 16 char buffer).
    max_length: u64,
}

impl View for EscadraString {
    type V = Seq<char>;

    /// The text that the string holds.
    open spec fn view(&self) -> Seq<char> {
        decode_utf8(self.bytes())
    }
}

impl EscadraString {
    /// The bytes of the active storage, terminator and unused tail included.
    pub closed spec fn storage(&self) -> Seq<u8> {
        match self.string {
            CharStorage::Inline(chars) => chars@,
            CharStorage::Heap(buffer) => buffer@,
        }
    }

    /// The content: the first `length` bytes of the storage.
    pub closed spec fn bytes(&self) -> Seq<u8> {
        self.storage().subrange(0, self.length as int)
    }

    /// The longest content that the storage can take as it is.
    pub closed spec fn capacity(&self) -> nat {
        self.max_length as nat
    }

    /// Whether the content is held in the string itself.
    pub closed spec fn spec_is_inline(&self) -> bool {
        self.string is Inline
    }

    /// What holds of every escadra string.
    #[verifier::type_invariant]
    pub closed spec fn wf(&self) -> bool {
        &&& self.length <= self.max_length
        &&& self.length <= isize::MAX
        &&& self.storage().len() == self.max_length + 1
        &&& self.is_inline() <==> self.max_length == INLINE_CAPACITY
        &&& self.max_length >= INLINE_CAPACITY
        &&& self.storage()[self.length as int] == 0
        &&& valid_utf8(self.bytes())
    }

    /// An empty string as `new` makes it: no content, held inline, in
    /// chars that are all zero.
    pub open spec fn is_new(&self) -> bool {
        &&& self.is_inline()
        &&& self.capacity() == INLINE_CAPACITY
        &&& self.storage() == zeros(16)
        &&& self.bytes() == Seq::<u8>::empty()
    }

    /// What `set_string` makes of `self` when it is given `text`: `after`
    /// holds the text; it is inline only where `self` was and the text is at
    /// most 15 bytes long, and else has the capacity that the growth rule
    /// reaches from that of `self`; its storage is the content followed by
    /// zeros, the first of them the terminator.
    pub open spec fn set_to(&self, text: Seq<char>, after: &EscadraString) -> bool {
        let content = encode_utf8(text);
        &&& after.bytes() == content
        &&& after.is_inline() <==> self.is_inline() && content.len() <= INLINE_CAPACITY
        &&& after.capacity() == if after.is_inline() {
            INLINE_CAPACITY as nat
        } else {
            grown_capacity(self.capacity(), content.len())
        }
        &&& after.storage() == content + zeros(after.capacity() + 1 - content.len())
    }

    /// A string as `new` and then `set_string` with `text` make it.
    pub open spec fn is_made_of(&self, text: Seq<char>) -> bool {
        let content = encode_utf8(text);
        &&& self.bytes() == content
        &&& self.is_inline() <==> content.len() <= INLINE_CAPACITY
        &&& self.capacity() == grown_capacity(INLINE_CAPACITY as nat, content.len())
        &&& self.storage() == content + zeros(self.capacity() + 1 - content.len())
    }

    /// Creates an empty Escadra string.
    pub fn new() -> (es: Self)
        ensures
            es.wf(),
            es.is_new(),
            es@ == Seq::<char>::empty(),
    {
        let es = Self { string: CharStorage::Inline([0u8;16]), length: 0, max_length: 15 };
        assert(es.storage() =~= zeros(16));
        assert(es.bytes() =~= Seq::<u8>::empty());
        es
    }

    /// Writes the given string into the `EscadraString`.
    ///
    /// A string that is held in a buffer of its own stays in one, however
    /// short the new content is: the buffer is replaced by one of the size
    /// that the growth rule gives, never by the inline chars.
    pub fn set_string(&mut self, string: &String)
        requires
            encode_utf8(string@).len() <= isize::MAX,
        ensures
            final(self).wf(),
            old(self).set_to(string@, final(self)),
            final(self)@ == string@,
            final(self).storage()[encode_utf8(string@).len() as int] == 0,
    {
        broadcast use {encode_utf8_valid_utf8, encode_utf8_decode_utf8};

        proof {
            use_type_invariant(&*self);
        }
        let content = string.as_str().as_bytes();
        let len: usize = content.len();
        let ghost capacity = self.capacity();
        let held: usize = match &self.string {
            CharStorage::Inline(_) => INLINE_SIZE,
            CharStorage::Heap(buffer) => buffer.len(),
        };
        if self.max_length > INLINE_CAPACITY || len > 15 {
            let mut size: usize = held;
            while size <= len
                invariant
                    len <= isize::MAX,
                    size >= 16,
                    grown_capacity((size - 1) as nat, len as nat) == grown_capacity(
                        capacity,
                        len as nat,
                    ),
                decreases
                        (if size <= len {
                            len + 1 - size
                        } else {
                            0
                        }),
            {
                size = size * 2;
            }
            let mut buffer: Vec<u8> = Vec::with_capacity(size);
            buffer.extend_from_slice(content);
            buffer.resize(size, 0u8);
            assert(buffer@ =~= content@ + zeros(size - len)) by {
                assert forall|i: int| 0 <= i < len implies buffer@[i] == content@[i] by {
                    assert(buffer@.subrange(0, len as int)[i] == buffer@[i]);
                }
            }
            assert(buffer@.subrange(0, len as int) =~= content@);
            *self = EscadraString {
                string: CharStorage::Heap(buffer),
                length: len as u64,
                max_length: (size - 1) as u64,
            };
        } else {
            let mut chars = [0u8;16];
            let mut i: usize = 0;
            while i < len
                invariant
                    i <= len <= 15,
                    len == content@.len(),
                    chars@ =~= content@.subrange(0, i as int) + zeros(16 - i),
                decreases len - i,
            {
                chars[i] = content[i];
                i = i + 1;
            }
            assert(chars@ =~= content@ + zeros(16 - len));
            assert(chars@.subrange(0, len as int) =~= content@);
            *self = EscadraString {
                string: CharStorage::Inline(chars),
                length: len as u64,
                max_length: 15,
            };
        }
    }

    /// Writes the given string into the `EscadraString` where a buffer for it
    /// can be had, and leaves the `EscadraString` as it is where none can:
    /// no buffer is larger than `isize::MAX` bytes.
    pub fn try_set_string(&mut self, string: &String) -> (result: Result<(), AllocationFailure>)
        ensures
            result is Ok <==> encode_utf8(string@).len() <= isize::MAX,
            result is Ok ==> final(self).wf() && old(self).set_to(string@, final(self))
                && final(self)@ == string@,
            result is Err ==> *final(self) == *old(self),
    {
        if string.as_str().as_bytes().len() <= isize::MAX as usize {
            self.set_string(string);
            Ok(())
        } else {
            Err(AllocationFailure {  })
        }
    }

    /// Returns the string inside of the `EscadraString`.
    ///
    /// Every `EscadraString` holds valid text, so that there is nothing to
    /// fail on: content that is no text is refused where it would come in,
    /// by `unpack`.
    pub fn get_string(&self) -> (string: &str)
        ensures
            string@ == self@,
            string.spec_bytes() == self.bytes(),
    {
        broadcast use encode_utf8_decode_utf8;

        proof {
            use_type_invariant(self);
        }
        let content = match &self.string {
            CharStorage::Inline(chars) => slice_subrange(chars.as_slice(), 0, self.length as usize),
            CharStorage::Heap(buffer) => slice_subrange(buffer.as_slice(), 0, self.length as usize),
        };
        core::str::from_utf8(content).unwrap()
    }

    /// The length of the currently stored string, in bytes.
    pub fn length(&self) -> (length: u64)
        ensures
            length == self.bytes().len(),
    {
        proof {
            use_type_invariant(self);
        }
        self.length
    }

    /// The maximum length of the string, which is 15 for as long as it is
    /// held in the string itself.
    pub fn max_length(&self) -> (max_length: u64)
        ensures
            max_length == self.capacity(),
    {
        self.max_length
    }

    /// Whether the content is held in the string itself.
    #[verifier::when_used_as_spec(spec_is_inline)]
    pub fn is_inline(&self) -> (inline: bool)
        ensures
            inline == self.spec_is_inline(),
    {
        match &self.string {
            CharStorage::Inline(_) => true,
            CharStorage::Heap(_) => false,
        }
    }

    /// The content of the string as bytes, without the terminator.
    pub fn as_bytes(&self) -> (bytes: &[u8])
        ensures
            bytes@ == self.bytes(),
    {
        proof {
            use_type_invariant(self);
        }
        slice_subrange(self.storage_bytes(), 0, self.length as usize)
    }

    /// The bytes of the active storage: the content, its terminator, and
    /// what the capacity leaves unused.
    pub fn storage_bytes(&self) -> (storage: &[u8])
        ensures
            storage@ == self.storage(),
    {
        match &self.string {
            CharStorage::Inline(chars) => chars.as_slice(),
            CharStorage::Heap(buffer) => buffer.as_slice(),
        }
    }
}

/// What holds of every escadra string: the content fits the capacity and
/// is valid UTF-8, the encoding of the text; the storage is one byte larger
/// than the capacity, which is 15 exactly where the string is held inline;
/// and the byte that follows the content in the storage is the terminator.
pub proof fn lemma_invariants(es: EscadraString)
    requires
        es.wf(),
    ensures
        es.bytes().len() <= es.capacity(),
        es.bytes().len() <= isize::MAX,
        es.bytes() == es.storage().subrange(0, es.bytes().len() as int),
        es.bytes() == encode_utf8(es@),
        valid_utf8(es.bytes()),
        es.storage().len() == es.capacity() + 1,
        es.storage()[es.bytes().len() as int] == 0,
        INLINE_CAPACITY <= es.capacity() <= u64::MAX,
        es.is_inline() <==> es.capacity() == INLINE_CAPACITY,
{
    broadcast use decode_utf8_encode_utf8;
}

impl Default for EscadraString {
    fn default() -> (es: Self)
        ensures
            es.wf(),
            es.is_new(),
            es@ == Seq::<char>::empty(),
    {
        Self::new()
    }
}

impl Clone for EscadraString {
    /// A copy that owns its storage: it is made of the text alone, as `new`
    /// and `set_string` make it, whatever the capacity of `self` is.
    fn clone(&self) -> (es: Self)
        ensures
            es.wf(),
            es.is_made_of(self@),
            es@ == self@,
            es.bytes() == self.bytes(),
    {
        proof {
            use_type_invariant(self);
        }
        let string = self.get_string().to_owned();
        let mut es = EscadraString::new();
        es.set_string(&string);
        es
    }
}

impl From<String> for EscadraString {
    /// The string that holds `value`. No `String` is longer than
    /// `isize::MAX` bytes; one that were would give the empty string.
    fn from(value: String) -> (es: Self)
        ensures
            es.wf(),
            encode_utf8(value@).len() <= isize::MAX ==> es.is_made_of(value@) && es@ == value@,
            encode_utf8(value@).len() > isize::MAX ==> es.is_new(),
    {
        let mut es = EscadraString::new();
        let _ = es.try_set_string(&value);
        es
    }
}

impl vstd::std_specs::convert::FromSpecImpl<String> for EscadraString {
    open spec fn obeys_from_spec() -> bool {
        false
    }

    open spec fn from_spec(value: String) -> Self {
        arbitrary()
    }
}

impl<'a> From<&'a str> for EscadraString {
    /// The string that holds `value`. No `str` is longer than `isize::MAX`
    /// bytes; one that were would give the empty string.
    fn from(value: &'a str) -> (es: Self)
        ensures
            es.wf(),
            encode_utf8(value@).len() <= isize::MAX ==> es.is_made_of(value@) && es@ == value@,
            encode_utf8(value@).len() > isize::MAX ==> es.is_new(),
    {
        let mut es = EscadraString::new();
        let _ = es.try_set_string(&value.to_owned());
        es
    }
}

impl<'a> vstd::std_specs::convert::FromSpecImpl<&'a str> for EscadraString {
    open spec fn obeys_from_spec() -> bool {
        false
    }

    open spec fn from_spec(value: &'a str) -> Self {
        arbitrary()
    }
}

impl From<EscadraString> for String {
    /// The text that `val` holds.
    fn from(val: EscadraString) -> (string: Self)
        ensures
            string@ == val@,
    {
        val.get_string().to_owned()
    }
}

impl vstd::std_specs::convert::FromSpecImpl<EscadraString> for String {
    open spec fn obeys_from_spec() -> bool {
        false
    }

    open spec fn from_spec(val: EscadraString) -> Self {
        arbitrary()
    }
}

impl PartialEq for EscadraString {
    /// Two strings are equal where they hold the same content, however each
    /// of them holds it.
    fn eq(&self, other: &Self) -> (equal: bool) {
        match compare_bytes(self.as_bytes(), other.as_bytes()) {
            Lexical::Equal => true,
            _ => false,
        }
    }
}

impl vstd::std_specs::cmp::PartialEqSpecImpl for EscadraString {
    open spec fn obeys_eq_spec() -> bool {
        true
    }

    open spec fn eq_spec(&self, other: &Self) -> bool {
        self.bytes() == other.bytes()
    }
}

impl Eq for EscadraString {
}

impl PartialOrd for EscadraString {
    /// Strings are ordered by their content, byte by byte.
    fn partial_cmp(&self, other: &Self) -> (order: Option<Ordering>) {
        match compare_bytes(self.as_bytes(), other.as_bytes()) {
            Lexical::Before => Some(Ordering::Less),
            Lexical::Equal => Some(Ordering::Equal),
            Lexical::After => Some(Ordering::Greater),
        }
    }
}

impl vstd::std_specs::cmp::PartialOrdSpecImpl for EscadraString {
    open spec fn obeys_partial_cmp_spec() -> bool {
        true
    }

    open spec fn partial_cmp_spec(&self, other: &Self) -> Option<Ordering> {
        match lexical_order(self.bytes(), other.bytes()) {
            Lexical::Before => Some(Ordering::Less),
            Lexical::Equal => Some(Ordering::Equal),
            Lexical::After => Some(Ordering::Greater),
        }
    }
}

impl Hash for EscadraString {
    /// Feeds the text of the string to `state`, so that two strings that
    /// hold the same text are hashed alike, however each of them holds it.
    fn hash<H: Hasher>(&self, state: &mut H) {
        hash_text(self.get_string(), state);
    }
}

/// `Hash::hash` of `str`: feeds `text` to `state`. Nothing is stated of what
/// it does to `state`, which is of whatever type the caller hashes with.
#[verifier::external_body]
fn hash_text<H: Hasher>(text: &str, state: &mut H) {
    text.hash(state);
}

/// The length that a record gives for its string.
pub open spec fn record_length(record: Seq<u8>) -> u64 {
    spec_u64_from_le_bytes(record.subrange(16, 24))
}

/// The maximum length that a record gives for its string.
pub open spec fn record_max_length(record: Seq<u8>) -> u64 {
    spec_u64_from_le_bytes(record.subrange(24, 32))
}

/// Where a record says the buffer of its string is. This means something
/// only where the maximum length is above 15.
pub open spec fn record_pointer(record: Seq<u8>) -> u64 {
    spec_u64_from_le_bytes(record.subrange(0, 8))
}

/// The storage of the string of a record: its first 16 bytes where the
/// maximum length is 15, and else `buffer`, what its pointer leads to.
pub open spec fn record_storage(record: Seq<u8>, buffer: Seq<u8>) -> Seq<u8> {
    if record_max_length(record) == INLINE_CAPACITY {
        record.subrange(0, 16)
    } else {
        buffer
    }
}

/// The first rule of the layout that a record of 32 bytes breaks, if it
/// breaks one.
pub open spec fn record_fault(record: Seq<u8>, buffer: Seq<u8>) -> Option<DecodeError> {
    let length = record_length(record);
    let max_length = record_max_length(record);
    let storage = record_storage(record, buffer);
    if max_length < INLINE_CAPACITY {
        Some(DecodeError::MaxLength)
    } else if length > max_length || length > isize::MAX {
        Some(DecodeError::Length)
    } else if storage.len() != max_length + 1 {
        Some(DecodeError::Buffer)
    } else if storage[length as int] != 0 {
        Some(DecodeError::Terminator)
    } else if !valid_utf8(storage.subrange(0, length as int)) {
        Some(DecodeError::Text)
    } else {
        None
    }
}

impl EscadraString {
    /// The 32 bytes that stand for the string in a record of the game: the
    /// inline chars, or `pointer`, the place of the buffer, and 8 bytes that
    /// mean nothing, which are zero here; then the length; then the maximum
    /// length.
    pub open spec fn record(&self, pointer: u64) -> Seq<u8> {
        let region = if self.is_inline() {
            self.storage()
        } else {
            spec_u64_to_le_bytes(pointer) + zeros(8)
        };
        region + spec_u64_to_le_bytes(self.bytes().len() as u64) + spec_u64_to_le_bytes(
            self.capacity() as u64,
        )
    }

    /// Whether the string is what the 32 bytes of `record` stand for, with
    /// `buffer` for what their pointer leads to: it has the maximum length
    /// and the length that the record gives, and its storage is the first 16
    /// bytes of the record or the buffer.
    pub open spec fn is_unpacked_from(&self, record: Seq<u8>, buffer: Seq<u8>) -> bool {
        &&& self.wf()
        &&& self.capacity() == record_max_length(record)
        &&& self.is_inline() <==> record_max_length(record) == INLINE_CAPACITY
        &&& self.storage() == record_storage(record, buffer)
        &&& self.bytes() == record_storage(record, buffer).subrange(
            0,
            record_length(record) as int,
        )
    }

    /// Writes the string as the 32 bytes that stand for it in a record of the
    /// game. `pointer` is where the buffer of the string is to be found by
    /// whoever reads the record; it is not written for a string that is held
    /// inline.
    pub fn pack(&self, pointer: u64) -> (record: [u8; 32])
        ensures
            record@ == self.record(pointer),
    {
        proof {
            use_type_invariant(self);
        }
        let mut record = [0u8;32];
        match &self.string {
            CharStorage::Inline(chars) => {
                put(&mut record, 0, chars.as_slice());
            },
            CharStorage::Heap(_) => {
                put(&mut record, 0, u64_to_le_bytes(pointer).as_slice());
            },
        }
        put(&mut record, 16, u64_to_le_bytes(self.length).as_slice());
        put(&mut record, 24, u64_to_le_bytes(self.max_length).as_slice());
        record
    }

    /// Where the record says the buffer of its string is, and how many bytes
    /// the buffer has: one more than the maximum length. `None` for a record
    /// that holds its string inline, and for one whose maximum length no
    /// string can have.
    pub fn buffer_of(record: &[u8; 32]) -> (place: Option<(u64, u64)>)
        ensures
            place == if INLINE_CAPACITY < record_max_length(record@) < u64::MAX {
                Some((record_pointer(record@), (record_max_length(record@) + 1) as u64))
            } else {
                None
            },
    {
        let max_length: u64 = u64_from_le_bytes(slice_subrange(record.as_slice(), 24, 32));
        if INLINE_CAPACITY < max_length && max_length < u64::MAX {
            Some((u64_from_le_bytes(slice_subrange(record.as_slice(), 0, 8)), max_length + 1))
        } else {
            None
        }
    }

    /// Reads the string that the 32 bytes of `record` stand for. `buffer` is
    /// what the pointer of the record leads to, all the bytes that
    /// `buffer_of` asks for; it is not looked at where the record holds the
    /// string inline. The string that is returned holds a copy of it.
    ///
    /// A record that breaks one of the rules of the layout holds no string:
    /// the error is the first rule, in the order of `DecodeError`, that it
    /// breaks.
    pub fn unpack(record: &[u8; 32], buffer: &[u8]) -> (result: Result<EscadraString, DecodeError>)
        ensures
            match result {
                Ok(es) => record_fault(record@, buffer@) is None && es.is_unpacked_from(
                    record@,
                    buffer@,
                ),
                Err(fault) => record_fault(record@, buffer@) == Some(fault),
            },
    {
        let length: u64 = u64_from_le_bytes(slice_subrange(record.as_slice(), 16, 24));
        let max_length: u64 = u64_from_le_bytes(slice_subrange(record.as_slice(), 24, 32));
        if max_length < INLINE_CAPACITY {
            return Err(DecodeError::MaxLength);
        }
        if length > max_length || length > isize::MAX as u64 {
            return Err(DecodeError::Length);
        }
        let inline = max_length == INLINE_CAPACITY;
        let storage = if inline {
            slice_subrange(record.as_slice(), 0, 16)
        } else {
            buffer
        };
        if storage.len() as u64 <= max_length || storage.len() as u64 - 1 != max_length {
            return Err(DecodeError::Buffer);
        }
        if storage[length as usize] != 0 {
            return Err(DecodeError::Terminator);
        }
        if core::str::from_utf8(slice_subrange(storage, 0, length as usize)).is_err() {
            return Err(DecodeError::Text);
        }
        let string = if inline {
            let mut chars = [0u8;16];
            put(&mut chars, 0, storage);
            CharStorage::Inline(chars)
        } else {
            CharStorage::Heap(slice_to_vec(storage))
        };
        Ok(EscadraString { string, length, max_length })
    }
}

impl EscadraString {
    /// What `{:?}` shows of the string: the text in quotes, the length and
    /// the maximum length. `quoted` is the text in quotes.
    pub open spec fn debug_text_with(&self, quoted: Seq<char>) -> Seq<char> {
        "EscadraString { string: "@ + quoted + ", length: "@ + decimal_text(self.bytes().len())
            + ", max_length: "@ + decimal_text(self.capacity()) + " }"@
    }

    /// What `{:?}` shows of the string.
    pub open spec fn debug_text(&self) -> Seq<char> {
        self.debug_text_with(quoted_text(self@))
    }

    /// Writes what `{:?}` shows of the string, given `quoted`, its text in
    /// quotes.
    pub fn debug_string_with(&self, quoted: &str) -> (shown: String)
        ensures
            shown@ == self.debug_text_with(quoted@),
    {
        let mut shown = "EscadraString { string: ".to_owned();
        shown.append(quoted);
        shown.append(", length: ");
        shown.append(decimal(self.length()).as_str());
        shown.append(", max_length: ");
        shown.append(decimal(self.max_length()).as_str());
        shown.append(" }");
        shown
    }

    /// Writes what `{:?}` shows of the string.
    pub fn debug_string(&self) -> (shown: String)
        ensures
            shown@ == self.debug_text(),
    {
        self.debug_string_with(quoted(self.get_string()).as_str())
    }
}

/// A text as `{:?}` shows a `str`.
pub uninterp spec fn quoted_text(text: Seq<char>) -> Seq<char>;

/// `Debug` of `str`, through `format!`: the text between double quotes, in
/// which the characters that would not show, the double quote and the
/// backslash are written as escapes.
#[verifier::external_body]
fn quoted(text: &str) -> (quoted: String)
    ensures
        quoted@ == quoted_text(text@),
{
    format!("{:?}", text)
}

/// The error of `core::str::from_utf8`; nothing is read from it.
#[verifier::external_type_specification]
#[verifier::external_body]
pub struct ExUtf8Error(core::str::Utf8Error);

/// `core::str::from_utf8` accepts exactly the byte sequences that are valid
/// UTF-8, and the string slice that it returns on success is made of the
/// bytes that it was given.
pub assume_specification[ core::str::from_utf8 ](v: &[u8]) -> (r: Result<
    &str,
    core::str::Utf8Error,
>)
    ensures
        r is Ok <==> valid_utf8(v@),
        r matches Ok(s) ==> s.spec_bytes() == v@,
;
} // verus!
