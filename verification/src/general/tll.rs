//! Defines the data type for the TLL (triply linked list) type

use crate::general::escadra_string::{record_fault, DecodeError, EscadraString};
use crate::general::record::put;
use crate::general::text::{
    decimal, decimal_text, flag, flag_text, indent, indent_text, labelled, link, link_text, pointer,
    pointer_text, texts,
};
use std::collections::{HashMap, HashSet};
use vstd::bytes::*;
use vstd::prelude::*;
use vstd::slice::*;
use vstd::string::*;

verus! {

/// Struct used when exploring the TLL.
/// It holds the a, b, and c links for a given TLL.
#[derive(Debug, Clone, Copy, PartialEq, Eq)]
pub struct TLLRef {
    /// The a link for the TLL.
    pub a: Option<usize>,
    /// The b link for the TLL.
    pub b: Option<usize>,
    /// The c link for the TLL.
    pub c: Option<usize>,
}

/// Represents an element in a triply linked list.
/// The only current known use is to hold Airplane loadout information and for
/// keyboard input information.
///
/// The elements of a list stand in one slice, and a link is the position of
/// another element in it, or `None`. A link to a position past the end of
/// the slice leads nowhere.
#[derive(Debug)]
pub struct TLL {
    /// The a link.
    pub a: Option<usize>,
    /// The b link.
    pub b: Option<usize>,
    /// The c link.
    pub c: Option<usize>,
    /// Whether the list ends with the element.
    pub end: bool,
    /// A flag of unknown purpose.
    pub flag: bool,
    /// Two bytes that the game leaves unused.
    pub padding_1ah: u16,
    /// The index of the element.
    pub index: u32,
    /// String held by the TLL.
    pub string: EscadraString,
    /// A value of unknown purpose.
    pub unknown_40h: u32,
    /// Four bytes that the game leaves unused.
    pub padding_44h: u32,
    /// Where the first block of data of the element is.
    pub data1: u64,
    /// Where the second block of data of the element is.
    pub data2: u64,
    /// Where the third block of data of the element is.
    pub data3: u64,
}

/// Whether the element at `from` has a link to the element at `to`.
pub open spec fn points_to(nodes: Seq<TLL>, from: int, to: int) -> bool {
    &&& 0 <= from < nodes.len()
    &&& 0 <= to < nodes.len()
    &&& (nodes[from].a == Some(to as usize) || nodes[from].b == Some(to as usize) || nodes[from].c
        == Some(to as usize))
}

/// Whether the element at position `i` of `path` has a link to the next one.
pub open spec fn links_on(nodes: Seq<TLL>, path: Seq<int>, i: int) -> bool {
    points_to(nodes, path[i], path[i + 1])
}

/// Whether `path` leads through `nodes`: it starts at an element, and each
/// of its elements has a link to the next.
pub open spec fn is_path(nodes: Seq<TLL>, path: Seq<int>) -> bool {
    &&& path.len() > 0
    &&& 0 <= path[0] < nodes.len()
    &&& forall|i: int| 0 <= i < path.len() - 1 ==> #[trigger] links_on(nodes, path, i)
}

/// Whether links lead from the element at `from` to the element at `to`.
/// Every element is reached from itself.
pub open spec fn reachable(nodes: Seq<TLL>, from: int, to: int) -> bool {
    exists|path: Seq<int>| #[trigger] is_path(nodes, path) && path[0] == from && path.last() == to
}

/// Whether none of the elements of `path` after the first is in `avoid`.
pub open spec fn goes_past(path: Seq<int>, avoid: Set<usize>) -> bool {
    forall|i: int| 0 < i < path.len() ==> !avoid.contains((#[trigger] path[i]) as usize)
}

/// Whether links lead from the element at `from` to the element at `to`
/// past the elements in `avoid`: along a path that enters none of them.
/// Every element is reached from itself, whether it is in `avoid` or not.
pub open spec fn reachable_past(nodes: Seq<TLL>, from: int, to: int, avoid: Set<usize>) -> bool {
    exists|path: Seq<int>| #[trigger]
        is_path(nodes, path) && path[0] == from && path.last() == to && goes_past(path, avoid)
}

/// The pointer that stands for `link` in a record: the address of the
/// element that the link leads to, and zero for a link that leads nowhere.
/// `addresses` holds the address of each element, by its position.
pub open spec fn link_pointer(addresses: Seq<u64>, link: Option<usize>) -> u64 {
    match link {
        Some(to) => if to < addresses.len() {
            addresses[to as int]
        } else {
            0
        },
        None => 0,
    }
}

/// The a pointer of a record of 0x60 bytes where `which` is 0, the b pointer
/// where it is 1 and the c pointer where it is 2.
pub open spec fn record_link(record: Seq<u8>, which: int) -> u64 {
    spec_u64_from_le_bytes(record.subrange(8 * which, 8 * which + 8))
}

/// The byte that stands for a flag in a record.
pub open spec fn flag_byte(flag: bool) -> u8 {
    if flag {
        1
    } else {
        0
    }
}

/// What is printed for the element at `at`, at the depth `depth`, when the
/// elements in `seen` have been printed: the element itself, then what its a
/// link leads to, then its b link, then its c link, each one level deeper
/// and none twice. The result is what is printed, as pairs of a depth and a
/// position, and the elements that have been printed by then.
///
/// `fuel` is how many levels below this one are looked at. The elements of a
/// list that are not in `seen` can fill no more levels than there are of them.
pub open spec fn walk(nodes: Seq<TLL>, at: usize, depth: usize, seen: Set<usize>, fuel: nat) -> (
    Seq<(usize, usize)>,
    Set<usize>,
)
    decreases fuel, 1nat,
{
    let next = (depth + 1) as usize;
    let a = walk_link(nodes, nodes[at as int].a, next, seen.insert(at), fuel);
    let b = walk_link(nodes, nodes[at as int].b, next, a.1, fuel);
    let c = walk_link(nodes, nodes[at as int].c, next, b.1, fuel);
    (seq![(depth, at)] + a.0 + b.0 + c.0, c.1)
}

/// What is printed for the element that `link` leads to: nothing where it
/// leads nowhere or to an element in `seen`.
pub open spec fn walk_link(
    nodes: Seq<TLL>,
    link: Option<usize>,
    depth: usize,
    seen: Set<usize>,
    fuel: nat,
) -> (Seq<(usize, usize)>, Set<usize>)
    decreases fuel, 0nat,
{
    match link {
        Some(to) => if fuel > 0 && to < nodes.len() && !seen.contains(to) {
            walk(nodes, to, depth, seen, (fuel - 1) as nat)
        } else {
            (Seq::empty(), seen)
        },
        None => (Seq::empty(), seen),
    }
}

/// The lines that `print` writes for the elements of `listing`, one
/// element after the other.
pub open spec fn print_text(nodes: Seq<TLL>, listing: Seq<(usize, usize)>) -> Seq<Seq<char>>
    decreases listing.len(),
{
    if listing.len() == 0 {
        Seq::empty()
    } else {
        let (depth, at) = listing.last();
        print_text(nodes, listing.drop_last()) + nodes[at as int].print_element_text(
            depth,
            at,
            nodes[at as int].string.debug_text(),
        )
    }
}

/// Whether `listing` names the element at `at`.
pub open spec fn lists(listing: Seq<(usize, usize)>, at: usize) -> bool {
    exists|i: int| 0 <= i < listing.len() && (#[trigger] listing[i]).1 == at
}

/// Whether `listing` names no element twice.
pub open spec fn lists_once(listing: Seq<(usize, usize)>) -> bool {
    forall|i: int, j: int|
        0 <= i < j < listing.len() ==> (#[trigger] listing[i]).1 != (#[trigger] listing[j]).1
}

/// What `listing` lists for the list that starts at `root`: the elements
/// that links lead to from there, `root` first, each with its depth.
pub open spec fn listing_of(nodes: Seq<TLL>, root: usize) -> Seq<(usize, usize)> {
    if root < nodes.len() {
        walk(nodes, root, 0, Set::empty(), nodes.len()).0
    } else {
        Seq::empty()
    }
}

/// How many of the first `len` positions are not in `seen`.
spec fn unseen(len: nat, seen: Set<usize>) -> nat
    decreases len,
{
    if len == 0 {
        0
    } else {
        unseen((len - 1) as nat, seen) + if seen.contains((len - 1) as usize) {
            0nat
        } else {
            1nat
        }
    }
}

/// A position that is added to `seen` and is none of the first `len` leaves
/// their count as it is.
proof fn lemma_unseen_outside(len: nat, seen: Set<usize>, at: usize)
    requires
        at >= len,
    ensures
        unseen(len, seen.insert(at)) == unseen(len, seen),
    decreases len,
{
    if len > 0 {
        lemma_unseen_outside((len - 1) as nat, seen, at);
    }
}

/// A position among the first `len` that is added to `seen` makes one less
/// that is not in it.
proof fn lemma_unseen_insert(len: nat, seen: Set<usize>, at: usize)
    requires
        at < len <= usize::MAX,
        !seen.contains(at),
    ensures
        unseen(len, seen.insert(at)) + 1 == unseen(len, seen),
    decreases len,
{
    if at == len - 1 {
        lemma_unseen_outside((len - 1) as nat, seen, at);
    } else {
        lemma_unseen_insert((len - 1) as nat, seen, at);
    }
}

/// The more positions are in `seen`, the fewer are not.
proof fn lemma_unseen_subset(len: nat, fewer: Set<usize>, more: Set<usize>)
    requires
        fewer.subset_of(more),
    ensures
        unseen(len, more) <= unseen(len, fewer),
    decreases len,
{
    if len > 0 {
        lemma_unseen_subset((len - 1) as nat, fewer, more);
    }
}

/// A listing with one more entry names what it named and the element of
/// that entry.
proof fn lemma_lists_one_more(listing: Seq<(usize, usize)>, entry: (usize, usize))
    ensures
        forall|k: usize| #[trigger]
            lists(listing.push(entry), k) <==> lists(listing, k) || k == entry.1,
{
    let longer = listing.push(entry);
    assert forall|k: usize| #[trigger]
        lists(longer, k) <==> lists(listing, k) || k == entry.1 by {
        if lists(listing, k) {
            let i = choose|i: int| 0 <= i < listing.len() && (#[trigger] listing[i]).1 == k;
            assert(longer[i].1 == k);
        }
        if k == entry.1 {
            assert(longer[listing.len() as int].1 == k);
        }
        if lists(longer, k) {
            let i = choose|i: int| 0 <= i < longer.len() && (#[trigger] longer[i]).1 == k;
            if i < listing.len() {
            }
        }
    }
}

/// No more of the first `len` positions are not in `seen` than there are.
proof fn lemma_unseen_bound(len: nat, seen: Set<usize>)
    ensures
        unseen(len, seen) <= len,
    decreases len,
{
    if len > 0 {
        lemma_unseen_bound((len - 1) as nat, seen);
    }
}

/// Every element is reached from itself.
proof fn lemma_reachable_itself(nodes: Seq<TLL>, at: int)
    requires
        0 <= at < nodes.len(),
    ensures
        reachable(nodes, at, at),
{
    let path = seq![at];
    assert(is_path(nodes, path));
}

/// What an element that is reached points to is reached too.
proof fn lemma_reachable_step(nodes: Seq<TLL>, from: int, through: int, to: int)
    requires
        reachable(nodes, from, through),
        points_to(nodes, through, to),
    ensures
        reachable(nodes, from, to),
{
    let path = choose|path: Seq<int>| #[trigger]
        is_path(nodes, path) && path[0] == from && path.last() == through;
    let longer = path.push(to);
    assert forall|i: int| 0 <= i < longer.len() - 1 implies #[trigger] links_on(
        nodes,
        longer,
        i,
    ) by {
        if i < path.len() - 1 {
            assert(links_on(nodes, path, i));
        }
    }
    assert(is_path(nodes, longer));
}

/// A set of elements that holds `from`, and with each of its elements what
/// that one points to, holds every element that is reached from `from`.
proof fn lemma_closed_holds_reachable(nodes: Seq<TLL>, from: int, closed: Set<usize>, to: int)
    requires
        0 <= from < nodes.len() <= usize::MAX,
        closed.contains(from as usize),
        forall|m: usize, t: int| closed.contains(m) && #[trigger] points_to(nodes, m as int, t)
            ==> closed.contains(t as usize),
        reachable(nodes, from, to),
    ensures
        closed.contains(to as usize),
        0 <= to < nodes.len(),
{
    let path = choose|path: Seq<int>| #[trigger]
        is_path(nodes, path) && path[0] == from && path.last() == to;
    lemma_closed_holds_path(nodes, closed, path, path.len() - 1);
}

/// A set that is closed as above and holds the start of a path holds each
/// element of the path.
proof fn lemma_closed_holds_path(nodes: Seq<TLL>, closed: Set<usize>, path: Seq<int>, upto: int)
    requires
        nodes.len() <= usize::MAX,
        is_path(nodes, path),
        closed.contains(path[0] as usize),
        forall|m: usize, t: int| closed.contains(m) && #[trigger] points_to(nodes, m as int, t)
            ==> closed.contains(t as usize),
        0 <= upto < path.len(),
    ensures
        closed.contains(path[upto] as usize),
        0 <= path[upto] < nodes.len(),
    decreases upto,
{
    if upto > 0 {
        lemma_closed_holds_path(nodes, closed, path, upto - 1);
        assert(links_on(nodes, path, upto - 1));
    }
}

/// Every element is reached from itself past whatever is avoided.
proof fn lemma_past_itself(nodes: Seq<TLL>, at: int, avoid: Set<usize>)
    requires
        0 <= at < nodes.len(),
    ensures
        reachable_past(nodes, at, at, avoid),
{
    let path = seq![at];
    assert(is_path(nodes, path) && path[0] == at && path.last() == at && goes_past(path, avoid));
}

/// What is reached from an element past what is avoided is reached from an
/// element that points to that one, where that one is not avoided, past
/// no more.
proof fn lemma_past_through(
    nodes: Seq<TLL>,
    from: int,
    through: int,
    to: int,
    avoid: Set<usize>,
    fewer: Set<usize>,
)
    requires
        points_to(nodes, from, through),
        !avoid.contains(through as usize),
        fewer.subset_of(avoid),
        reachable_past(nodes, through, to, avoid),
    ensures
        reachable_past(nodes, from, to, fewer),
{
    let path = choose|path: Seq<int>| #[trigger]
        is_path(nodes, path) && path[0] == through && path.last() == to && goes_past(path, avoid);
    let longer = seq![from] + path;
    assert forall|i: int| 0 <= i < longer.len() - 1 implies #[trigger] links_on(
        nodes,
        longer,
        i,
    ) by {
        if i > 0 {
            assert(links_on(nodes, path, i - 1));
        }
    }
    assert forall|i: int| 0 < i < longer.len() implies !fewer.contains(
        (#[trigger] longer[i]) as usize,
    ) by {
    }
    assert(is_path(nodes, longer) && longer[0] == from && longer.last() == to && goes_past(
        longer,
        fewer,
    ));
}

/// A set that holds an element, and with each of its elements that is not
/// avoided what that one points to, holds each element of a path that
/// starts at the element and goes past what is avoided.
proof fn lemma_closed_holds_past_path(
    nodes: Seq<TLL>,
    avoid: Set<usize>,
    closed: Set<usize>,
    path: Seq<int>,
    upto: int,
)
    requires
        nodes.len() <= usize::MAX,
        is_path(nodes, path),
        goes_past(path, avoid),
        closed.contains(path[0] as usize),
        !avoid.contains(path[0] as usize),
        forall|m: usize, t: int|
            closed.contains(m) && !avoid.contains(m) && #[trigger] points_to(nodes, m as int, t)
                ==> closed.contains(t as usize),
        0 <= upto < path.len(),
    ensures
        closed.contains(path[upto] as usize),
        !avoid.contains(path[upto] as usize),
        0 <= path[upto] < nodes.len(),
    decreases upto,
{
    if upto > 0 {
        lemma_closed_holds_past_path(nodes, avoid, closed, path, upto - 1);
        assert(links_on(nodes, path, upto - 1));
    }
}

/// A set that is closed as above holds what is reached from its element past
/// what is avoided.
proof fn lemma_closed_holds_past(
    nodes: Seq<TLL>,
    from: int,
    avoid: Set<usize>,
    closed: Set<usize>,
    to: int,
)
    requires
        0 <= from < nodes.len() <= usize::MAX,
        closed.contains(from as usize),
        !avoid.contains(from as usize),
        forall|m: usize, t: int|
            closed.contains(m) && !avoid.contains(m) && #[trigger] points_to(nodes, m as int, t)
                ==> closed.contains(t as usize),
        reachable_past(nodes, from, to, avoid),
    ensures
        closed.contains(to as usize),
        0 <= to < nodes.len(),
{
    let path = choose|path: Seq<int>| #[trigger]
        is_path(nodes, path) && path[0] == from && path.last() == to && goes_past(path, avoid);
    lemma_closed_holds_past_path(nodes, avoid, closed, path, path.len() - 1);
}

impl TLL {
    /// The links of the element.
    pub open spec fn links(&self) -> TLLRef {
        TLLRef { a: self.a, b: self.b, c: self.c }
    }

    /// The 0x60 bytes that stand for the element in the memory of the game,
    /// field by field: the a, b and c pointers; `end` and `flag`, a byte
    /// each; `padding_1ah`; `index`; at 0x20 the record of the string; at
    /// 0x40 `unknown_40h`; `padding_44h`; and the places of the three blocks
    /// of data.
    pub open spec fn record(&self, addresses: Seq<u64>, string_pointer: u64) -> Seq<u8> {
        spec_u64_to_le_bytes(link_pointer(addresses, self.a)) + spec_u64_to_le_bytes(
            link_pointer(addresses, self.b),
        ) + spec_u64_to_le_bytes(link_pointer(addresses, self.c)) + seq![
            flag_byte(self.end),
            flag_byte(self.flag),
        ] + spec_u16_to_le_bytes(self.padding_1ah) + spec_u32_to_le_bytes(self.index)
            + self.string.record(string_pointer) + spec_u32_to_le_bytes(self.unknown_40h)
            + spec_u32_to_le_bytes(self.padding_44h) + spec_u64_to_le_bytes(self.data1)
            + spec_u64_to_le_bytes(self.data2) + spec_u64_to_le_bytes(self.data3)
    }

    /// Writes the element as the 0x60 bytes that stand for it in the memory
    /// of the game. `addresses` holds, by position, where each element of the
    /// list is to be found, and `string_pointer` where the buffer of the
    /// string of this one is.
    pub fn pack(&self, addresses: &[u64], string_pointer: u64) -> (record: [u8; 0x60])
        ensures
            record@ == self.record(addresses@, string_pointer),
    {
        let a = u64_to_le_bytes(Self::pointer_of(addresses, self.a));
        let b = u64_to_le_bytes(Self::pointer_of(addresses, self.b));
        let c = u64_to_le_bytes(Self::pointer_of(addresses, self.c));
        let flags = [
            if self.end {
                1u8
            } else {
                0u8
            },
            if self.flag {
                1u8
            } else {
                0u8
            },
        ];
        let padding_1ah = u16_to_le_bytes(self.padding_1ah);
        let index = u32_to_le_bytes(self.index);
        let string = self.string.pack(string_pointer);
        let unknown_40h = u32_to_le_bytes(self.unknown_40h);
        let padding_44h = u32_to_le_bytes(self.padding_44h);
        let data1 = u64_to_le_bytes(self.data1);
        let data2 = u64_to_le_bytes(self.data2);
        let data3 = u64_to_le_bytes(self.data3);
        let mut record = [0u8;0x60];
        put(&mut record, 0x00, a.as_slice());
        put(&mut record, 0x08, b.as_slice());
        put(&mut record, 0x10, c.as_slice());
        put(&mut record, 0x18, flags.as_slice());
        put(&mut record, 0x1a, padding_1ah.as_slice());
        put(&mut record, 0x1c, index.as_slice());
        put(&mut record, 0x20, string.as_slice());
        put(&mut record, 0x40, unknown_40h.as_slice());
        put(&mut record, 0x44, padding_44h.as_slice());
        put(&mut record, 0x48, data1.as_slice());
        put(&mut record, 0x50, data2.as_slice());
        put(&mut record, 0x58, data3.as_slice());
        record
    }

    /// Whether the element is what the 0x60 bytes of `record` stand for:
    /// each field is what the record holds at its place, a flag is set where
    /// its byte is not zero, and the string is what the 32 bytes at 0x20
    /// stand for, with `buffer` for what their pointer leads to. `links` is
    /// where the three pointers of the record lead, by position.
    pub open spec fn is_unpacked_from(
        &self,
        record: Seq<u8>,
        links: TLLRef,
        buffer: Seq<u8>,
    ) -> bool {
        &&& self.links() == links
        &&& self.end == (record[0x18] != 0)
        &&& self.flag == (record[0x19] != 0)
        &&& self.padding_1ah == spec_u16_from_le_bytes(record.subrange(0x1a, 0x1c))
        &&& self.index == spec_u32_from_le_bytes(record.subrange(0x1c, 0x20))
        &&& self.string.is_unpacked_from(record.subrange(0x20, 0x40), buffer)
        &&& self.unknown_40h == spec_u32_from_le_bytes(record.subrange(0x40, 0x44))
        &&& self.padding_44h == spec_u32_from_le_bytes(record.subrange(0x44, 0x48))
        &&& self.data1 == spec_u64_from_le_bytes(record.subrange(0x48, 0x50))
        &&& self.data2 == spec_u64_from_le_bytes(record.subrange(0x50, 0x58))
        &&& self.data3 == spec_u64_from_le_bytes(record.subrange(0x58, 0x60))
    }

    /// The a, b and c pointers of a record.
    pub fn pointers_of(record: &[u8; 0x60]) -> (pointers: (u64, u64, u64))
        ensures
            pointers == (
                record_link(record@, 0),
                record_link(record@, 1),
                record_link(record@, 2),
            ),
    {
        (
            u64_from_le_bytes(slice_subrange(record.as_slice(), 0x00, 0x08)),
            u64_from_le_bytes(slice_subrange(record.as_slice(), 0x08, 0x10)),
            u64_from_le_bytes(slice_subrange(record.as_slice(), 0x10, 0x18)),
        )
    }

    /// The 32 bytes that stand for the string in a record.
    pub fn string_of(record: &[u8; 0x60]) -> (string: [u8; 32])
        ensures
            string@ == record@.subrange(0x20, 0x40),
    {
        let mut string = [0u8;32];
        put(&mut string, 0, slice_subrange(record.as_slice(), 0x20, 0x40));
        string
    }

    /// Reads the element that the 0x60 bytes of `record` stand for. `links`
    /// is where its three pointers lead, by position, and `buffer` what the
    /// pointer of its string leads to. A record whose string breaks a rule
    /// of the layout holds no element.
    pub fn unpack(record: &[u8; 0x60], links: TLLRef, buffer: &[u8]) -> (result: Result<
        TLL,
        DecodeError,
    >)
        ensures
            match result {
                Ok(tll) => record_fault(record@.subrange(0x20, 0x40), buffer@) is None
                    && tll.is_unpacked_from(record@, links, buffer@),
                Err(fault) => record_fault(record@.subrange(0x20, 0x40), buffer@) == Some(fault),
            },
    {
        match EscadraString::unpack(&Self::string_of(record), buffer) {
            Ok(string) => Ok(Self::with_string(record, links, string)),
            Err(fault) => Err(fault),
        }
    }

    /// The element that the 0x60 bytes of `record` stand for, with the
    /// links and the string that have been read from them.
    pub(crate) fn with_string(record: &[u8; 0x60], links: TLLRef, string: EscadraString) -> (tll:
        TLL)
        ensures
            tll.links() == links,
            tll.string == string,
            forall|buffer: Seq<u8>|
                string.is_unpacked_from(record@.subrange(0x20, 0x40), buffer)
                    ==> #[trigger] tll.is_unpacked_from(record@, links, buffer),
    {
        let bytes = record.as_slice();
        TLL {
            a: links.a,
            b: links.b,
            c: links.c,
            end: record[0x18] != 0,
            flag: record[0x19] != 0,
            padding_1ah: u16_from_le_bytes(slice_subrange(bytes, 0x1a, 0x1c)),
            index: u32_from_le_bytes(slice_subrange(bytes, 0x1c, 0x20)),
            string,
            unknown_40h: u32_from_le_bytes(slice_subrange(bytes, 0x40, 0x44)),
            padding_44h: u32_from_le_bytes(slice_subrange(bytes, 0x44, 0x48)),
            data1: u64_from_le_bytes(slice_subrange(bytes, 0x48, 0x50)),
            data2: u64_from_le_bytes(slice_subrange(bytes, 0x50, 0x58)),
            data3: u64_from_le_bytes(slice_subrange(bytes, 0x58, 0x60)),
        }
    }

    /// The pointer that stands for `link` in a record.
    fn pointer_of(addresses: &[u64], link: Option<usize>) -> (pointer: u64)
        ensures
            pointer == link_pointer(addresses@, link),
    {
        match link {
            Some(to) => if to < addresses.len() {
                addresses[to]
            } else {
                0
            },
            None => 0,
        }
    }

    /// What `explore_internal` keeps: what has been visited is reached from
    /// `root`, and the result holds the links of what has been visited.
    spec fn explored(
        nodes: Seq<TLL>,
        root: usize,
        visited: Set<usize>,
        result: Map<usize, TLLRef>,
    ) -> bool {
        &&& result.dom() == visited
        &&& forall|k: usize| #[trigger]
            visited.contains(k) ==> k < nodes.len() && reachable(nodes, root as int, k as int)
                && result[k] == nodes[k as int].links()
    }

    /// Explores a TLL from the element at `root`. Returns a Hashmap of the
    /// positions of the elements that links lead to from there, `root` itself
    /// among them, and their a, b, c links in a TLLRef.
    pub fn explore(nodes: &[TLL], root: usize) -> (result: HashMap<usize, TLLRef>)
        ensures
            forall|k: usize|
                result@.contains_key(k) <==> reachable(nodes@, root as int, k as int),
            forall|k: usize| #[trigger]
                result@.contains_key(k) ==> k < nodes@.len() && result@[k]
                    == nodes@[k as int].links(),
    {
        let mut visited: HashSet<usize> = HashSet::new();
        let mut result: HashMap<usize, TLLRef> = HashMap::new();
        if root < nodes.len() {
            proof {
                lemma_reachable_itself(nodes@, root as int);
            }
            Self::explore_internal(nodes, root, &mut visited, &mut result, Ghost(root));
        } else {
            assert forall|k: usize| !reachable(nodes@, root as int, k as int) by {
                if reachable(nodes@, root as int, k as int) {
                    let path = choose|path: Seq<int>| #[trigger]
                        is_path(nodes@, path) && path[0] == root && path.last() == k;
                }
            }
        }
        result
    }

    /// Internal function to explore the TLL, avoiding already visited
    /// elements: visits the element at `at` and what links lead to from it
    /// past the visited elements, and nothing else, and leaves what the
    /// result held as it was.
    fn explore_internal(
        nodes: &[TLL],
        at: usize,
        visited: &mut HashSet<usize>,
        result: &mut HashMap<usize, TLLRef>,
        Ghost(root): Ghost<usize>,
    )
        requires
            at < nodes@.len(),
            !old(visited)@.contains(at),
            reachable(nodes@, root as int, at as int),
            Self::explored(nodes@, root, old(visited)@, old(result)@),
        ensures
            Self::explored(nodes@, root, final(visited)@, final(result)@),
            final(visited)@.contains(at),
            forall|k: usize|
                final(visited)@.contains(k) <==> old(visited)@.contains(k) || reachable_past(
                    nodes@,
                    at as int,
                    k as int,
                    old(visited)@,
                ),
            forall|k: usize|
                old(result)@.contains_key(k) ==> #[trigger] final(result)@[k] == old(result)@[k],
            forall|m: usize, t: int|
                final(visited)@.contains(m) && !old(visited)@.contains(m) && #[trigger] points_to(
                    nodes@,
                    m as int,
                    t,
                ) ==> final(visited)@.contains(t as usize),
        decreases unseen(nodes@.len(), old(visited)@), 1nat,
    {
        let ghost before = visited@;
        let node = &nodes[at];
        visited.insert(at);
        result.insert(at, TLLRef { a: node.a, b: node.b, c: node.c });
        Self::explore_link(nodes, at, node.a, visited, result, Ghost(root), Ghost(before));
        Self::explore_link(nodes, at, node.b, visited, result, Ghost(root), Ghost(before));
        Self::explore_link(nodes, at, node.c, visited, result, Ghost(root), Ghost(before));
        proof {
            lemma_past_itself(nodes@, at as int, before);
            assert forall|k: usize|
                reachable_past(nodes@, at as int, k as int, before) implies visited@.contains(
                k,
            ) by {
                lemma_closed_holds_past(nodes@, at as int, before, visited@, k as int);
            }
        }
    }

    /// Recursively prints the TLL at `root` and all of its children: returns
    /// the lines to write, for each element of the listing the 15 lines that
    /// show it, indented by its depth.
    pub fn print(nodes: &[TLL], root: usize) -> (lines: Vec<String>)
        ensures
            texts(lines@) == print_text(nodes@, listing_of(nodes@, root)),
    {
        let listing = Self::listing(nodes, root);
        let mut lines: Vec<String> = Vec::new();
        let mut i: usize = 0;
        while i < listing.len()
            invariant
                i <= listing@.len(),
                forall|j: int| 0 <= j < listing@.len() ==> (#[trigger] listing@[j]).1 < nodes@.len(),
                texts(lines@) == print_text(nodes@, listing@.take(i as int)),
            decreases listing@.len() - i,
        {
            let depth: usize = listing[i].0;
            let at: usize = listing[i].1;
            let string = nodes[at].string.debug_string();
            let mut element = nodes[at].print_element_with(depth, at, string.as_str());
            proof {
                assert(listing@.take(i + 1).drop_last() =~= listing@.take(i as int));
            }
            lines.append(&mut element);
            i = i + 1;
        }
        assert(listing@.take(i as int) =~= listing@);
        lines
    }

    /// The 15 lines that `print` writes for the element, which stands at
    /// the position `at` and at the depth `depth`. `string` is what `{:?}`
    /// shows of its string.
    pub open spec fn print_element_text(&self, depth: usize, at: usize, string: Seq<char>) -> Seq<
        Seq<char>,
    > {
        let indent = indent_text(depth as nat);
        seq![
            indent + "TLL "@ + decimal_text(at as nat) + " {"@,
            indent + "  a: "@ + link_text(self.a),
            indent + "  b: "@ + link_text(self.b),
            indent + "  c: "@ + link_text(self.c),
            indent + "  end: "@ + flag_text(self.end),
            indent + "  flag: "@ + flag_text(self.flag),
            indent + "  padding_1ah: "@ + decimal_text(self.padding_1ah as nat),
            indent + "  index: "@ + decimal_text(self.index as nat),
            indent + "  string: "@ + string,
            indent + "  unknown_40h: "@ + decimal_text(self.unknown_40h as nat),
            indent + "  padding_44h: "@ + decimal_text(self.padding_44h as nat),
            indent + "  data1: "@ + pointer_text(self.data1),
            indent + "  data2: "@ + pointer_text(self.data2),
            indent + "  data3: "@ + pointer_text(self.data3),
            indent + "}"@,
        ]
    }

    /// Writes the 15 lines that `print` writes for the element, which stands
    /// at the position `at` and at the depth `depth`. `string` is what `{:?}`
    /// shows of its string.
    pub fn print_element_with(&self, depth: usize, at: usize, string: &str) -> (lines: Vec<String>)
        ensures
            texts(lines@) == self.print_element_text(depth, at, string@),
    {
        let indent = indent(depth);
        let indent = indent.as_str();
        let mut first = labelled(indent, "TLL ", decimal(at as u64).as_str());
        first.append(" {");
        let mut last = indent.to_owned();
        last.append("}");
        let mut lines: Vec<String> = Vec::new();
        lines.push(first);
        lines.push(labelled(indent, "  a: ", link(self.a).as_str()));
        lines.push(labelled(indent, "  b: ", link(self.b).as_str()));
        lines.push(labelled(indent, "  c: ", link(self.c).as_str()));
        lines.push(labelled(indent, "  end: ", flag(self.end)));
        lines.push(labelled(indent, "  flag: ", flag(self.flag)));
        lines.push(labelled(indent, "  padding_1ah: ", decimal(self.padding_1ah as u64).as_str()));
        lines.push(labelled(indent, "  index: ", decimal(self.index as u64).as_str()));
        lines.push(labelled(indent, "  string: ", string));
        lines.push(labelled(indent, "  unknown_40h: ", decimal(self.unknown_40h as u64).as_str()));
        lines.push(labelled(indent, "  padding_44h: ", decimal(self.padding_44h as u64).as_str()));
        lines.push(labelled(indent, "  data1: ", pointer(self.data1).as_str()));
        lines.push(labelled(indent, "  data2: ", pointer(self.data2).as_str()));
        lines.push(labelled(indent, "  data3: ", pointer(self.data3).as_str()));
        lines.push(last);
        lines
    }

    /// What `{:?}` shows of the element: its fields but for the links and
    /// the string.
    pub open spec fn debug_text(&self) -> Seq<char> {
        "TLL { end: "@ + flag_text(self.end) + ", flag: "@ + flag_text(self.flag)
            + ", padding_1ah: "@ + decimal_text(self.padding_1ah as nat) + ", index: "@
            + decimal_text(self.index as nat) + ", unknown_40h: "@ + decimal_text(
            self.unknown_40h as nat,
        ) + ", padding_44h: "@ + decimal_text(self.padding_44h as nat) + ", data1: "@
            + pointer_text(self.data1) + ", data2: "@ + pointer_text(self.data2) + ", data3: "@
            + pointer_text(self.data3) + " }"@
    }

    /// Writes what `{:?}` shows of the element.
    pub fn debug_string(&self) -> (shown: String)
        ensures
            shown@ == self.debug_text(),
    {
        let mut shown = "TLL { end: ".to_owned();
        shown.append(flag(self.end));
        shown.append(", flag: ");
        shown.append(flag(self.flag));
        shown.append(", padding_1ah: ");
        shown.append(decimal(self.padding_1ah as u64).as_str());
        shown.append(", index: ");
        shown.append(decimal(self.index as u64).as_str());
        shown.append(", unknown_40h: ");
        shown.append(decimal(self.unknown_40h as u64).as_str());
        shown.append(", padding_44h: ");
        shown.append(decimal(self.padding_44h as u64).as_str());
        shown.append(", data1: ");
        shown.append(pointer(self.data1).as_str());
        shown.append(", data2: ");
        shown.append(pointer(self.data2).as_str());
        shown.append(", data3: ");
        shown.append(pointer(self.data3).as_str());
        shown.append(" }");
        shown
    }

    /// Lists the TLL at `root` and all of its children in the order in which
    /// they are printed: each element that links lead to from the element at
    /// `root` once, as the pair of its depth and its position. An element
    /// stands before what its links lead to, and those stand one level
    /// deeper, in the order a, b, c.
    pub fn listing(nodes: &[TLL], root: usize) -> (listing: Vec<(usize, usize)>)
        ensures
            listing@ == listing_of(nodes@, root),
            forall|k: usize| lists(listing@, k) <==> reachable(nodes@, root as int, k as int),
            lists_once(listing@),
            forall|i: int| 0 <= i < listing@.len() ==> (#[trigger] listing@[i]).1 < nodes@.len(),
    {
        let mut listing: Vec<(usize, usize)> = Vec::new();
        if root < nodes.len() {
            let mut visited: HashSet<usize> = HashSet::new();
            proof {
                lemma_unseen_bound(nodes@.len(), visited@);
                lemma_reachable_itself(nodes@, root as int);
            }
            Self::print_internal(
                nodes,
                root,
                0,
                &mut visited,
                &mut listing,
                Ghost(nodes@.len()),
                Ghost(root),
            );
            assert forall|k: usize| reachable(nodes@, root as int, k as int) implies lists(
                listing@,
                k,
            ) by {
                lemma_closed_holds_reachable(nodes@, root as int, visited@, k as int);
            }
            assert forall|i: int| 0 <= i < listing@.len() implies (#[trigger] listing@[i]).1
                < nodes@.len() by {
                assert(lists(listing@, listing@[i].1));
            }
        } else {
            assert forall|k: usize| !reachable(nodes@, root as int, k as int) by {
                if reachable(nodes@, root as int, k as int) {
                    let path = choose|path: Seq<int>| #[trigger]
                        is_path(nodes@, path) && path[0] == root && path.last() == k;
                }
            }
        }
        listing
    }

    /// What `print_internal` keeps: what has been visited is what the
    /// listing names, each element once, and is reached from `root`.
    spec fn printed(
        nodes: Seq<TLL>,
        root: usize,
        visited: Set<usize>,
        listing: Seq<(usize, usize)>,
    ) -> bool {
        &&& forall|k: usize| #[trigger] visited.contains(k) ==> lists(listing, k)
        &&& forall|k: usize| #[trigger] lists(listing, k) ==> visited.contains(k)
        &&& lists_once(listing)
        &&& forall|k: usize| #[trigger]
            visited.contains(k) ==> k < nodes.len() && reachable(nodes, root as int, k as int)
    }

    /// Internal function to list the TLL, avoiding already visited elements.
    fn print_internal(
        nodes: &[TLL],
        at: usize,
        depth: usize,
        visited: &mut HashSet<usize>,
        listing: &mut Vec<(usize, usize)>,
        Ghost(fuel): Ghost<nat>,
        Ghost(root): Ghost<usize>,
    )
        requires
            at < nodes@.len(),
            !old(visited)@.contains(at),
            unseen(nodes@.len(), old(visited)@) <= fuel + 1,
            depth + unseen(nodes@.len(), old(visited)@) <= nodes@.len(),
            reachable(nodes@, root as int, at as int),
            Self::printed(nodes@, root, old(visited)@, old(listing)@),
        ensures
            final(listing)@ == old(listing)@ + walk(nodes@, at, depth, old(visited)@, fuel).0,
            final(visited)@ == walk(nodes@, at, depth, old(visited)@, fuel).1,
            old(visited)@.insert(at).subset_of(final(visited)@),
            Self::printed(nodes@, root, final(visited)@, final(listing)@),
            forall|m: usize, t: int|
                final(visited)@.contains(m) && !old(visited)@.contains(m) && #[trigger] points_to(
                    nodes@,
                    m as int,
                    t,
                ) ==> final(visited)@.contains(t as usize),
        decreases unseen(nodes@.len(), old(visited)@), 1nat,
    {
        let ghost before = visited@;
        let node = &nodes[at];
        visited.insert(at);
        listing.push((depth, at));
        proof {
            lemma_unseen_insert(nodes@.len(), before, at);
            lemma_lists_one_more(old(listing)@, (depth, at));
            assert forall|i: int, j: int| 0 <= i < j < listing@.len() implies (
            #[trigger] listing@[i]).1 != (#[trigger] listing@[j]).1 by {
                if j == old(listing)@.len() {
                    assert(lists(old(listing)@, old(listing)@[i].1));
                }
            }
        }
        let next: usize = depth + 1;
        Self::print_link(
            nodes,
            node.a,
            next,
            visited,
            listing,
            Ghost(fuel),
            Ghost(root),
            Ghost(before),
            Ghost(at),
        );
        Self::print_link(
            nodes,
            node.b,
            next,
            visited,
            listing,
            Ghost(fuel),
            Ghost(root),
            Ghost(before),
            Ghost(at),
        );
        Self::print_link(
            nodes,
            node.c,
            next,
            visited,
            listing,
            Ghost(fuel),
            Ghost(root),
            Ghost(before),
            Ghost(at),
        );
    }

    /// Lists what `link`, a link of the element at `from`, leads to, unless
    /// it leads nowhere or to an element that has been visited.
    fn print_link(
        nodes: &[TLL],
        link: Option<usize>,
        depth: usize,
        visited: &mut HashSet<usize>,
        listing: &mut Vec<(usize, usize)>,
        Ghost(fuel): Ghost<nat>,
        Ghost(root): Ghost<usize>,
        Ghost(before): Ghost<Set<usize>>,
        Ghost(from): Ghost<usize>,
    )
        requires
            from < nodes@.len(),
            link == nodes@[from as int].a || link == nodes@[from as int].b || link
                == nodes@[from as int].c,
            !before.contains(from),
            before.insert(from).subset_of(old(visited)@),
            unseen(nodes@.len(), before) <= fuel + 1,
            depth + unseen(nodes@.len(), before) <= nodes@.len() + 1,
            reachable(nodes@, root as int, from as int),
            Self::printed(nodes@, root, old(visited)@, old(listing)@),
        ensures
            final(listing)@ == old(listing)@ + walk_link(nodes@, link, depth, old(visited)@, fuel).0,
            final(visited)@ == walk_link(nodes@, link, depth, old(visited)@, fuel).1,
            old(visited)@.subset_of(final(visited)@),
            Self::printed(nodes@, root, final(visited)@, final(listing)@),
            link matches Some(to) ==> to < nodes@.len() ==> final(visited)@.contains(to),
            forall|m: usize, t: int|
                final(visited)@.contains(m) && !old(visited)@.contains(m) && #[trigger] points_to(
                    nodes@,
                    m as int,
                    t,
                ) ==> final(visited)@.contains(t as usize),
        decreases unseen(nodes@.len(), before), 0nat,
    {
        if let Some(to) = link {
            if to < nodes.len() && !visited.contains(&to) {
                proof {
                    lemma_unseen_insert(nodes@.len(), before, from);
                    lemma_unseen_subset(nodes@.len(), before.insert(from), visited@);
                    lemma_unseen_insert(nodes@.len(), visited@, to);
                    lemma_reachable_step(nodes@, root as int, from as int, to as int);
                }
                Self::print_internal(
                    nodes,
                    to,
                    depth,
                    visited,
                    listing,
                    Ghost((fuel - 1) as nat),
                    Ghost(root),
                );
            }
        }
    }

    /// Explores what `link`, a link of the element at `from`, leads to,
    /// unless it leads nowhere or to an element that has been visited.
    fn explore_link(
        nodes: &[TLL],
        from: usize,
        link: Option<usize>,
        visited: &mut HashSet<usize>,
        result: &mut HashMap<usize, TLLRef>,
        Ghost(root): Ghost<usize>,
        Ghost(before): Ghost<Set<usize>>,
    )
        requires
            from < nodes@.len(),
            link == nodes@[from as int].a || link == nodes@[from as int].b || link
                == nodes@[from as int].c,
            reachable(nodes@, root as int, from as int),
            !before.contains(from),
            before.insert(from).subset_of(old(visited)@),
            Self::explored(nodes@, root, old(visited)@, old(result)@),
        ensures
            Self::explored(nodes@, root, final(visited)@, final(result)@),
            old(visited)@.subset_of(final(visited)@),
            link matches Some(to) ==> to < nodes@.len() ==> final(visited)@.contains(to),
            forall|k: usize|
                final(visited)@.contains(k) && !old(visited)@.contains(k) ==> reachable_past(
                    nodes@,
                    from as int,
                    k as int,
                    before,
                ),
            forall|k: usize|
                old(result)@.contains_key(k) ==> #[trigger] final(result)@[k] == old(result)@[k],
            forall|m: usize, t: int|
                final(visited)@.contains(m) && !old(visited)@.contains(m) && #[trigger] points_to(
                    nodes@,
                    m as int,
                    t,
                ) ==> final(visited)@.contains(t as usize),
        decreases unseen(nodes@.len(), before), 0nat,
    {
        if let Some(to) = link {
            if to < nodes.len() && !visited.contains(&to) {
                proof {
                    lemma_reachable_step(nodes@, root as int, from as int, to as int);
                    lemma_unseen_insert(nodes@.len(), before, from);
                    lemma_unseen_subset(nodes@.len(), before.insert(from), visited@);
                }
                let ghost entered = visited@;
                Self::explore_internal(nodes, to, visited, result, Ghost(root));
                proof {
                    assert forall|k: usize|
                        visited@.contains(k) && !entered.contains(k) implies reachable_past(
                        nodes@,
                        from as int,
                        k as int,
                        before,
                    ) by {
                        lemma_past_through(
                            nodes@,
                            from as int,
                            to as int,
                            k as int,
                            entered,
                            before,
                        );
                    }
                }
            }
        }
    }
}
} // verus!
