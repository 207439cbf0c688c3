//! Reads a triply linked list out of the memory of the game into a slice.
//!
//! The reader decides which record is to be read next, and whoever holds the
//! memory reads it: `awaited` gives the address of the next record, `push`
//! takes the 0x60 bytes that lie there, and `finish` hands out the elements
//! once `awaited` has nothing more to ask for. The elements stand in the
//! order in which their addresses were met, the first of them at position 0.

use crate::general::escadra_string::{
    record_fault, record_max_length, record_pointer, DecodeError, EscadraString, INLINE_CAPACITY,
};
use crate::general::tll::{record_link, TLLRef, TLL};
use std::collections::HashMap;
use vstd::prelude::*;

verus! {

/// `addresses` with `pointer` after them, unless it is null or one of them.
pub open spec fn met(addresses: Seq<u64>, pointer: u64) -> Seq<u64> {
    if pointer == 0 || addresses.contains(pointer) {
        addresses
    } else {
        addresses.push(pointer)
    }
}

/// Whether `link` is what stands for `pointer`: nothing for the null
/// pointer, and else the position at which `addresses` holds the pointer.
pub open spec fn stands_for(addresses: Seq<u64>, pointer: u64, link: Option<usize>) -> bool {
    match link {
        Some(to) => pointer != 0 && to < addresses.len() && addresses[to as int] == pointer,
        None => pointer == 0,
    }
}

/// Whether `link` leads nowhere or to one of the first `len` positions.
pub open spec fn leads_within(link: Option<usize>, len: nat) -> bool {
    link matches Some(to) ==> to < len
}

/// A list that is being read out of the memory of the game.
pub struct TLLReader {
    /// The addresses that have been met, in the order in which they were.
    addresses: Vec<u64>,
    /// The position of each address that has been met.
    positions: HashMap<u64, usize>,
    /// The elements that have been read: those at the first addresses.
    nodes: Vec<TLL>,
}

impl TLLReader {
    /// The addresses that have been met, in the order in which they were.
    /// The element that lies at an address has the position of the address.
    pub closed spec fn addresses(&self) -> Seq<u64> {
        self.addresses@
    }

    /// The elements that have been read.
    pub closed spec fn nodes(&self) -> Seq<TLL> {
        self.nodes@
    }

    /// What holds of every reader: no more elements have been read than
    /// addresses have been met, no address has been met twice, none is
    /// null, and the links of the elements lead to positions of addresses
    /// that have been met.
    pub closed spec fn wf(&self) -> bool {
        &&& self.nodes@.len() <= self.addresses@.len()
        &&& forall|i: int|
            0 <= i < self.nodes@.len() ==> {
                &&& leads_within((#[trigger] self.nodes@[i]).a, self.addresses@.len())
                &&& leads_within(self.nodes@[i].b, self.addresses@.len())
                &&& leads_within(self.nodes@[i].c, self.addresses@.len())
            }
        &&& forall|i: int|
            0 <= i < self.addresses@.len() ==> {
                &&& (#[trigger] self.addresses@[i]) != 0
                &&& self.positions@.contains_key(self.addresses@[i])
                &&& self.positions@[self.addresses@[i]] == i
            }
        &&& forall|pointer: u64| #[trigger]
            self.positions@.contains_key(pointer) ==> {
                &&& self.positions@[pointer] < self.addresses@.len()
                &&& self.addresses@[self.positions@[pointer] as int] == pointer
            }
    }

    /// A reader for the list whose first element lies at `root`. The null
    /// pointer is the list without elements.
    pub fn new(root: u64) -> (reader: Self)
        ensures
            reader.wf(),
            reader.addresses() == met(Seq::empty(), root),
            reader.nodes() == Seq::<TLL>::empty(),
    {
        let mut reader = TLLReader {
            addresses: Vec::new(),
            positions: HashMap::new(),
            nodes: Vec::new(),
        };
        reader.meet(root);
        reader
    }

    /// The address of the record that is to be read next: that of the first
    /// address that has been met and not read. `None` once the elements at
    /// all the addresses have been read.
    pub fn awaited(&self) -> (address: Option<u64>)
        requires
            self.wf(),
        ensures
            address == if self.nodes().len() < self.addresses().len() {
                Some(self.addresses()[self.nodes().len() as int])
            } else {
                None
            },
    {
        if self.nodes.len() < self.addresses.len() {
            Some(self.addresses[self.nodes.len()])
        } else {
            None
        }
    }

    /// Where the record says the buffer of its string is, and how many
    /// bytes the buffer has; `None` where it holds the string inline.
    pub fn buffer_of(record: &[u8; 0x60]) -> (place: Option<(u64, u64)>)
        ensures
            place == ({
                let string = record@.subrange(0x20, 0x40);
                if INLINE_CAPACITY < record_max_length(string) < u64::MAX {
                    Some((record_pointer(string), (record_max_length(string) + 1) as u64))
                } else {
                    None
                }
            }),
    {
        EscadraString::buffer_of(&TLL::string_of(record))
    }

    /// Takes the record that lies at the awaited address, and `buffer`, what
    /// the pointer of its string leads to. The element of the record is read
    /// after those that have been; each of its links is the position of the
    /// address that its pointer holds, and the addresses that its pointers
    /// hold and that had not been met are met, a before b before c.
    ///
    /// A record whose string breaks a rule of the layout is not taken, and
    /// the reader is left as it was. So it is where no record is awaited.
    pub fn push(&mut self, record: &[u8; 0x60], buffer: &[u8]) -> (result: Result<(), DecodeError>)
        requires
            old(self).wf(),
        ensures
            final(self).wf(),
            old(self).nodes().len() >= old(self).addresses().len() ==> {
                &&& result is Ok
                &&& final(self).nodes() == old(self).nodes()
                &&& final(self).addresses() == old(self).addresses()
            },
            old(self).nodes().len() < old(self).addresses().len() ==> match result {
                Ok(()) => {
                    let tll = final(self).nodes().last();
                    &&& record_fault(record@.subrange(0x20, 0x40), buffer@) is None
                    &&& final(self).nodes() == old(self).nodes().push(tll)
                    &&& final(self).addresses() == met(
                        met(
                            met(old(self).addresses(), record_link(record@, 0)),
                            record_link(record@, 1),
                        ),
                        record_link(record@, 2),
                    )
                    &&& tll.is_unpacked_from(record@, tll.links(), buffer@)
                    &&& stands_for(final(self).addresses(), record_link(record@, 0), tll.a)
                    &&& stands_for(final(self).addresses(), record_link(record@, 1), tll.b)
                    &&& stands_for(final(self).addresses(), record_link(record@, 2), tll.c)
                },
                Err(fault) => {
                    &&& record_fault(record@.subrange(0x20, 0x40), buffer@) == Some(fault)
                    &&& final(self).nodes() == old(self).nodes()
                    &&& final(self).addresses() == old(self).addresses()
                },
            },
    {
        if self.nodes.len() >= self.addresses.len() {
            return Ok(());
        }
        match EscadraString::unpack(&TLL::string_of(record), buffer) {
            Ok(string) => {
                let pointers = TLL::pointers_of(record);
                let a = self.meet(pointers.0);
                let b = self.meet(pointers.1);
                let c = self.meet(pointers.2);
                let tll = TLL::with_string(record, TLLRef { a, b, c }, string);
                self.nodes.push(tll);
                Ok(())
            },
            Err(fault) => Err(fault),
        }
    }

    /// Hands out the elements that have been read, and the addresses that
    /// have been met: the element at a position lies at the address at that
    /// position. Once no record is awaited there are as many of the one as
    /// of the other, and every link of every element leads to one of the
    /// elements.
    pub fn finish(self) -> (list: (Vec<TLL>, Vec<u64>))
        requires
            self.wf(),
        ensures
            list.0@ == self.nodes(),
            list.1@ == self.addresses(),
    {
        (self.nodes, self.addresses)
    }

    /// The link that stands for `pointer`; the address that it holds is met
    /// if it had not been.
    fn meet(&mut self, pointer: u64) -> (link: Option<usize>)
        requires
            old(self).wf(),
        ensures
            final(self).wf(),
            final(self).nodes() == old(self).nodes(),
            final(self).addresses() == met(old(self).addresses(), pointer),
            stands_for(final(self).addresses(), pointer, link),
    {
        if pointer == 0 {
            return None;
        }
        match self.positions.get(&pointer) {
            Some(position) => {
                let position: usize = *position;
                Some(position)
            },
            None => {
                let position: usize = self.addresses.len();
                self.addresses.push(pointer);
                self.positions.insert(pointer, position);
                Some(position)
            },
        }
    }
}

/// What holds of every reader: no more elements have been read than
/// addresses have been met; no address has been met twice, and none is
/// null; and every link of an element that has been read leads to the
/// position of an address that has been met.
pub proof fn lemma_reader_invariants(reader: TLLReader)
    requires
        reader.wf(),
    ensures
        reader.nodes().len() <= reader.addresses().len(),
        reader.addresses().no_duplicates(),
        !reader.addresses().contains(0),
        forall|i: int|
            0 <= i < reader.nodes().len() ==> {
                &&& leads_within((#[trigger] reader.nodes()[i]).a, reader.addresses().len())
                &&& leads_within(reader.nodes()[i].b, reader.addresses().len())
                &&& leads_within(reader.nodes()[i].c, reader.addresses().len())
            },
{
}
} // verus!
