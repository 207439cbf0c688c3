//! Data types shared with Highfleet: the variable length string that the game
//! embeds in its records, and the triply linked list that holds loadouts.
//!
//! An [`EscadraString`](general::escadra_string::EscadraString) holds its text
//! in 16 chars of its own or, once the text has been longer than 15 bytes, in
//! a buffer that grows by doubling. It is compared, ordered and hashed by its
//! text, and it is written to and read from the 32 bytes that stand for it in
//! a record of the game.
//!
//! The elements of a [`TLL`](general::tll::TLL) stand in a slice and link to
//! one another by position. A list is explored and printed from any of its
//! elements, whatever cycles its links form. A
//! [`TLLReader`](general::reader::TLLReader) brings a list that lies in the
//! memory of the game into such a slice, record by record.
//!
//! Every function is verified with Verus against the contract that it
//! carries; the laws that relate the functions to one another are proved in
//! [`general::laws`].

pub mod general;
