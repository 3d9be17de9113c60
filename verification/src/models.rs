//! The data that the refresh works on: records as they are read from the
//! dataset, rows of the address table and entries of the state log.
//!
//! A coordinate is carried as the bit pattern of the single-precision
//! number that the dataset gives; storage widens it when a row is written.
//! An identifier is carried as the 128-bit number of a UUID, a time as
//! microseconds since the Unix epoch.

use vstd::prelude::*;

verus! {

/// An entry of the state log: a snapshot that was imported in full.
#[derive(Debug)]
pub struct State {
    pub id: u128,
    pub hash: String,
    pub version: String,
    pub processed_at: i64,
}

/// What a [`State`] holds.
pub struct StateView {
    pub id: u128,
    pub hash: Seq<char>,
    pub version: Seq<char>,
    pub processed_at: i64,
}

impl View for State {
    type V = StateView;

    open spec fn view(&self) -> StateView {
        StateView {
            id: self.id,
            hash: self.hash@,
            version: self.version@,
            processed_at: self.processed_at,
        }
    }
}

impl Clone for State {
    fn clone(&self) -> (copy: Self)
        ensures
            copy@ == self@,
    {
        State {
            id: self.id,
            hash: self.hash.clone(),
            version: self.version.clone(),
            processed_at: self.processed_at,
        }
    }
}

/// An entry that is about to be appended to the state log.
#[derive(Debug)]
pub struct NewState<'a> {
    pub id: u128,
    pub hash: &'a str,
    pub version: &'a str,
    pub processed_at: i64,
}

impl<'a> View for NewState<'a> {
    type V = StateView;

    open spec fn view(&self) -> StateView {
        StateView {
            id: self.id,
            hash: self.hash@,
            version: self.version@,
            processed_at: self.processed_at,
        }
    }
}

/// A row of the address table.
#[derive(Debug)]
pub struct Address {
    pub id: u128,
    pub lat: u32,
    pub lon: u32,
    pub number: String,
    pub street: String,
    pub city: String,
    pub region: String,
    pub postcode: String,
}

/// What an [`Address`] holds.
pub struct AddressView {
    pub id: u128,
    pub lat: u32,
    pub lon: u32,
    pub number: Seq<char>,
    pub street: Seq<char>,
    pub city: Seq<char>,
    pub region: Seq<char>,
    pub postcode: Seq<char>,
}

impl AddressView {
    /// The pair by which a row is found again: no two rows of the table
    /// share it.
    pub open spec fn key(self) -> (Seq<char>, Seq<char>) {
        (self.postcode, self.number)
    }
}

impl View for Address {
    type V = AddressView;

    open spec fn view(&self) -> AddressView {
        AddressView {
            id: self.id,
            lat: self.lat,
            lon: self.lon,
            number: self.number@,
            street: self.street@,
            city: self.city@,
            region: self.region@,
            postcode: self.postcode@,
        }
    }
}

impl Clone for Address {
    fn clone(&self) -> (copy: Self)
        ensures
            copy@ == self@,
    {
        Address {
            id: self.id,
            lat: self.lat,
            lon: self.lon,
            number: self.number.clone(),
            street: self.street.clone(),
            city: self.city.clone(),
            region: self.region.clone(),
            postcode: self.postcode.clone(),
        }
    }
}

/// A row that is about to be written to the address table.
#[derive(Debug)]
pub struct NewAddress<'a> {
    pub id: u128,
    pub lat: u32,
    pub lon: u32,
    pub number: &'a str,
    pub street: &'a str,
    pub city: &'a str,
    pub region: &'a str,
    pub postcode: &'a str,
}

impl<'a> View for NewAddress<'a> {
    type V = AddressView;

    open spec fn view(&self) -> AddressView {
        AddressView {
            id: self.id,
            lat: self.lat,
            lon: self.lon,
            number: self.number@,
            street: self.street@,
            city: self.city@,
            region: self.region@,
            postcode: self.postcode@,
        }
    }
}

/// One record of the dataset.
#[derive(Debug)]
pub struct AddressRecord {
    pub lon: u32,
    pub lat: u32,
    pub number: String,
    pub street: String,
    pub city: String,
    pub region: String,
    pub postcode: String,
}

/// What an [`AddressRecord`] holds.
pub struct AddressRecordView {
    pub lon: u32,
    pub lat: u32,
    pub number: Seq<char>,
    pub street: Seq<char>,
    pub city: Seq<char>,
    pub region: Seq<char>,
    pub postcode: Seq<char>,
}

impl AddressRecordView {
    /// The pair by which the record's row is found.
    pub open spec fn key(self) -> (Seq<char>, Seq<char>) {
        (self.postcode, self.number)
    }

    /// The row that the record makes under the identifier `id`.
    pub open spec fn row(self, id: u128) -> AddressView {
        AddressView {
            id,
            lat: self.lat,
            lon: self.lon,
            number: self.number,
            street: self.street,
            city: self.city,
            region: self.region,
            postcode: self.postcode,
        }
    }
}

impl View for AddressRecord {
    type V = AddressRecordView;

    open spec fn view(&self) -> AddressRecordView {
        AddressRecordView {
            lon: self.lon,
            lat: self.lat,
            number: self.number@,
            street: self.street@,
            city: self.city@,
            region: self.region@,
            postcode: self.postcode@,
        }
    }
}

impl Clone for AddressRecord {
    fn clone(&self) -> (copy: Self)
        ensures
            copy@ == self@,
    {
        AddressRecord {
            lon: self.lon,
            lat: self.lat,
            number: self.number.clone(),
            street: self.street.clone(),
            city: self.city.clone(),
            region: self.region.clone(),
            postcode: self.postcode.clone(),
        }
    }
}

impl AddressRecord {
    /// Whether two records are for the same row of the table.
    pub fn same_key(&self, other: &AddressRecord) -> (same: bool)
        ensures
            same == (self@.key() == other@.key()),
    {
        self.postcode == other.postcode && self.number == other.number
    }
}

} // verus!
