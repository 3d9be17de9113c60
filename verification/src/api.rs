//! The request for addresses, as the query of a lookup gives it.

use vstd::prelude::*;
use crate::addresses::{address_views, answers, get_addresses, AddressTable};
use crate::models::Address;

verus! {

/// A lookup: the postcode, and optionally the beginning of the number.
#[derive(Debug)]
pub struct AddressRequest {
    postcode: String,
    number: Option<String>,
}

impl AddressRequest {
    /// The number filter of a request, as a text.
    pub open spec fn number_text(number: Option<String>) -> Option<Seq<char>> {
        match number {
            Some(prefix) => Some(prefix@),
            None => None,
        }
    }

    /// The postcode that is asked for.
    pub closed spec fn spec_postcode(&self) -> Seq<char> {
        self.postcode@
    }

    /// The beginning of the number that is asked for, if any.
    pub closed spec fn spec_number(&self) -> Option<Seq<char>> {
        Self::number_text(self.number)
    }

    /// Makes a request from the parameters of a query. A query without
    /// a postcode makes none.
    pub fn from_query(postcode: Option<String>, number: Option<String>) -> (request: Option<Self>)
        ensures
            match (postcode, request) {
                (Some(code), Some(made)) => made.spec_postcode() == code@ && made.spec_number()
                    == Self::number_text(number),
                (None, None) => true,
                _ => false,
            },
    {
        match postcode {
            Some(postcode) => Some(AddressRequest { postcode, number }),
            None => None,
        }
    }

    /// The postcode that is asked for.
    pub fn postcode(&self) -> (postcode: &str)
        ensures
            postcode@ == self.spec_postcode(),
    {
        self.postcode.as_str()
    }

    /// The beginning of the number that is asked for, if any.
    pub fn number(&self) -> (number: Option<&str>)
        ensures
            match number {
                Some(prefix) => self.spec_number() == Some(prefix@),
                None => self.spec_number() is None,
            },
    {
        match &self.number {
            Some(prefix) => Some(prefix.as_str()),
            None => None,
        }
    }

    /// Answers the request from the table.
    pub fn addresses(&self, table: &AddressTable) -> (found: Vec<Address>)
        requires
            table.wf(),
        ensures
            answers(table@, address_views(found@), self.spec_postcode(), self.spec_number()),
    {
        get_addresses(table, self.postcode(), self.number())
    }
}

} // verus!
