//! The customer entity: its persisted form (identifier, name, creation
//! stamp) and its transport form, in which identifier and stamp are
//! rendered as text for the caller.

use crate::oid::{hex_text, oid_in_range, Oid};
use crate::time::{time_in_range, utc_string, utc_text_of};
use vstd::prelude::*;

verus! {

/// Input for the write operations: the one field a caller may set.
/// The name is not validated; it is non-empty only by convention.
#[derive(Clone, Debug)]
pub struct CustomerInput {
    pub name: String,
}

/// Transport form of a customer, as handed to the caller: identifier and
/// creation stamp rendered as strings.
#[derive(Clone, Debug, PartialEq, Eq)]
pub struct Customer {
    pub id: String,
    pub name: String,
    pub created_at: String,
}

#[verifier::ext_equal]
pub ghost struct CustomerView {
    pub id: Seq<char>,
    pub name: Seq<char>,
    pub created_at: Seq<char>,
}

impl View for Customer {
    type V = CustomerView;

    open spec fn view(&self) -> CustomerView {
        CustomerView { id: self.id@, name: self.name@, created_at: self.created_at@ }
    }
}

/// Persisted form of a customer: the document the store holds. The
/// creation stamp is overwritten on update as well; a separate
/// modification stamp is deliberately not tracked.
#[derive(Clone, Debug)]
pub struct CustomerDocument {
    pub id: Oid,
    pub name: String,
    pub created_at: i64,
}

#[verifier::ext_equal]
pub ghost struct DocView {
    pub id: int,
    pub name: Seq<char>,
    pub created_at: int,
}

impl View for CustomerDocument {
    type V = DocView;

    open spec fn view(&self) -> DocView {
        DocView { id: self.id@, name: self.name@, created_at: self.created_at as int }
    }
}

/// A document is well formed when its identifier fits in 12 bytes and its
/// stamp is within the range the renderer accepts.
pub open spec fn doc_wf(d: DocView) -> bool {
    oid_in_range(d.id) && time_in_range(d.created_at)
}

/// The transport rendering of a persisted document: identifier as 24 hex
/// digits, stamp as UTC text.
pub open spec fn transport(d: DocView) -> CustomerView {
    CustomerView {
        id: hex_text(d.id, 24),
        name: d.name,
        created_at: utc_text_of(d.created_at),
    }
}

/// Render one persisted document in its transport form.
pub fn to_customer(d: &CustomerDocument) -> (c: Customer)
    requires
        doc_wf(d@),
    ensures
        c@ == transport(d@),
        c@.id.len() == 24,
        c@.created_at.len() > 0,
{
    Customer {
        id: d.id.to_hex(),
        name: d.name.clone(),
        created_at: utc_string(d.created_at),
    }
}

} // verus!
