//! The wire format spoken with an Open Policy Agent (OPA) server, and its mapping to and from
//! a neutral access-control model.
//!
//! A request goes out as `{"input": {...}}` and a decision comes back as `{"result": {...}}`.
//! [`request::to_request`] lays an access request out in the shape that policies read, and
//! [`request::OpaRequest::to_body`] turns that shape into the document that is sent.
//! [`response::OpaResponse::from_json`] reads the document that came back, and
//! [`response::from_response`] turns it into a decision that fails closed: whatever the policy
//! left unsaid is denied.

pub mod access_model;
pub mod body;
pub mod decision_laws;
pub mod document_laws;
pub mod entries;
pub mod json;
pub mod laws;
pub mod reading_laws;
pub mod request;
pub mod response;
pub mod text;
pub mod wire_laws;
