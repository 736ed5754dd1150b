//! Reading the response headers of the metadata probe.
//!
//! The probe is a request for the headers alone. Three fields matter to a
//! plan: the length of the resource, its content type, and whether the
//! server accepts ranged requests.

use hyper::HeaderMap;
use vstd::prelude::*;

verus! {

/// The header map of hyper, `hyper::HeaderMap`, which is that of the http
/// crate. Nothing inside it is visible to the verifier.
#[verifier::external_type_specification]
#[verifier::external_body]
#[verifier::reject_recursive_types(T)]
pub struct ExHeaderMap<T>(hyper::HeaderMap<T>);

/// The value of a header field, `hyper::header::HeaderValue`: the type of
/// the values that a header map holds unless another is named. Nothing
/// inside it is visible to the verifier.
#[verifier::external_type_specification]
#[verifier::external_body]
pub struct ExHeaderValue(hyper::header::HeaderValue);

/// The header fields of a response as a lookup table: each name under which
/// `HeaderMap::get` finds a field, mapped to the bytes of the first value
/// that is stored under that name.
pub uninterp spec fn header_fields(headers: HeaderMap) -> Map<Seq<char>, Seq<u8>>;

/// The value of the field `name`, if the table holds one.
pub open spec fn field_of(fields: Map<Seq<char>, Seq<u8>>, name: Seq<char>) -> Option<Seq<u8>> {
    if fields.contains_key(name) {
        Some(fields[name])
    } else {
        None
    }
}

/// The bytes of a field that may be absent.
pub open spec fn field_view(field: Option<Vec<u8>>) -> Option<Seq<u8>> {
    match field {
        Some(bytes) => Some(bytes@),
        None => None,
    }
}

/// Looks a field up with `HeaderMap::get` (hyper hands out the map type of
/// the http crate) and copies the bytes of the value found, as
/// `HeaderValue::as_bytes` gives them. Not proved: that the answer is the
/// entry of `header_fields` under `name`, that is, that a lookup depends on
/// nothing but the fields of the map and the name.
#[verifier::external_body]
fn first_value(headers: &HeaderMap, name: &str) -> (value: Option<Vec<u8>>)
    ensures
        field_view(value) == field_of(header_fields(*headers), name@),
{
    match headers.get(name) {
        Some(found) => Some(found.as_bytes().to_vec()),
        None => None,
    }
}

/// What the probe tells about the resource: the raw bytes of the fields that
/// a plan is made from, each absent where the response does not carry it.
#[derive(Clone, Debug)]
pub struct Metadata {
    pub content_length: Option<Vec<u8>>,
    pub content_type: Option<Vec<u8>>,
    pub accept_ranges: Option<Vec<u8>>,
}

/// The fields of a probe as byte sequences.
pub struct MetadataView {
    pub content_length: Option<Seq<u8>>,
    pub content_type: Option<Seq<u8>>,
    pub accept_ranges: Option<Seq<u8>>,
}

impl View for Metadata {
    type V = MetadataView;

    open spec fn view(&self) -> MetadataView {
        MetadataView {
            content_length: field_view(self.content_length),
            content_type: field_view(self.content_type),
            accept_ranges: field_view(self.accept_ranges),
        }
    }
}

/// The metadata that a table of header fields holds.
pub open spec fn metadata_of(fields: Map<Seq<char>, Seq<u8>>) -> MetadataView {
    MetadataView {
        content_length: field_of(fields, "content-length"@),
        content_type: field_of(fields, "content-type"@),
        accept_ranges: field_of(fields, "accept-ranges"@),
    }
}

impl Metadata {
    /// Takes the three fields out of the headers of a response.
    pub fn read(headers: &HeaderMap) -> (meta: Metadata)
        ensures
            meta@ == metadata_of(header_fields(*headers)),
    {
        Metadata {
            content_length: first_value(headers, "content-length"),
            content_type: first_value(headers, "content-type"),
            accept_ranges: first_value(headers, "accept-ranges"),
        }
    }
}

} // verus!
