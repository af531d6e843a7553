//! Header names, header values, and the headers of a request.
use hyper::header::{HeaderName, HeaderValue};
use hyper::HeaderMap;
use vstd::prelude::*;
use vstd::utf8::encode_utf8;

verus! {

/// `http::HeaderMap`, the headers of a request.
#[verifier::external_type_specification]
#[verifier::external_body]
#[verifier::reject_recursive_types(T)]
pub struct ExHeaderMap<T>(hyper::HeaderMap<T>);

/// `http::HeaderValue`, the value of a header.
#[verifier::external_type_specification]
#[verifier::external_body]
pub struct ExHeaderValue(hyper::header::HeaderValue);

/// The value of a header: its bytes, and whether it is marked as sensitive.
#[derive(Debug)]
pub struct FieldValue {
    pub bytes: Vec<u8>,
    pub sensitive: bool,
}

/// The value of a header, over a sequence of bytes.
pub struct Field {
    pub bytes: Seq<u8>,
    pub sensitive: bool,
}

impl View for FieldValue {
    type V = Field;

    open spec fn view(&self) -> Field {
        Field { bytes: self.bytes@, sensitive: self.sensitive }
    }
}

impl Clone for FieldValue {
    fn clone(&self) -> (res: Self)
        ensures
            res@ == self@,
    {
        let bytes: Vec<u8> = self.bytes.clone();
        assert(bytes@ =~= self.bytes@);
        FieldValue { bytes, sensitive: self.sensitive }
    }
}

/// The headers that a map holds: for each name, in lower case, its values in
/// order.
pub uninterp spec fn header_contents(map: HeaderMap<HeaderValue>) -> Map<Seq<char>, Seq<Field>>;

/// The number of header names up to which a header map is sure to take another
/// name. A larger map may have to grow beyond its maximum size.
pub const HEADER_NAME_LIMIT: usize = 6553;

/// Whether the character may stand in a header name.
pub open spec fn is_token_char(c: char) -> bool {
    ||| 'a' <= c <= 'z'
    ||| 'A' <= c <= 'Z'
    ||| '0' <= c <= '9'
    ||| c == '!' || c == '#' || c == '$' || c == '%' || c == '&' || c == '\'' || c == '*'
    ||| c == '+' || c == '-' || c == '.' || c == '^' || c == '_' || c == '`' || c == '|' || c == '~'
}

/// The lower case of an ASCII letter; any other character stays.
pub open spec fn lower_char(c: char) -> char {
    if 'A' <= c <= 'Z' {
        (c as u32 + 32) as char
    } else {
        c
    }
}

/// Whether the text is a header name.
pub open spec fn is_header_name(name: Seq<char>) -> bool {
    &&& 1 <= name.len() <= 65535
    &&& forall|i: int| 0 <= i < name.len() ==> is_token_char(#[trigger] name[i])
}

/// The text in lower case, as header names are compared.
pub open spec fn lower(name: Seq<char>) -> Seq<char> {
    name.map_values(|c: char| lower_char(c))
}

/// A header name in lower case is a header name, and stays so in lower case.
pub proof fn lemma_lower(name: Seq<char>)
    ensures
        lower(lower(name)) == lower(name),
        is_header_name(name) ==> is_header_name(lower(name)),
{
    assert forall|c: char| #[trigger] lower_char(lower_char(c)) == lower_char(c) && (is_token_char(c)
        ==> is_token_char(lower_char(c))) by {}
    assert(lower(lower(name)) =~= lower(name));
    if is_header_name(name) {
        assert forall|i: int| 0 <= i < lower(name).len() implies is_token_char(
            #[trigger] lower(name)[i],
        ) by {
            assert(is_token_char(name[i]));
            assert(lower_char(lower_char(name[i])) == lower_char(name[i]));
        }
    }
}

/// Whether the bytes are a header value.
pub open spec fn is_header_value(bytes: Seq<u8>) -> bool {
    forall|i: int|
        0 <= i < bytes.len() ==> (#[trigger] bytes[i] == 9 || (bytes[i] >= 32 && bytes[i] != 127))
}

/// The bytes of a text, if these are a header value, not marked as sensitive.
pub open spec fn text_value(text: Seq<char>) -> Option<Field> {
    if is_header_value(encode_utf8(text)) {
        Some(Field { bytes: encode_utf8(text), sensitive: false })
    } else {
        None
    }
}

/// Whether a map with these headers is sure to take `more` names.
pub open spec fn has_room(contents: Map<Seq<char>, Seq<Field>>, more: nat) -> bool {
    contents.dom().finite() && contents.dom().len() + more <= HEADER_NAME_LIMIT + 1
}

/// Whether a map with these headers has this number of names.
pub open spec fn has_names(contents: Map<Seq<char>, Seq<Field>>, count: nat) -> bool {
    contents.dom().finite() && contents.dom().len() == count
}

/// Calls `HeaderMap::keys_len`. The contract claims that it gives the number of
/// names that the map holds, which is finite.
#[verifier::external_body]
fn count_names(map: &HeaderMap<HeaderValue>) -> (count: usize)
    ensures
        has_names(header_contents(*map), count as nat),
{
    map.keys_len()
}

/// Tells whether a map is sure to take `more` names.
pub fn has_room_for(map: &HeaderMap<HeaderValue>, more: usize) -> (res: bool)
    ensures
        res == has_room(header_contents(*map), more as nat),
        header_contents(*map).dom().finite(),
{
    let count: usize = count_names(map);
    more <= HEADER_NAME_LIMIT + 1 && count <= HEADER_NAME_LIMIT + 1 - more
}

/// Calls `HeaderName::from_str`. The contract claims that it accepts exactly the
/// texts of 1 to 65535 token characters, gives the name in lower case, and
/// otherwise fails with the text "invalid HTTP header name".
#[verifier::external_body]
pub(crate) fn parse_header_name(name: &str) -> (res: Result<String, String>)
    ensures
        match res {
            Ok(parsed) => is_header_name(name@) && parsed@ == lower(name@),
            Err(error) => !is_header_name(name@) && error@ == "invalid HTTP header name"@,
        },
{
    match name.parse::<HeaderName>() {
        Ok(parsed) => Ok(parsed.as_str().to_string()),
        Err(error) => Err(error.to_string()),
    }
}

/// Calls `HeaderValue::from_str`. The contract claims that it accepts exactly
/// the texts whose bytes are tabs or lie outside the control characters, and
/// gives those bytes, not marked as sensitive.
#[verifier::external_body]
pub(crate) fn parse_header_value(value: &str) -> (res: Option<FieldValue>)
    ensures
        match res {
            Some(parsed) => text_value(value@) == Some(parsed@),
            None => text_value(value@) is None,
        },
{
    match value.parse::<HeaderValue>() {
        Ok(parsed) => Some(
            FieldValue { bytes: parsed.as_bytes().to_vec(), sensitive: parsed.is_sensitive() },
        ),
        Err(_) => None,
    }
}

/// Calls `HeaderMap::get`. The contract claims that it gives the first value of
/// the name, whatever its case, with its mark, if the map holds the name, and that
/// its bytes are a header value.
#[verifier::external_body]
pub(crate) fn get_header(map: &HeaderMap<HeaderValue>, name: &str) -> (res: Option<FieldValue>)
    requires
        is_header_name(name@),
    ensures
        match res {
            Some(value) => {
                &&& header_contents(*map).contains_key(lower(name@))
                &&& header_contents(*map)[lower(name@)].len() > 0
                &&& value@ == header_contents(*map)[lower(name@)][0]
                &&& is_header_value(value@.bytes)
            },
            None => !header_contents(*map).contains_key(lower(name@)),
        },
{
    match map.get(name) {
        Some(value) => Some(
            FieldValue { bytes: value.as_bytes().to_vec(), sensitive: value.is_sensitive() },
        ),
        None => None,
    }
}

/// Calls `HeaderMap::try_insert`, and tells whether it succeeded. The contract
/// claims that the name, whatever its case, then has the one value with its mark,
/// while every other name stays as it was; that all names stay as they were if the
/// map cannot grow; that their number is finite; and that a map of few names grows.
/// Nothing is claimed of how many names more a larger map takes: that rests on how
/// their hashes fall.
#[verifier::external_body]
pub(crate) fn insert_header(
    map: &mut HeaderMap<HeaderValue>,
    name: &str,
    value: &FieldValue,
) -> (inserted: bool)
    requires
        is_header_name(name@),
        is_header_value(value@.bytes),
    ensures
        header_contents(*final(map)) == if inserted {
            header_contents(*old(map)).insert(lower(name@), seq![value@])
        } else {
            header_contents(*old(map))
        },
        header_contents(*final(map)).dom().finite(),
        has_room(header_contents(*old(map)), 1) ==> inserted,
{
    let name = HeaderName::from_bytes(name.as_bytes()).expect("a header name");
    let mut inserted = HeaderValue::from_bytes(&value.bytes).expect("a header value");
    inserted.set_sensitive(value.sensitive);
    map.try_insert(name, inserted).is_ok()
}

} // verus!
