//! The header types of the `http` crate, and what they hold.

use http::header::{HeaderMap, HeaderName, HeaderValue, MaxSizeReached};
use http::Error as HttpError;
use http::StatusCode;

use vstd::prelude::*;
use vstd::utf8::encode_utf8;

verus! {

/// A header map, a collection of named values.
#[verifier::external_type_specification]
#[verifier::external_body]
#[verifier::reject_recursive_types(T)]
pub struct ExHeaderMap<T>(http::header::HeaderMap<T>);

/// The name of a header.
#[verifier::external_type_specification]
#[verifier::external_body]
pub struct ExHeaderName(http::header::HeaderName);

/// The value of a header.
#[verifier::external_type_specification]
#[verifier::external_body]
pub struct ExHeaderValue(http::header::HeaderValue);

/// The error of a header map that cannot grow.
#[verifier::external_type_specification]
#[verifier::external_body]
pub struct ExMaxSizeReached(http::header::MaxSizeReached);

/// The error that a header name or value is invalid.
#[verifier::external_type_specification]
#[verifier::external_body]
pub struct ExHttpError(HttpError);

/// The status of a response.
#[verifier::external_type_specification]
#[verifier::external_body]
pub struct ExStatusCode(http::StatusCode);

/// A header value: its bytes, and whether it is marked as sensitive.
#[verifier::ext_equal]
pub struct Field {
    pub bytes: Seq<u8>,
    pub sensitive: bool,
}

/// The values under each name.
pub type Entries = Map<Seq<char>, Seq<Field>>;

/// The values under each name of a header map, in the order in which they were added.
pub uninterp spec fn header_entries(headers: HeaderMap) -> Entries;

/// The names in a header map, each once, in the order in which `HeaderMap::keys` returns them.
pub uninterp spec fn header_order(headers: HeaderMap) -> Seq<Seq<char>>;

/// The text of a header name, as `HeaderName::as_str` returns it.
pub uninterp spec fn header_name_text(name: HeaderName) -> Seq<char>;

/// The bytes of a header value, as `HeaderValue::as_bytes` returns them, with its mark.
pub uninterp spec fn header_field(value: HeaderValue) -> Field;

/// The error of a text that is no header name, as `HeaderName::try_from` and `http::Error::from`
/// return it.
pub uninterp spec fn name_error(text: Seq<char>) -> HttpError;

/// The error of a text that is no header value, as `HeaderValue::try_from` and `http::Error::from`
/// return it.
pub uninterp spec fn value_error(text: Seq<char>) -> HttpError;

/// The number of a status, as `StatusCode::as_u16` returns it.
pub uninterp spec fn status_number(status: StatusCode) -> u16;

/// The values under one name, none if the name does not occur.
pub open spec fn values_under(entries: Entries, name: Seq<char>) -> Seq<Field> {
    if entries.contains_key(name) {
        entries[name]
    } else {
        Seq::empty()
    }
}

/// The entries with one value added behind those under its name.
pub open spec fn appended(
    entries: Entries,
    name: Seq<char>,
    value: Field,
) -> Entries {
    entries.insert(name, values_under(entries, name).push(value))
}

/// The names with one more behind them, unless it is among them.
pub open spec fn named(order: Seq<Seq<char>>, name: Seq<char>) -> Seq<Seq<char>> {
    if order.contains(name) {
        order
    } else {
        order.push(name)
    }
}

/// The entries that a list of names and values makes, when they are added one after the other.
pub open spec fn grouped(list: Seq<(Seq<char>, Field)>) -> Entries
    decreases list.len(),
{
    if list.len() == 0 {
        Map::empty()
    } else {
        appended(grouped(list.drop_last()), list.last().0, list.last().1)
    }
}

/// What the names in a list are.
pub open spec fn name_texts(names: Seq<HeaderName>) -> Seq<Seq<char>> {
    Seq::new(names.len(), |i: int| header_name_text(names[i]))
}

/// What the names and values in a list are.
pub open spec fn pair_contents(pairs: Seq<(HeaderName, HeaderValue)>) -> Seq<(Seq<char>, Field)> {
    Seq::new(pairs.len(), |i: int| (header_name_text(pairs[i].0), header_field(pairs[i].1)))
}

/// Every value is marked as sensitive.
pub open spec fn all_sensitive(entries: Entries) -> bool {
    forall|name: Seq<char>, i: int|
        entries.contains_key(name) && 0 <= i < entries[name].len() ==> (
        #[trigger] entries[name][i]).sensitive
}

/// So many different names always leave room in a header map for one more value.
pub const ROOMY_NAMES: usize = 6553;

/// There is room in a header map for one more value: it is not full as long as it has no more than
/// `ROOMY_NAMES` names.
pub open spec fn has_room(entries: Entries) -> bool {
    entries.dom().finite() && entries.dom().len() <= ROOMY_NAMES
}

/// A name that is looked up as it is written: up to 64 lower-case letters, digits and hyphens.
pub open spec fn is_plain_name(name: Seq<char>) -> bool {
    &&& 0 < name.len() <= 64
    &&& forall|i: int|
        0 <= i < name.len() ==> ('a' <= #[trigger] name[i] <= 'z' || '0' <= name[i] <= '9'
            || name[i] == '-')
}

/// A character that may stand in the name of a header.
pub open spec fn is_name_char(c: char) -> bool {
    ||| 'a' <= c <= 'z'
    ||| 'A' <= c <= 'Z'
    ||| '0' <= c <= '9'
    ||| "!#$%&'*+-.^_`|~"@.contains(c)
}

/// A text that is the name of a header, in whatever case.
pub open spec fn is_header_name(text: Seq<char>) -> bool {
    &&& 0 < text.len() <= 65535
    &&& forall|i: int| 0 <= i < text.len() ==> is_name_char(#[trigger] text[i])
}

/// The lower-case form of an ASCII letter; any other character as it is.
pub open spec fn lower_char(c: char) -> char {
    if 'A' <= c <= 'Z' {
        ((c as u32 + 32) as u32) as char
    } else {
        c
    }
}

/// A text with its ASCII letters in lower case.
pub open spec fn lower_text(text: Seq<char>) -> Seq<char> {
    Seq::new(text.len(), |i: int| lower_char(text[i]))
}

/// A byte that may stand in the value of a header.
pub open spec fn is_value_byte(byte: u8) -> bool {
    byte == 9 || (32 <= byte && byte != 127)
}

/// A text that is the value of a header.
pub open spec fn is_header_value(text: Seq<char>) -> bool {
    forall|i: int|
        0 <= i < encode_utf8(text).len() ==> is_value_byte(#[trigger] encode_utf8(text)[i])
}

/// A byte of visible ASCII text, with the blanks.
pub open spec fn is_visible(byte: u8) -> bool {
    byte == 9 || 32 <= byte < 127
}

/// Bytes that are visible ASCII text.
pub open spec fn all_visible(bytes: Seq<u8>) -> bool {
    forall|i: int| 0 <= i < bytes.len() ==> is_visible(#[trigger] bytes[i])
}

/// `HeaderMap::new`: a map with no entries.
#[verifier::external_body]
pub(crate) fn new_headers() -> (headers: HeaderMap)
    ensures
        header_entries(headers) == Entries::empty(),
        header_order(headers) == Seq::<Seq<char>>::empty(),
{
    HeaderMap::new()
}

/// `HeaderMap::clone`: a map with the same entries, in the same order.
#[verifier::external_body]
pub(crate) fn copy_headers(headers: &HeaderMap) -> (copy: HeaderMap)
    ensures
        header_entries(copy) == header_entries(*headers),
        header_order(copy) == header_order(*headers),
{
    headers.clone()
}

/// `HeaderMap::is_empty`: no name has a value.
#[verifier::external_body]
pub(crate) fn headers_are_empty(headers: &HeaderMap) -> (empty: bool)
    ensures
        empty == (header_entries(*headers).dom() == Set::<Seq<char>>::empty()),
{
    headers.is_empty()
}

/// `HeaderMap::get` with a text: the first value under that name, if the name occurs.
#[verifier::external_body]
pub(crate) fn first_value<'a>(headers: &'a HeaderMap, name: &str) -> (value: Option<&'a HeaderValue>)
    requires
        is_plain_name(name@),
    ensures
        value is Some <==> header_entries(*headers).contains_key(name@),
        value matches Some(v) ==> {
            &&& header_entries(*headers)[name@].len() > 0
            &&& header_field(*v) == header_entries(*headers)[name@][0]
        },
{
    headers.get(name)
}

/// `HeaderMap::keys`: every name that occurs, once.
#[verifier::external_body]
pub(crate) fn header_names(headers: &HeaderMap) -> (names: Vec<HeaderName>)
    ensures
        name_texts(names@) == header_order(*headers),
        name_texts(names@).no_duplicates(),
        name_texts(names@).to_set() == header_entries(*headers).dom(),
{
    headers.keys().cloned().collect()
}

/// `HeaderMap::iter`: every value with its name; the values under one name come in the order in
/// which they were added.
#[verifier::external_body]
pub(crate) fn header_pairs(headers: &HeaderMap) -> (pairs: Vec<(HeaderName, HeaderValue)>)
    ensures
        grouped(pair_contents(pairs@)) == header_entries(*headers),
{
    headers.iter().map(|(name, value)| (name.clone(), value.clone())).collect()
}

/// `HeaderMap::remove`: no value is left under that name, and the others are as they were. In which
/// order the names are left is not stated.
#[verifier::external_body]
pub(crate) fn remove_header(headers: &mut HeaderMap, name: &HeaderName)
    ensures
        header_entries(*final(headers)) == header_entries(*old(headers)).remove(
            header_name_text(*name),
        ),
{
    headers.remove(name);
}

/// `HeaderMap::try_append`: one more value under a name, a new name behind the others, or an error
/// and the same entries if the map cannot grow. Where the map is full depends on how its names hash,
/// so the call is promised to succeed only up to a number of names at which it never is.
#[verifier::external_body]
pub(crate) fn append_header(
    headers: &mut HeaderMap,
    name: HeaderName,
    value: HeaderValue,
) -> (grown: Result<bool, MaxSizeReached>)
    ensures
        has_room(header_entries(*old(headers))) ==> grown is Ok,
        grown is Ok ==> header_entries(*final(headers)) == appended(
            header_entries(*old(headers)),
            header_name_text(name),
            header_field(value),
        ),
        grown is Ok ==> header_order(*final(headers)) == named(
            header_order(*old(headers)),
            header_name_text(name),
        ),
        grown is Err ==> header_entries(*final(headers)) == header_entries(*old(headers)),
        grown is Err ==> header_order(*final(headers)) == header_order(*old(headers)),
{
    headers.try_append(name, value)
}

/// `http::Error::from` of the error of a full header map, of which nothing more is said.
#[verifier::external_body]
pub(crate) fn full_error(error: MaxSizeReached) -> (converted: HttpError) {
    HttpError::from(error)
}

/// `HeaderName::try_from` of a text: the name in lower case, or an error unless the text is a
/// token of the allowed characters and of at most 65535 bytes.
#[verifier::external_body]
pub(crate) fn parse_name(text: &str) -> (name: Result<HeaderName, HttpError>)
    ensures
        name is Ok <==> is_header_name(text@),
        name matches Ok(n) ==> header_name_text(n) == lower_text(text@),
        name matches Err(e) ==> e == name_error(text@),
{
    HeaderName::try_from(text).map_err(HttpError::from)
}

/// `HeaderValue::try_from` of a text: a value of the text's bytes without a mark, or an error if a
/// control character other than the tab is among them.
#[verifier::external_body]
pub(crate) fn parse_value(text: &str) -> (value: Result<HeaderValue, HttpError>)
    ensures
        value is Ok <==> is_header_value(text@),
        value matches Ok(v) ==> header_field(v) == (Field {
            bytes: encode_utf8(text@),
            sensitive: false,
        }),
        value matches Err(e) ==> e == value_error(text@),
{
    HeaderValue::try_from(text).map_err(HttpError::from)
}

/// `HeaderValue::set_sensitive`: the mark is as given, the bytes are as they were.
pub assume_specification[ HeaderValue::set_sensitive ](value: &mut HeaderValue, val: bool)
    ensures
        header_field(*final(value)) == (Field {
            bytes: header_field(*old(value)).bytes,
            sensitive: val,
        }),
;

/// `HeaderValue::to_str`, as bytes: the bytes of the value, if all of them are visible.
#[verifier::external_body]
pub(crate) fn visible_text(value: &HeaderValue) -> (text: Option<&[u8]>)
    ensures
        text is Some <==> all_visible(header_field(*value).bytes),
        text matches Some(t) ==> t@ == header_field(*value).bytes,
{
    value.to_str().ok().map(str::as_bytes)
}

/// `HeaderName::as_str`: the text of the name.
pub assume_specification[ HeaderName::as_str ](name: &HeaderName) -> (text: &str)
    ensures
        text@ == header_name_text(*name),
;

/// `StatusCode::as_u16`: the number of the status.
pub assume_specification[ StatusCode::as_u16 ](status: &StatusCode) -> (number: u16)
    ensures
        number == status_number(*status),
;

/// `StatusCode::is_success`: the number is one of the two hundreds.
pub assume_specification[ StatusCode::is_success ](status: &StatusCode) -> (success: bool)
    ensures
        success == (200 <= status_number(*status) < 300),
;

/// A value is added behind those that its name has, and the values of all other names stay.
pub proof fn law_value_is_added_to_its_name(entries: Entries, name: Seq<char>, value: Field)
    ensures
        appended(entries, name, value).contains_key(name),
        entries.contains_key(name) ==> appended(entries, name, value)[name] == entries[name].push(
            value,
        ),
        !entries.contains_key(name) ==> appended(entries, name, value)[name] == seq![value],
        forall|other: Seq<char>|
            other != name ==> (#[trigger] appended(entries, name, value).contains_key(other)
                == entries.contains_key(other)),
        forall|other: Seq<char>|
            other != name && entries.contains_key(other) ==> #[trigger] appended(
                entries,
                name,
                value,
            )[other] == entries[other],
{
    if !entries.contains_key(name) {
        assert(appended(entries, name, value)[name] =~= seq![value]);
    }
}

/// A list of names and values makes the entries that it makes without its last one, and that one
/// added. An empty list makes none.
pub proof fn law_entries_are_added_in_order(
    list: Seq<(Seq<char>, Field)>,
    name: Seq<char>,
    value: Field,
)
    ensures
        grouped(Seq::<(Seq<char>, Field)>::empty()) == Map::<Seq<char>, Seq<Field>>::empty(),
        grouped(list.push((name, value))) == appended(grouped(list), name, value),
{
    assert(list.push((name, value)).drop_last() =~= list);
}

/// A name is added behind the others unless it is among them.
pub proof fn law_names_are_kept_once(order: Seq<Seq<char>>, name: Seq<char>)
    ensures
        (exists|i: int| 0 <= i < order.len() && #[trigger] order[i] == name) ==> named(order, name)
            == order,
        (forall|i: int| 0 <= i < order.len() ==> #[trigger] order[i] != name) ==> named(order, name)
            == order.push(name),
{
}

/// Where every value is marked as sensitive, each one under each name is.
pub proof fn law_marked_values_are_all_marked(entries: Entries, name: Seq<char>, i: int)
    requires
        all_sensitive(entries),
        entries.contains_key(name),
        0 <= i < entries[name].len(),
    ensures
        entries[name][i].sensitive,
{
}

/// A header name is a row of letters, digits and certain signs that is not empty and not longer than
/// 65535. It is kept with its letters in lower case.
pub proof fn law_header_names_are_tokens(text: Seq<char>)
    ensures
        is_header_name(text) <==> 0 < text.len() <= 65535 && forall|i: int|
            0 <= i < text.len() ==> {
                let c = #[trigger] text[i];
                ||| 'a' <= c <= 'z'
                ||| 'A' <= c <= 'Z'
                ||| '0' <= c <= '9'
                ||| c == '!' || c == '#' || c == '$' || c == '%' || c == '&' || c == '\'' || c == '*'
                ||| c == '+' || c == '-' || c == '.' || c == '^' || c == '_' || c == '`' || c == '|'
                ||| c == '~'
            },
        lower_text(text).len() == text.len(),
        forall|i: int|
            0 <= i < text.len() ==> #[trigger] lower_text(text)[i] == if 'A' <= text[i] <= 'Z' {
                ((text[i] as u32 + 32) as u32) as char
            } else {
                text[i]
            },
{
    reveal_strlit("!#$%&'*+-.^_`|~");
    let signs = "!#$%&'*+-.^_`|~"@;
    assert(signs.len() == 15);
    assert forall|c: char| signs.contains(c) == (c == '!' || c == '#' || c == '$' || c == '%' || c
        == '&' || c == '\'' || c == '*' || c == '+' || c == '-' || c == '.' || c == '^' || c == '_' || c
        == '`' || c == '|' || c == '~') by {
        assert(signs[0] == '!' && signs[1] == '#' && signs[2] == '$' && signs[3] == '%' && signs[4]
            == '&' && signs[5] == '\'' && signs[6] == '*' && signs[7] == '+' && signs[8] == '-'
            && signs[9] == '.' && signs[10] == '^' && signs[11] == '_' && signs[12] == '`'
            && signs[13] == '|' && signs[14] == '~');
    }
}

/// A header value is any text without control characters other than the tab; the text of a value is
/// visible if it is of printable ASCII characters and tabs.
pub proof fn law_header_values_have_no_controls(text: Seq<char>, bytes: Seq<u8>)
    ensures
        is_header_value(text) <==> forall|i: int|
            0 <= i < encode_utf8(text).len() ==> {
                let byte = #[trigger] encode_utf8(text)[i];
                byte == 9 || (byte >= 32 && byte != 127)
            },
        all_visible(bytes) <==> forall|i: int|
            0 <= i < bytes.len() ==> {
                let byte = #[trigger] bytes[i];
                byte == 9 || 32 <= byte <= 126
            },
{
}

} // verus!
