//! HTTP header fields: the `http` crate's `HeaderMap`.
use crate::text::{chars_of, lower, opt_view};
use http::HeaderMap;
use vstd::prelude::*;
use vstd::utf8::encode_utf8;

verus! {

/// The header map of the `http` crate.
#[verifier::external_type_specification]
#[verifier::external_body]
#[verifier::reject_recursive_types(T)]
pub struct ExHeaderMap<T>(http::HeaderMap<T>);

/// A header value of the `http` crate.
#[verifier::external_type_specification]
#[verifier::external_body]
pub struct ExHeaderValue(http::HeaderValue);

/// The fields of a header map: for each name, in lower case, its values in
/// order.
pub uninterp spec fn fields(h: http::HeaderMap) -> Map<Seq<char>, Seq<Seq<u8>>>;

/// How many names a header map has.
pub uninterp spec fn name_count(h: http::HeaderMap) -> nat;

/// With fewer names than this a map always has room for one more: its largest
/// table has 32768 places, and it is asked to grow past that only once a fifth of
/// them are taken.
pub const MAX_NAMES: usize = 6_554;

/// Text that a header value can hold: no control characters but the tab.
pub open spec fn is_value_text(s: Seq<char>) -> bool {
    forall|i: int| 0 <= i < s.len() ==> value_char(#[trigger] s[i])
}

pub open spec fn value_char(c: char) -> bool {
    c == '\t' || (c >= ' ' && c != '\u{7f}')
}

/// Letters, digits and dashes: text that a header name can be.
pub open spec fn is_name(s: Seq<char>) -> bool {
    &&& 0 < s.len() <= 64
    &&& forall|i: int| 0 <= i < s.len() ==> name_char(#[trigger] s[i])
}

pub open spec fn name_char(c: char) -> bool {
    ||| 'a' <= c && c <= 'z'
    ||| 'A' <= c && c <= 'Z'
    ||| '0' <= c && c <= '9'
    ||| c == '-'
}

/// The bytes are printable ASCII characters or tabs.
pub open spec fn is_ascii_text(b: Seq<u8>) -> bool {
    forall|i: int| 0 <= i < b.len() ==> ((32 <= #[trigger] b[i] && b[i] < 127) || b[i] == 9)
}

pub open spec fn ascii_chars(b: Seq<u8>) -> Seq<char> {
    b.map_values(|x: u8| x as char)
}

/// The first value under a name, if it is plain text.
pub open spec fn first_text(f: Map<Seq<char>, Seq<Seq<u8>>>, name: Seq<char>) -> Option<Seq<char>> {
    if f.contains_key(name) && f[name].len() > 0 && is_ascii_text(f[name][0]) {
        Some(ascii_chars(f[name][0]))
    } else {
        None
    }
}

/// The fields with `value` as the only value under `name`.
pub open spec fn with_field(
    f: Map<Seq<char>, Seq<Seq<u8>>>,
    name: Seq<char>,
    value: Seq<char>,
) -> Map<Seq<char>, Seq<Seq<u8>>> {
    f.insert(lower(name), seq![encode_utf8(value)])
}

/// The fields with `value` under `name`, if a header value can hold it.
pub open spec fn with_valid_field(
    f: Map<Seq<char>, Seq<Seq<u8>>>,
    name: Seq<char>,
    value: Option<Seq<char>>,
) -> Map<Seq<char>, Seq<Seq<u8>>> {
    match value {
        Some(v) if is_value_text(v) => with_field(f, name, v),
        _ => f,
    }
}

/// `HeaderMap::get` finds the first value under a name, whatever the case of the
/// name, and `HeaderValue::to_str` reads it where it is printable ASCII text.
#[verifier::external_body]
fn get_text(h: &HeaderMap, name: &str) -> (r: Option<String>)
    requires
        is_name(name@),
    ensures
        opt_view(r) == first_text(fields(*h), lower(name@)),
{
    h.get(name).and_then(|v| v.to_str().ok()).map(|s| s.to_owned())
}

/// `HeaderValue::from_str` takes text without control characters other than the
/// tab; `HeaderMap::insert` then makes it the only value under the name, in
/// lower case, and adds at most that one name. `insert` panics where the table
/// of the map is full: with fewer than [`MAX_NAMES`] names it never is. The
/// result says whether the text was taken; if not, the map is as it was.
#[verifier::external_body]
fn insert_text(h: &mut HeaderMap, name: &'static str, value: &str) -> (r: bool)
    requires
        is_name(name@),
        name_count(*old(h)) < MAX_NAMES,
    ensures
        r == is_value_text(value@),
        fields(*final(h)) == with_valid_field(fields(*old(h)), name@, Some(value@)),
        name_count(*final(h)) <= name_count(*old(h)) + 1,
{
    match http::HeaderValue::from_str(value) {
        Ok(v) => {
            h.insert(name, v);
            true
        },
        Err(_) => false,
    }
}

pub open spec fn no_fields() -> Map<Seq<char>, Seq<Seq<u8>>> {
    Map::empty()
}

/// `HeaderMap::new` makes a map without fields.
#[verifier::external_body]
pub(crate) fn empty_headers() -> (r: HeaderMap)
    ensures
        fields(r) == no_fields(),
        name_count(r) == 0,
{
    HeaderMap::new()
}

/// `HeaderMap::keys_len` counts the names of a map.
#[verifier::external_body]
fn count_names(h: &HeaderMap) -> (r: usize)
    ensures
        r == name_count(*h),
{
    h.keys_len()
}

/// Whether a header value can hold the text.
pub fn fits_header(s: &str) -> (r: bool)
    ensures
        r == is_value_text(s@),
{
    let cs = chars_of(s);
    for i in 0..cs.len()
        invariant
            cs@ == s@,
            forall|j: int| 0 <= j < i ==> value_char(#[trigger] s@[j]),
    {
        let c = cs[i];
        if !(c == '\t' || (c >= ' ' && c != '\u{7f}')) {
            assert(!value_char(s@[i as int]));
            return false;
        }
    }
    true
}

/// The map has room for `n` more names.
pub open spec fn room_for(h: HeaderMap, n: nat) -> bool {
    name_count(h) + n <= MAX_NAMES
}

/// Whether the map has room for `n` more names.
pub fn has_room(h: &HeaderMap, n: usize) -> (r: bool)
    requires
        n <= MAX_NAMES,
    ensures
        r == room_for(*h, n as nat),
{
    let count = count_names(h);
    count <= MAX_NAMES - n
}

/// The first value under `name`, if it is plain text.
pub fn header_text(h: &HeaderMap, name: &str) -> (r: Option<String>)
    requires
        is_name(name@),
    ensures
        opt_view(r) == first_text(fields(*h), lower(name@)),
{
    get_text(h, name)
}

/// Makes `value` the only value under `name`, if a header value can hold it.
pub(crate) fn set_header(h: &mut HeaderMap, name: &'static str, value: &str, Ghost(n): Ghost<nat>) -> (r:
    bool)
    requires
        is_name(name@),
        n > 0,
        room_for(*old(h), n),
    ensures
        r == is_value_text(value@),
        fields(*final(h)) == with_valid_field(fields(*old(h)), name@, Some(value@)),
        room_for(*final(h), (n - 1) as nat),
{
    insert_text(h, name, value)
}

} // verus!
