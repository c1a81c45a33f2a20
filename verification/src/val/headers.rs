//! Objects as HTTP header maps.
use std::str::FromStr;
use vstd::prelude::*;
use vstd::utf8::encode_utf8;

use crate::collections::entries::entries_of;
use crate::val::object::Object;

verus! {

/// A map of HTTP headers.
#[verifier::external_type_specification]
#[verifier::external_body]
#[verifier::reject_recursive_types(T)]
pub struct ExHeaderMap<T>(http::HeaderMap<T>);

/// The value of an HTTP header.
#[verifier::external_type_specification]
#[verifier::external_body]
pub struct ExHeaderValue(http::HeaderValue);

/// What a header map holds: for each name, in lower case, the bytes of its values.
pub uninterp spec fn header_contents(map: http::HeaderMap<http::HeaderValue>) -> Map<
    Seq<char>,
    Seq<Seq<u8>>,
>;

/// The contents of an empty header map.
pub open spec fn no_headers() -> Map<Seq<char>, Seq<Seq<u8>>> {
    Map::empty()
}

/// A character that a header name may have.
pub open spec fn is_name_char(c: char) -> bool {
    ||| 'a' <= c <= 'z'
    ||| 'A' <= c <= 'Z'
    ||| '0' <= c <= '9'
    ||| "!#$%&'*+-.^_`|~"@.contains(c)
}

/// A header name: at least one and at most 65535 characters, all of them allowed.
pub open spec fn is_header_name(s: Seq<char>) -> bool {
    1 <= s.len() <= 65535 && forall|i: int| 0 <= i < s.len() ==> is_name_char(#[trigger] s[i])
}

/// A letter in lower case.
pub open spec fn lower_char(c: char) -> char {
    if 'A' <= c <= 'Z' {
        (c as int + 32) as char
    } else {
        c
    }
}

/// A string in lower case.
pub open spec fn lower(s: Seq<char>) -> Seq<char> {
    s.map_values(|c: char| lower_char(c))
}

/// The bytes of a header value: no control byte but the tab.
pub open spec fn is_header_value(bytes: Seq<u8>) -> bool {
    forall|i: int|
        0 <= i < bytes.len() ==> (#[trigger] bytes[i] >= 32 && bytes[i] != 127) || bytes[i] == 9
}

/// Calls `HeaderName::from_str`: it takes exactly the header names, and turns them into lower
/// case.
#[verifier::external_body]
fn parse_header_name(s: &str) -> (r: Option<String>)
    ensures
        match r {
            Some(name) => is_header_name(s@) && name@ == lower(s@),
            None => !is_header_name(s@),
        },
{
    http::HeaderName::from_str(s).ok().map(|name| name.as_str().to_owned())
}

/// Calls `HeaderValue::from_str`: it takes exactly the header values, and keeps their bytes.
#[verifier::external_body]
fn parse_header_value(s: &str) -> (r: Option<Vec<u8>>)
    ensures
        match r {
            Some(value) => is_header_value(encode_utf8(s@)) && value@ == encode_utf8(s@),
            None => !is_header_value(encode_utf8(s@)),
        },
{
    http::HeaderValue::from_str(s).ok().map(|value| value.as_bytes().to_vec())
}

/// Calls `HeaderMap::new`: an empty map.
#[verifier::external_body]
fn new_header_map() -> (r: http::HeaderMap<http::HeaderValue>)
    ensures
        header_contents(r) == no_headers(),
{
    http::HeaderMap::new()
}

/// Calls `HeaderMap::try_insert`: gives the name this value alone, or, in a map that is full,
/// changes nothing. A map of fewer than 6554 names is never full. Of one that has as many or
/// more, whether it is full depends on how the names hash; it is not stated.
#[verifier::external_body]
fn insert_header(
    map: &mut http::HeaderMap<http::HeaderValue>,
    name: &str,
    value: &[u8],
) -> (inserted: bool)
    requires
        is_header_name(name@),
        is_header_value(value@),
    ensures
        inserted ==> header_contents(*final(map)) == header_contents(*old(map)).insert(
            lower(name@),
            seq![value@],
        ),
        !inserted ==> header_contents(*final(map)) == header_contents(*old(map)),
        !inserted ==> header_contents(*old(map)).dom().len() >= 6554,
{
    let name = http::HeaderName::from_str(name).expect("a header name");
    let value = http::HeaderValue::from_bytes(value).expect("a header value");
    map.try_insert(name, value).is_ok()
}

/// What header maps hold once the given names and values are put in, one after the other: each
/// name in lower case, with the last of its values.
pub open spec fn headers_of(fields: Seq<(Seq<char>, Seq<char>)>) -> Map<Seq<char>, Seq<Seq<u8>>>
    decreases fields.len(),
{
    if fields.len() == 0 {
        no_headers()
    } else {
        headers_of(fields.drop_last()).insert(
            lower(fields.last().0),
            seq![encode_utf8(fields.last().1)],
        )
    }
}

/// A header name in lower case is a header name, and in lower case already.
proof fn lemma_lower(s: Seq<char>)
    ensures
        is_header_name(s) ==> is_header_name(lower(s)),
        lower(lower(s)) == lower(s),
{
    assert forall|c: char| is_name_char(c) implies is_name_char(#[trigger] lower_char(c)) by {}
    assert(lower(lower(s)) =~= lower(s));
}

/// There are no more headers than fields.
proof fn lemma_headers_of_len(fields: Seq<(Seq<char>, Seq<char>)>)
    ensures
        headers_of(fields).dom().finite(),
        headers_of(fields).dom().len() <= fields.len(),
    decreases fields.len(),
{
    if fields.len() > 0 {
        lemma_headers_of_len(fields.drop_last());
        assert(headers_of(fields).dom() =~= headers_of(fields.drop_last()).dom().insert(
            lower(fields.last().0),
        ));
    }
}

/// Why an object is no header map.
pub enum HeaderError<E> {
    /// A key is no header name.
    InvalidName,
    /// A value is no string.
    NotString(E),
    /// A value is a string, but no header value.
    InvalidValue,
    /// The header map is full.
    TooMany,
}

/// The value of the entry may be the string `text`, and the two are a header.
pub open spec fn is_header<V>(entry: (Seq<char>, V), text: String) -> bool where String: TryFrom<V> {
    &&& is_header_name(entry.0)
    &&& call_ensures(String::try_from, (entry.1,), Ok(text))
    &&& is_header_value(encode_utf8(text@))
}

/// The fields that the entries give with their values as strings.
pub open spec fn fields_of<V>(entries: Seq<(Seq<char>, V)>, texts: Seq<String>) -> Seq<
    (Seq<char>, Seq<char>),
> {
    Seq::new(texts.len(), |i: int| (entries[i].0, texts[i]@))
}

/// The entry at `i` is the first that is no header.
pub open spec fn first_bad<V>(entries: Seq<(Seq<char>, V)>, i: int) -> bool where
    String: TryFrom<V>,
 {
    &&& 0 <= i < entries.len()
    &&& exists|texts: Seq<String>|
        #![trigger texts.len()]
        texts.len() == i && forall|j: int| 0 <= j < i ==> is_header(entries[j], #[trigger] texts[j])
}

impl<V> Object<V> where String: TryFrom<V> {
    /// The object as a header map: its keys as names, in lower case, and its values as strings.
    /// The entries are taken in the order of their keys, and the first that is no header ends
    /// it. Where two keys differ only in case, the later of them stands. A header may find the
    /// map full, but only where it holds 6554 names or more by then. Whether it is full then
    /// depends on how the names hash; it is not stated.
    pub fn try_into_headers(self) -> (r: Result<
        http::HeaderMap<http::HeaderValue>,
        HeaderError<<String as TryFrom<V>>::Error>,
    >)
        ensures
            match r {
                Ok(map) => exists|texts: Seq<String>|
                    {
                        &&& texts.len() == self@.len()
                        &&& forall|j: int|
                            0 <= j < self@.len() ==> is_header(self@[j], #[trigger] texts[j])
                        &&& header_contents(map) == headers_of(#[trigger] fields_of(self@, texts))
                    },
                Err(HeaderError::InvalidName) => exists|i: int|
                    #[trigger] first_bad(self@, i) && !is_header_name(self@[i].0),
                Err(HeaderError::NotString(e)) => exists|i: int|
                    {
                        &&& #[trigger] first_bad(self@, i)
                        &&& is_header_name(self@[i].0)
                        &&& call_ensures(String::try_from, (self@[i].1,), Err(e))
                    },
                Err(HeaderError::InvalidValue) => exists|i: int, text: String|
                    {
                        &&& #[trigger] first_bad(self@, i)
                        &&& is_header_name(self@[i].0)
                        &&& #[trigger] call_ensures(String::try_from, (self@[i].1,), Ok(text))
                        &&& !is_header_value(encode_utf8(text@))
                    },
                Err(HeaderError::TooMany) => {
                    &&& self@.len() > 6554
                    &&& exists|texts: Seq<String>, text: String|
                        {
                            &&& texts.len() < self@.len()
                            &&& forall|j: int|
                                0 <= j < texts.len() ==> is_header(self@[j], #[trigger] texts[j])
                            &&& #[trigger] is_header(self@[texts.len() as int], text)
                            &&& headers_of(#[trigger] fields_of(self@, texts)).dom().len() >= 6554
                        }
                },
            },
    {
        let entries = self.0.0.into_entries();
        let ghost held = self@;
        let mut map = new_header_map();
        let ghost mut texts: Seq<String> = Seq::empty();
        assert(fields_of(held, texts) =~= Seq::empty());
        for (key, value) in it: entries
            invariant
                it.seq() == entries@,
                held == self@,
                held == entries_of(entries@),
                texts.len() == it.index(),
                forall|j: int| 0 <= j < texts.len() ==> is_header(held[j], #[trigger] texts[j]),
                header_contents(map) == headers_of(fields_of(held, texts)),
        {
            let ghost i = it.index() as int;
            assert(held[i] == (key@, value));
            assert(first_bad(held, i));
            let name = match parse_header_name(key.as_str()) {
                Some(name) => name,
                None => {
                    return Err(HeaderError::InvalidName);
                },
            };
            let text = match String::try_from(value) {
                Ok(text) => text,
                Err(e) => {
                    return Err(HeaderError::NotString(e));
                },
            };
            assert(call_ensures(String::try_from, (held[i].1,), Ok(text)));
            let bytes = match parse_header_value(text.as_str()) {
                Some(bytes) => bytes,
                None => {
                    return Err(HeaderError::InvalidValue);
                },
            };
            proof {
                lemma_headers_of_len(fields_of(held, texts));
                lemma_lower(key@);
                let more = texts.push(text);
                assert(fields_of(held, more).drop_last() =~= fields_of(held, texts));
                assert(fields_of(held, more).last() == (key@, text@));
                assert(is_header(held[i], text));
            }
            if !insert_header(&mut map, name.as_str(), bytes.as_slice()) {
                return Err(HeaderError::TooMany);
            }
            proof {
                texts = texts.push(text);
            }
        }
        Ok(map)
    }
}

/// In lower case, the letters from `A` to `Z` give way to those from `a` to `z`, and every other
/// character stays.
pub proof fn law_lower_case(s: Seq<char>, i: int)
    requires
        0 <= i < s.len(),
    ensures
        lower(s).len() == s.len(),
        'A' <= s[i] <= 'Z' ==> lower(s)[i] as int - 'a' as int == s[i] as int - 'A' as int,
        !('A' <= s[i] <= 'Z') ==> lower(s)[i] == s[i],
{
}

/// Of several fields whose names are one in lower case, the last one gives the value.
pub proof fn law_last_header_stands(fields: Seq<(Seq<char>, Seq<char>)>, name: Seq<char>, i: int)
    requires
        0 <= i < fields.len(),
        lower(fields[i].0) == name,
        forall|j: int| i < j < fields.len() ==> lower((#[trigger] fields[j]).0) != name,
    ensures
        headers_of(fields).contains_key(name),
        headers_of(fields)[name] == seq![encode_utf8(fields[i].1)],
    decreases fields.len(),
{
    if i < fields.len() - 1 {
        let rest = fields.drop_last();
        assert(lower(fields[fields.len() - 1].0) != name);
        assert forall|j: int| i < j < rest.len() implies lower((#[trigger] rest[j]).0) != name by {
            assert(lower(fields[j].0) != name);
        }
        law_last_header_stands(rest, name, i);
    }
}

/// A name that no field has is no header.
pub proof fn law_no_other_headers(fields: Seq<(Seq<char>, Seq<char>)>, name: Seq<char>)
    requires
        forall|j: int| 0 <= j < fields.len() ==> lower((#[trigger] fields[j]).0) != name,
    ensures
        !headers_of(fields).contains_key(name),
    decreases fields.len(),
{
    if fields.len() > 0 {
        let rest = fields.drop_last();
        assert(lower(fields[fields.len() - 1].0) != name);
        assert forall|j: int| 0 <= j < rest.len() implies lower((#[trigger] rest[j]).0) != name by {
            assert(lower(fields[j].0) != name);
        }
        law_no_other_headers(rest, name);
    }
}

/// The fields of an object are its keys with the strings of its values, one by one. An entry is a
/// header exactly where its key is a header name and its string a header value.
pub proof fn law_fields_are_keys_and_strings<V>(
    entries: Seq<(Seq<char>, V)>,
    texts: Seq<String>,
    i: int,
) where String: TryFrom<V>
    requires
        0 <= i < texts.len() <= entries.len(),
    ensures
        fields_of(entries, texts).len() == texts.len(),
        fields_of(entries, texts)[i].0 == entries[i].0,
        fields_of(entries, texts)[i].1 == texts[i]@,
        is_header(entries[i], texts[i]) ==> is_header_name(entries[i].0) && is_header_value(
            encode_utf8(texts[i]@),
        ) && call_ensures(String::try_from, (entries[i].1,), Ok(texts[i])),
        is_header_name(entries[i].0) && is_header_value(encode_utf8(texts[i]@)) && call_ensures(
            String::try_from,
            (entries[i].1,),
            Ok(texts[i]),
        ) ==> is_header(entries[i], texts[i]),
{
}

/// Before the first entry that is no header, all are.
pub proof fn law_headers_before_the_first_bad_one<V>(
    entries: Seq<(Seq<char>, V)>,
    i: int,
    j: int,
) where String: TryFrom<V>
    requires
        first_bad(entries, i),
        0 <= j < i,
    ensures
        i < entries.len(),
        exists|text: String| #[trigger] is_header(entries[j], text),
{
    let texts = choose|texts: Seq<String>|
        #![trigger texts.len()]
        texts.len() == i && forall|j: int| 0 <= j < i ==> is_header(entries[j], #[trigger] texts[j]);
    assert(is_header(entries[j], texts[j]));
}

/// The entries up to `n` are headers with the strings of their values.
pub open spec fn all_headers<V>(
    entries: Seq<(Seq<char>, V)>,
    text: spec_fn(V) -> Seq<char>,
    n: int,
) -> bool {
    forall|i: int|
        0 <= i < n ==> is_header_name((#[trigger] entries[i]).0) && is_header_value(
            encode_utf8(text(entries[i].1)),
        )
}

/// An object of which every entry is a header is the header map of its fields.
pub proof fn law_headers_of_object<V>(
    object: Object<V>,
    r: Result<http::HeaderMap<http::HeaderValue>, HeaderError<<String as TryFrom<V>>::Error>>,
    text: spec_fn(V) -> Seq<char>,
) where String: TryFrom<V>
    requires
        call_ensures(Object::<V>::try_into_headers, (object,), r),
        forall|v: V, s: Result<String, <String as TryFrom<V>>::Error>| #[trigger]
            call_ensures(String::try_from, (v,), s) ==> s is Ok && s->Ok_0@ == text(v),
        all_headers(object@, text, object@.len() as int),
        object@.len() <= 6554,
    ensures
        r is Ok,
        header_contents(r->Ok_0) == headers_of(
            Seq::new(object@.len(), |i: int| (object@[i].0, text(object@[i].1))),
        ),
{
    let entries = object@;
    match r {
        Ok(map) => {
            let texts = choose|texts: Seq<String>|
                {
                    &&& texts.len() == entries.len()
                    &&& forall|j: int|
                        0 <= j < entries.len() ==> is_header(entries[j], #[trigger] texts[j])
                    &&& header_contents(map) == headers_of(#[trigger] fields_of(entries, texts))
                };
            assert forall|i: int| 0 <= i < texts.len() implies (#[trigger] texts[i])@ == text(
                entries[i].1,
            ) by {
                assert(is_header(entries[i], texts[i]));
            }
            assert(fields_of(entries, texts) =~= Seq::new(
                entries.len(),
                |i: int| (entries[i].0, text(entries[i].1)),
            ));
        },
        Err(_) => {
            assert forall|i: int| first_bad(entries, i) implies is_header_name(
                (#[trigger] entries[i]).0,
            ) && is_header_value(encode_utf8(text(entries[i].1))) by {}
        },
    }
}

/// An object that has an entry that is no header is refused for the first of them: for its name,
/// where that is no header name, and otherwise for its value.
pub proof fn law_first_bad_entry_is_refused<V>(
    object: Object<V>,
    r: Result<http::HeaderMap<http::HeaderValue>, HeaderError<<String as TryFrom<V>>::Error>>,
    text: spec_fn(V) -> Seq<char>,
    i: int,
) where String: TryFrom<V>
    requires
        call_ensures(Object::<V>::try_into_headers, (object,), r),
        forall|v: V, s: Result<String, <String as TryFrom<V>>::Error>| #[trigger]
            call_ensures(String::try_from, (v,), s) ==> s is Ok && s->Ok_0@ == text(v),
        0 <= i < object@.len() <= 6554,
        all_headers(object@, text, i),
        !(is_header_name(object@[i].0) && is_header_value(encode_utf8(text(object@[i].1)))),
    ensures
        r is Err,
        is_header_name(object@[i].0) ==> r->Err_0 is InvalidValue,
        !is_header_name(object@[i].0) ==> r->Err_0 is InvalidName,
{
    let entries = object@;
    assert forall|k: int| #[trigger] first_bad(entries, k) implies k <= i by {
        if i < k {
            law_headers_before_the_first_bad_one(entries, k, i);
        }
    }
    match r {
        Ok(map) => {
            let texts = choose|texts: Seq<String>|
                {
                    &&& texts.len() == entries.len()
                    &&& forall|j: int|
                        0 <= j < entries.len() ==> is_header(entries[j], #[trigger] texts[j])
                    &&& header_contents(map) == headers_of(#[trigger] fields_of(entries, texts))
                };
            assert(is_header(entries[i], texts[i]));
        },
        Err(HeaderError::InvalidName) => {
            let k = choose|k: int| #[trigger] first_bad(entries, k) && !is_header_name(entries[k].0);
            assert(k <= i);
            if k < i {
                assert(is_header_name(entries[k].0));
            }
        },
        Err(HeaderError::InvalidValue) => {
            let (k, s) = choose|k: int, s: String|
                {
                    &&& #[trigger] first_bad(entries, k)
                    &&& is_header_name(entries[k].0)
                    &&& #[trigger] call_ensures(String::try_from, (entries[k].1,), Ok(s))
                    &&& !is_header_value(encode_utf8(s@))
                };
            assert(k <= i);
            if k < i {
                assert(is_header_name(entries[k].0));
            }
        },
        Err(HeaderError::NotString(_)) => {},
        Err(HeaderError::TooMany) => {},
    }
}

} // verus!
