//! Header values typed at parse time, and the per-request header map.
//!
//! A header value is classified purely syntactically: if the raw text reads
//! fully as a base-10 signed 32-bit integer it is stored as that integer,
//! otherwise as the text itself. The map keeps insertion order; on duplicate
//! keys the last insertion wins.

use vstd::prelude::*;

use crate::numdec::spec_parse_i32;
use crate::strutil::str_eq;

verus! {

/// A header value as stored: either a fully numeric value or plain text.
pub enum TypedHeader {
    Number(i32),
    Str(String),
}

/// The mathematical shape of a stored header value.
pub enum HeaderValue {
    Number(i32),
    Text(Seq<char>),
}

impl TypedHeader {
    /// The value this header holds, at the specification level.
    pub open spec fn view_value(&self) -> HeaderValue {
        match self {
            TypedHeader::Number(n) => HeaderValue::Number(*n),
            TypedHeader::Str(s) => HeaderValue::Text(s@),
        }
    }
}

/// How a raw header value is classified when stored.
pub open spec fn spec_classify(v: Seq<char>) -> HeaderValue {
    match spec_parse_i32(v) {
        Some(n) => HeaderValue::Number(n),
        None => HeaderValue::Text(v),
    }
}

/// Types a raw header value: the stored form is the integer exactly when the
/// whole text reads as one.
pub fn typed_value(v: String) -> (t: TypedHeader)
    ensures
        t.view_value() == spec_classify(v@),
{
    match crate::numdec::parse_i32(v.as_str()) {
        Some(n) => TypedHeader::Number(n),
        None => TypedHeader::Str(v),
    }
}

/// How every header value is typed: a value that reads fully as a base-10
/// signed 32-bit integer is stored as that integer, any other value is
/// stored as its text, unchanged.
pub proof fn lemma_header_value_typing(v: Seq<char>)
    ensures
        spec_parse_i32(v) matches Some(n) ==> spec_classify(v) == HeaderValue::Number(n),
        spec_parse_i32(v) is None ==> spec_classify(v) == HeaderValue::Text(v),
{
}

/// The last value stored under `key`, scanning entries in insertion order.
pub open spec fn spec_lookup(entries: Seq<(Seq<char>, HeaderValue)>, key: Seq<char>) -> Option<
    HeaderValue,
>
    decreases entries.len(),
{
    if entries.len() == 0 {
        None
    } else if entries.last().0 == key {
        Some(entries.last().1)
    } else {
        spec_lookup(entries.drop_last(), key)
    }
}

/// The header map of one request: names with their typed values, in
/// insertion order, looked up with last-occurrence-wins semantics.
pub struct HeaderMap {
    entries: Vec<(String, TypedHeader)>,
}

impl View for HeaderMap {
    type V = Seq<(Seq<char>, HeaderValue)>;

    closed spec fn view(&self) -> Seq<(Seq<char>, HeaderValue)> {
        self.entries@.map(|i: int, e: (String, TypedHeader)| (e.0@, e.1.view_value()))
    }
}

impl HeaderMap {
    /// An empty map.
    pub fn new() -> (r: HeaderMap)
        ensures
            r@ == Seq::<(Seq<char>, HeaderValue)>::empty(),
    {
        let r = HeaderMap { entries: Vec::new() };
        proof {
            assert(r@ =~= Seq::<(Seq<char>, HeaderValue)>::empty());
        }
        r
    }

    /// How many entries the map holds.
    pub fn len(&self) -> (n: usize)
        ensures
            n == self@.len(),
    {
        self.entries.len()
    }

    /// Stores `value` under `key`; a later entry for the same key shadows an
    /// earlier one.
    pub fn insert(&mut self, key: String, value: TypedHeader)
        ensures
            final(self)@ == old(self)@.push((key@, value.view_value())),
    {
        let ghost k = key@;
        let ghost v = value.view_value();
        self.entries.push((key, value));
        proof {
            assert(self@ =~= old(self)@.push((k, v)));
        }
    }

    /// The value stored under `key`, if any; of duplicates, the last wins.
    pub fn get(&self, key: &str) -> (r: Option<&TypedHeader>)
        ensures
            match r {
                Some(v) => spec_lookup(self@, key@) == Some(v.view_value()),
                None => spec_lookup(self@, key@) is None,
            },
    {
        let n = self.entries.len();
        let mut i: usize = n;
        proof {
            assert(self@.subrange(0, n as int) =~= self@);
        }
        while i > 0
            invariant
                n == self@.len(),
                n == self.entries@.len(),
                i <= n,
                spec_lookup(self@, key@) == spec_lookup(self@.subrange(0, i as int), key@),
            decreases i,
        {
            i = i - 1;
            let e = &self.entries[i];
            if str_eq(e.0.as_str(), key) {
                proof {
                    let pre = self@.subrange(0, i + 1);
                    assert(pre.last() == (e.0@, e.1.view_value()));
                }
                return Some(&e.1);
            }
            proof {
                let pre = self@.subrange(0, i + 1);
                assert(pre.last() == (e.0@, e.1.view_value()));
                assert(pre.drop_last() =~= self@.subrange(0, i as int));
            }
        }
        proof {
            assert(self@.subrange(0, 0) =~= Seq::<(Seq<char>, HeaderValue)>::empty());
        }
        None
    }
}

} // verus!
