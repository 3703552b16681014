use vstd::prelude::*;

use crate::strutil::{find_char_from, free_of, substring};

verus! {

/// `name` and `value` are the parts of `h` around its first colon.
pub open spec fn is_header_split(h: Seq<char>, name: Seq<char>, value: Seq<char>) -> bool {
    exists|i: int|
        0 <= i < h.len() && (#[trigger] h[i]) == ':' && (forall|j: int| 0 <= j < i ==> h[j] != ':')
            && name == h.take(i) && value == h.skip(i + 1)
}

/// A caller-supplied header that does not hold the `name: value` separator.
#[derive(Clone, Debug, PartialEq)]
pub struct HeaderFormatError {
    pub header: String,
}

/// Splits one caller header at its first colon into name and value; the
/// value keeps whatever stands after the colon, leading whitespace included,
/// as the transport ignores it anyway.
pub fn split_header(header: &str) -> (r: Option<(String, String)>)
    ensures
        match r {
            Some(pair) => is_header_split(header@, pair.0@, pair.1@),
            None => free_of(header@, ':'),
        },
{
    let len = header.unicode_len();
    match find_char_from(header, 0, ':') {
        Some(i) => {
            let name = substring(header, 0, i);
            let value = substring(header, i + 1, len);
            proof {
                assert(name@ =~= header@.take(i as int));
                assert(value@ =~= header@.skip(i + 1));
            }
            Some((name, value))
        },
        None => None,
    }
}

/// Splits every caller header at its first colon, in their given order, or
/// reports the first header that has none; nothing is dropped silently.
pub fn split_headers(headers: &Vec<String>) -> (r: Result<Vec<(String, String)>, HeaderFormatError>)
    ensures
        match r {
            Ok(v) => v@.len() == headers@.len() && forall|i: int|
                0 <= i < headers@.len() ==> is_header_split(
                    (#[trigger] headers@[i])@,
                    v@[i].0@,
                    v@[i].1@,
                ),
            Err(e) => exists|i: int|
                0 <= i < headers@.len() && free_of((#[trigger] headers@[i])@, ':') && e.header@
                    == headers@[i]@,
        },
{
    let mut split: Vec<(String, String)> = Vec::new();
    let len = headers.len();
    let mut k: usize = 0;
    while k < len
        invariant
            len == headers@.len(),
            k <= len,
            split@.len() == k,
            forall|i: int|
                0 <= i < k ==> is_header_split(
                    (#[trigger] headers@[i])@,
                    split@[i].0@,
                    split@[i].1@,
                ),
        decreases len - k,
    {
        let header = &headers[k];
        match split_header(header.as_str()) {
            Some(pair) => {
                split.push(pair);
            },
            None => {
                return Err(HeaderFormatError { header: header.clone() });
            },
        }
        k = k + 1;
    }
    Ok(split)
}

} // verus!
