//! The URLs of requests: what a text is parsed to, and how parameters come into the query.

use url::Url;
use vstd::prelude::*;
use vstd::utf8::encode_utf8;

verus! {

/// The parsed URL of the `url` crate.
#[verifier::external_type_specification]
#[verifier::external_body]
pub struct ExUrl(url::Url);

/// The text that a URL holds: its serialization.
pub uninterp spec fn url_text(url: Url) -> Seq<char>;

/// What `Url::parse` makes of a text: the serialization of the URL, or the message of the error.
pub uninterp spec fn url_parsed(text: Seq<char>) -> Result<Seq<char>, Seq<char>>;

/// What appending a pair to the query makes of a URL.
pub uninterp spec fn url_with_pair(url: Seq<char>, key: Seq<char>, value: Seq<char>) -> Seq<char>;

/// A URL as it was parsed from a text, with pairs appended to its query and nothing else changed.
/// In the text of such a URL the first number sign begins the fragment, and the first question
/// mark before it begins the query.
#[derive(Debug)]
pub struct RequestUrl {
    url: Url,
}

impl RequestUrl {
    /// The URL itself.
    pub closed spec fn url(&self) -> Url {
        self.url
    }
}

impl View for RequestUrl {
    type V = Seq<char>;

    /// The text of the URL.
    open spec fn view(&self) -> Seq<char> {
        url_text(self.url())
    }
}

/// How many bytes one byte takes in a query: letters, digits, `*`, `-`, `.` and `_` stand for
/// themselves, a space is a plus sign, and any other byte is written with a percent sign and two
/// digits.
pub open spec fn encoded_width(byte: u8) -> nat {
    if byte == 0x20 || byte == 0x2a || byte == 0x2d || byte == 0x2e || byte == 0x5f || 0x30 <= byte
        <= 0x39 || 0x41 <= byte <= 0x5a || 0x61 <= byte <= 0x7a {
        1
    } else {
        3
    }
}

/// How many bytes several bytes take in a query.
pub open spec fn encoded_length(bytes: Seq<u8>) -> nat
    decreases bytes.len(),
{
    if bytes.len() == 0 {
        0
    } else {
        encoded_length(bytes.drop_last()) + encoded_width(bytes.last())
    }
}

/// What stands before the fragment of a URL: all of it where there is none.
pub open spec fn before_fragment(url: Seq<u8>) -> Seq<u8> {
    match url.index_of_first(0x23u8) {
        Some(at) => url.take(at),
        None => url,
    }
}

/// How many bytes stand between a URL without its fragment and a pair that is appended: a question
/// mark where there is no query, an ampersand after a query, and nothing after an empty one.
pub open spec fn joint(kept: Seq<u8>) -> nat {
    match kept.index_of_first(0x3fu8) {
        Some(at) => if at == kept.len() - 1 {
            0
        } else {
            1
        },
        None => 1,
    }
}

/// Whether a pair can be appended to the query of a URL. The positions at which the query and the
/// fragment begin have to be 32 bits wide; nothing else bounds a URL. So there has to be a query,
/// or it begins soon enough, and a fragment has to begin soon enough after the pair.
pub open spec fn has_room(url: Seq<char>, key: Seq<char>, value: Seq<char>) -> bool {
    let bytes = encode_utf8(url);
    let kept = before_fragment(bytes);
    &&& kept.contains(0x3fu8) || kept.len() <= u32::MAX
    &&& bytes.contains(0x23u8) ==> kept.len() + joint(kept) + encoded_length(encode_utf8(key)) + 1
        + encoded_length(encode_utf8(value)) <= u32::MAX
}

/// Where a byte stands first among the first so many of several.
fn first_position(bytes: &[u8], end: usize, wanted: u8) -> (r: Option<usize>)
    requires
        end <= bytes@.len(),
    ensures
        match r {
            Some(at) => bytes@.take(end as int).index_of_first(wanted) == Some(at as int),
            None => bytes@.take(end as int).index_of_first(wanted) is None,
        },
        r is Some <==> bytes@.take(end as int).contains(wanted),
{
    let ghost taken = bytes@.take(end as int);
    proof {
        taken.index_of_first_ensures(wanted);
    }
    let mut i: usize = 0;
    while i < end
        invariant
            i <= end <= bytes@.len(),
            taken == bytes@.take(end as int),
            forall|k: int| 0 <= k < i ==> #[trigger] taken[k] != wanted,
            match taken.index_of_first(wanted) {
                Some(at) => {
                    &&& 0 <= at < taken.len()
                    &&& taken[at] == wanted
                    &&& forall|k: int| 0 <= k < at ==> #[trigger] taken[k] != wanted
                },
                None => !taken.contains(wanted),
            },
        decreases end - i,
    {
        if bytes[i] == wanted {
            proof {
                assert(taken[i as int] == wanted);
                assert(taken.contains(wanted));
            }
            return Some(i);
        }
        i = i + 1;
    }
    None
}

/// How many bytes several bytes take in a query.
fn query_length(bytes: &[u8]) -> (r: u128)
    ensures
        r == encoded_length(bytes@),
        r <= 3 * usize::MAX,
{
    let mut length: u128 = 0;
    let mut i: usize = 0;
    while i < bytes.len()
        invariant
            i <= bytes@.len(),
            length == encoded_length(bytes@.take(i as int)),
            length <= 3 * i,
        decreases bytes@.len() - i,
    {
        let byte: u8 = bytes[i];
        proof {
            let taken = bytes@.take(i + 1);
            assert(taken.drop_last() =~= bytes@.take(i as int));
            assert(taken.last() == byte);
        }
        let plain = byte == 0x20 || byte == 0x2a || byte == 0x2d || byte == 0x2e || byte == 0x5f
            || (0x30 <= byte && byte <= 0x39) || (0x41 <= byte && byte <= 0x5a) || (0x61 <= byte
            && byte <= 0x7a);
        length = length + if plain {
            1
        } else {
            3
        };
        i = i + 1;
    }
    proof {
        assert(bytes@.take(i as int) =~= bytes@);
    }
    length
}

/// Whether a pair can be appended to the query of a URL with this text.
pub fn room_for(url: &str, key: &str, value: &str) -> (r: bool)
    ensures
        r == has_room(url@, key@, value@),
{
    let bytes = url.as_bytes();
    proof {
        assert(bytes@.take(bytes@.len() as int) =~= bytes@);
        bytes@.index_of_first_ensures(0x23u8);
    }
    let fragment = first_position(bytes, bytes.len(), 0x23);
    let end: usize = match fragment {
        Some(at) => at,
        None => bytes.len(),
    };
    let ghost kept = before_fragment(bytes@);
    proof {
        assert(kept =~= bytes@.take(end as int));
        kept.index_of_first_ensures(0x3fu8);
    }
    let query = first_position(bytes, end, 0x3f);
    if query.is_none() && end as u64 > u32::MAX as u64 {
        return false;
    }
    if fragment.is_none() {
        return true;
    }
    let joint: u128 = match query {
        Some(at) => if at == end - 1 {
            0
        } else {
            1
        },
        None => 1,
    };
    let key_bytes = key.as_bytes();
    let value_bytes = value.as_bytes();
    let key_length: u128 = query_length(key_bytes);
    let value_length: u128 = query_length(value_bytes);
    end as u128 + joint + key_length + 1 + value_length <= u32::MAX as u128
}

impl RequestUrl {
    /// `Url::parse`: the URL, or the message of its error; both depend on the text alone.
    #[verifier::external_body]
    pub(crate) fn parse(text: &str) -> (r: Result<RequestUrl, String>)
        ensures
            match r {
                Ok(parsed) => url_parsed(text@) == Ok::<Seq<char>, Seq<char>>(
                    url_text(parsed.url()),
                ),
                Err(message) => url_parsed(text@) == Err::<Seq<char>, Seq<char>>(message@),
            },
    {
        Ok(RequestUrl { url: Url::parse(text).map_err(|e| e.to_string())? })
    }

    /// `Url::query_pairs_mut` with `append_pair`: appends a pair to the query. The result depends
    /// on the serialization and the pair alone. The call panics where the position at which the
    /// query or the fragment begins does not fit in 32 bits.
    #[verifier::external_body]
    pub(crate) fn append_pair(&mut self, key: &str, value: &str)
        requires
            has_room(url_text(old(self).url()), key@, value@),
        ensures
            url_text(final(self).url()) == url_with_pair(url_text(old(self).url()), key@, value@),
    {
        self.url.query_pairs_mut().append_pair(key, value);
    }

    /// `Url::as_str` lends the serialization.
    #[verifier::external_body]
    pub(crate) fn as_str(&self) -> (r: &str)
        ensures
            r@ == url_text(self.url()),
    {
        self.url.as_str()
    }
}

} // verus!
