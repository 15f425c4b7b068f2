//! What a cloud says about itself: when it was made, what it is called, and
//! where its relay is. The record is stored in the cloud's own journal, so it
//! is replicated like everything else.

use vstd::prelude::*;
use vstd::string::*;
use vstd::utf8::*;
use crate::codec::enc_bytes;
use crate::codec::enc_opt_bytes;
use crate::codec::enc_u64;
use crate::codec::get_bytes;
use crate::codec::get_opt_bytes;
use crate::codec::get_u64;
use crate::codec::lemma_enc_bytes_of_parse;
use crate::codec::lemma_enc_opt_bytes_of_parse;
use crate::codec::lemma_enc_u64_len;
use crate::codec::lemma_enc_u64_of_parse;
use crate::codec::lemma_parse_bytes_of_enc;
use crate::codec::lemma_parse_opt_bytes_of_enc;
use crate::codec::lemma_parse_u64_of_enc;
use crate::codec::lemma_stands_join;
use crate::codec::lemma_stands_split;
use crate::codec::lemma_stands_whole;
use crate::codec::parse_bytes;
use crate::codec::parse_opt_bytes;
use crate::codec::parse_u64;
use crate::codec::put_bytes;
use crate::codec::put_u64;
use crate::text::bytes_leq;
use crate::text::lemma_lex_total;
use crate::text::lemma_lex_transitive;
use crate::text::lex_leq;

verus! {

/// Calls `String::from_utf8`, which gives the string exactly when the bytes
/// are valid UTF-8; the string then reads as the characters those bytes
/// decode to.
#[verifier::external_body]
pub(crate) fn string_from_utf8(bytes: Vec<u8>) -> (text: Option<String>)
    ensures
        text is Some <==> valid_utf8(bytes@),
        text matches Some(s) ==> s@ == decode_utf8(bytes@),
{
    String::from_utf8(bytes).ok()
}

/// Asks `web_time::SystemTime` for the seconds since the Unix epoch; a clock
/// set before the epoch reads as zero. Nothing is promised of the number.
#[verifier::external_body]
pub(crate) fn unix_seconds_now() -> (seconds: u64) {
    web_time::SystemTime::now().duration_since(web_time::UNIX_EPOCH).map(|d| d.as_secs()).unwrap_or(0)
}

/// Draws a name from `names::Generator`, or the empty string where the
/// generator gives none. Nothing is promised of the name.
#[verifier::external_body]
pub(crate) fn random_name() -> (name: String) {
    names::Generator::default().next().unwrap_or_default()
}

/// Meta information about a cloud.
#[derive(Clone, Debug, PartialEq, Eq)]
pub struct CloudMetadata {
    /// Seconds since the Unix epoch at which the cloud was made.
    pub created_at: u64,
    pub name: String,
    pub description: String,
    /// Where the cloud's relay is, if it has one of its own.
    pub remote_url: Option<String>,
}

/// A [`CloudMetadata`] as plain mathematical data.
pub struct MetadataView {
    pub created_at: u64,
    pub name: Seq<char>,
    pub description: Seq<char>,
    pub remote_url: Option<Seq<char>>,
}

impl View for CloudMetadata {
    type V = MetadataView;

    open spec fn view(&self) -> MetadataView {
        MetadataView {
            created_at: self.created_at,
            name: self.name@,
            description: self.description@,
            remote_url: match self.remote_url {
                Some(url) => Some(url@),
                None => None,
            },
        }
    }
}

impl MetadataView {
    /// The texts are short enough for their length prefixes.
    pub open spec fn wf(self) -> bool {
        &&& encode_utf8(self.name).len() <= u64::MAX
        &&& encode_utf8(self.description).len() <= u64::MAX
        &&& (self.remote_url matches Some(url) ==> encode_utf8(url).len() <= u64::MAX)
    }
}

/// The UTF-8 bytes of an optional text.
pub open spec fn opt_utf8(text: Option<Seq<char>>) -> Option<Seq<u8>> {
    match text {
        Some(t) => Some(encode_utf8(t)),
        None => None,
    }
}

/// The stored form of the record: the time, then the texts as UTF-8.
pub open spec fn encode_metadata(m: MetadataView) -> Seq<u8> {
    enc_u64(m.created_at) + enc_bytes(encode_utf8(m.name)) + enc_bytes(encode_utf8(m.description))
        + enc_opt_bytes(opt_utf8(m.remote_url))
}

/// The record that a whole byte string encodes, if it encodes one.
pub open spec fn decode_metadata(s: Seq<u8>) -> Option<MetadataView> {
    match parse_u64(s, 0) {
        Some((created_at, pos1)) => match parse_bytes(s, pos1) {
            Some((name, pos2)) => match parse_bytes(s, pos2) {
                Some((description, pos3)) => match parse_opt_bytes(s, pos3) {
                    Some((remote_url, pos4)) => if pos4 == s.len() && valid_utf8(name) && valid_utf8(
                        description,
                    ) && (remote_url is Some ==> valid_utf8(remote_url.unwrap())) {
                        Some(
                            MetadataView {
                                created_at,
                                name: decode_utf8(name),
                                description: decode_utf8(description),
                                remote_url: match remote_url {
                                    Some(url) => Some(decode_utf8(url)),
                                    None => None,
                                },
                            },
                        )
                    } else {
                        None
                    },
                    None => None,
                },
                None => None,
            },
            None => None,
        },
        None => None,
    }
}

/// Decoding undoes encoding.
pub proof fn lemma_decode_encode_metadata(m: MetadataView)
    requires
        m.wf(),
    ensures
        decode_metadata(encode_metadata(m)) == Some(m),
{
    broadcast use encode_utf8_valid_utf8, encode_utf8_decode_utf8;

    let s = encode_metadata(m);
    let e1 = enc_u64(m.created_at);
    let e2 = enc_bytes(encode_utf8(m.name));
    let e3 = enc_bytes(encode_utf8(m.description));
    let e4 = enc_opt_bytes(opt_utf8(m.remote_url));
    lemma_stands_whole(s);
    lemma_stands_split(s, 0, e1 + e2 + e3, e4);
    lemma_stands_split(s, 0, e1 + e2, e3);
    lemma_stands_split(s, 0, e1, e2);
    lemma_enc_u64_len(m.created_at);
    lemma_parse_u64_of_enc(s, 0, m.created_at);
    lemma_parse_bytes_of_enc(s, 8, encode_utf8(m.name));
    lemma_parse_bytes_of_enc(s, 8 + e2.len() as int, encode_utf8(m.description));
    lemma_parse_opt_bytes_of_enc(s, 8 + e2.len() as int + e3.len() as int, opt_utf8(m.remote_url));
}

/// Only the encoding of a record decodes to it: the stored form is unique.
pub proof fn lemma_encode_decode_metadata(s: Seq<u8>)
    requires
        decode_metadata(s) is Some,
    ensures
        decode_metadata(s).unwrap().wf(),
        encode_metadata(decode_metadata(s).unwrap()) == s,
{
    broadcast use decode_utf8_encode_utf8;

    let (created_at, pos1) = parse_u64(s, 0).unwrap();
    let (name, pos2) = parse_bytes(s, pos1).unwrap();
    let (description, pos3) = parse_bytes(s, pos2).unwrap();
    let (remote_url, pos4) = parse_opt_bytes(s, pos3).unwrap();
    lemma_enc_u64_of_parse(s, 0);
    lemma_enc_bytes_of_parse(s, pos1);
    lemma_enc_bytes_of_parse(s, pos2);
    lemma_enc_opt_bytes_of_parse(s, pos3);
    lemma_enc_u64_len(created_at);
    let m = decode_metadata(s).unwrap();
    assert(opt_utf8(m.remote_url) == remote_url);
    lemma_stands_join(s, 0, enc_u64(created_at), enc_bytes(name));
    lemma_stands_join(s, 0, enc_u64(created_at) + enc_bytes(name), enc_bytes(description));
    lemma_stands_join(
        s,
        0,
        enc_u64(created_at) + enc_bytes(name) + enc_bytes(description),
        enc_opt_bytes(remote_url),
    );
    assert(s.subrange(0, s.len() as int) =~= s);
}

/// The order in which clouds are listed: the older first, and of two made in
/// the same second the one whose name sorts first.
pub open spec fn listed_before(a: MetadataView, b: MetadataView) -> bool {
    a.created_at < b.created_at || (a.created_at == b.created_at && lex_leq(
        encode_utf8(a.name),
        encode_utf8(b.name),
    ))
}

/// Of two clouds one is listed no later than the other.
pub proof fn lemma_listed_total(a: MetadataView, b: MetadataView)
    ensures
        listed_before(a, b) || listed_before(b, a),
{
    lemma_lex_total(encode_utf8(a.name), encode_utf8(b.name));
}

/// The listing order passes on.
pub proof fn lemma_listed_transitive(a: MetadataView, b: MetadataView, c: MetadataView)
    requires
        listed_before(a, b),
        listed_before(b, c),
    ensures
        listed_before(a, c),
{
    if a.created_at == b.created_at && b.created_at == c.created_at {
        lemma_lex_transitive(encode_utf8(a.name), encode_utf8(b.name), encode_utf8(c.name));
    }
}

impl CloudMetadata {
    /// Whether this cloud is listed no later than `other`.
    pub fn comes_before(&self, other: &CloudMetadata) -> (r: bool)
        ensures
            r == listed_before(self@, other@),
    {
        if self.created_at == other.created_at {
            bytes_leq(self.name.as_str().as_bytes(), other.name.as_str().as_bytes())
        } else {
            self.created_at < other.created_at
        }
    }

    /// The stored form of the record.
    pub fn to_bytes(&self) -> (bytes: Vec<u8>)
        ensures
            bytes@ == encode_metadata(self@),
            self@.wf(),
    {
        let mut out: Vec<u8> = Vec::new();
        put_u64(&mut out, self.created_at);
        let name = self.name.as_str().as_bytes();
        let description = self.description.as_str().as_bytes();
        assert(name@.len() == name.len() && description@.len() == description.len());
        put_bytes(&mut out, name);
        put_bytes(&mut out, description);
        match &self.remote_url {
            None => {
                out.push(0u8);
            },
            Some(url) => {
                let url = url.as_str().as_bytes();
                assert(url@.len() == url.len());
                out.push(1u8);
                put_bytes(&mut out, url);
            },
        }
        assert(out@ =~= encode_metadata(self@));
        out
    }

    /// Reads a record from its stored form. Bytes that are not the stored
    /// form of any record, or that go on behind one, are refused.
    pub fn from_bytes(bytes: &[u8]) -> (r: Option<CloudMetadata>)
        ensures
            match r {
                Some(m) => decode_metadata(bytes@) == Some(m@),
                None => decode_metadata(bytes@) is None,
            },
    {
        let (created_at, pos1) = match get_u64(bytes, 0) {
            Some(x) => x,
            None => return None,
        };
        let (name, pos2) = match get_bytes(bytes, pos1) {
            Some(x) => x,
            None => return None,
        };
        let (description, pos3) = match get_bytes(bytes, pos2) {
            Some(x) => x,
            None => return None,
        };
        let (remote_url, pos4) = match get_opt_bytes(bytes, pos3) {
            Some(x) => x,
            None => return None,
        };
        if pos4 != bytes.len() {
            return None;
        }
        let name = match string_from_utf8(name) {
            Some(x) => x,
            None => return None,
        };
        let description = match string_from_utf8(description) {
            Some(x) => x,
            None => return None,
        };
        let remote_url = match remote_url {
            Some(url) => match string_from_utf8(url) {
                Some(x) => Some(x),
                None => return None,
            },
            None => None,
        };
        Some(CloudMetadata { created_at, name, description, remote_url })
    }

    /// A record for a cloud made at `created_at` and called `name`, with no
    /// description and no relay of its own.
    pub fn create(created_at: u64, name: String) -> (metadata: CloudMetadata)
        ensures
            metadata@ == (MetadataView {
                created_at,
                name: name@,
                description: Seq::<char>::empty(),
                remote_url: None,
            }),
    {
        CloudMetadata { created_at, name, description: String::new(), remote_url: None }
    }

    /// A copy of the record.
    pub fn duplicate(&self) -> (copy: CloudMetadata)
        ensures
            copy@ == self@,
    {
        CloudMetadata {
            created_at: self.created_at,
            name: self.name.clone(),
            description: self.description.clone(),
            remote_url: match &self.remote_url {
                Some(url) => Some(url.clone()),
                None => None,
            },
        }
    }

    /// A record for a cloud made now, under a random name. The name is held
    /// to [`FRESH_NAME_LIMIT`], so that the record always fits the
    /// transaction that writes it.
    pub fn fresh() -> (metadata: CloudMetadata)
        ensures
            metadata@.description == Seq::<char>::empty(),
            metadata@.remote_url is None,
            encode_utf8(metadata@.name).len() <= FRESH_NAME_LIMIT,
    {
        CloudMetadata::create(unix_seconds_now(), bounded_name(random_name()))
    }
}

/// The longest name, in bytes of UTF-8, that a record made by
/// [`CloudMetadata::fresh`] carries.
pub const FRESH_NAME_LIMIT: usize = 255;

/// What [`bounded_name`] makes of a name: the name, or no name where it is
/// longer than [`FRESH_NAME_LIMIT`].
pub open spec fn name_within_limit(name: Seq<char>) -> Seq<char> {
    if encode_utf8(name).len() <= FRESH_NAME_LIMIT {
        name
    } else {
        Seq::empty()
    }
}

/// Holds a generated name to [`FRESH_NAME_LIMIT`]: a longer one is let go,
/// as a generator that gives no name is.
pub fn bounded_name(name: String) -> (bounded: String)
    ensures
        bounded@ == name_within_limit(name@),
        encode_utf8(bounded@).len() <= FRESH_NAME_LIMIT,
{
    if name.as_str().as_bytes().len() <= FRESH_NAME_LIMIT {
        name
    } else {
        let bounded = String::new();
        assert(encode_utf8(bounded@) =~= Seq::<u8>::empty());
        bounded
    }
}

} // verus!
