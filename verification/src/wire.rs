//! The vocabulary of the notification channel between a device and the
//! relay, in the same byte layout as everything else on the wire.

use vstd::prelude::*;
use vstd::array::array_as_slice;
use crate::codec::enc_bytes;
use crate::codec::enc_opt_fixed;
use crate::codec::enc_u64;
use crate::codec::get_bytes;
use crate::codec::get_raw;
use crate::codec::get_u64;
use crate::codec::lemma_enc_bytes_of_parse;
use crate::codec::lemma_enc_fixed_of_parse;
use crate::codec::lemma_enc_opt_fixed_of_parse;
use crate::codec::lemma_enc_u64_len;
use crate::codec::lemma_enc_u64_of_parse;
use crate::codec::lemma_parse_bytes_of_enc;
use crate::codec::lemma_parse_fixed_of_enc;
use crate::codec::lemma_parse_opt_fixed_of_enc;
use crate::codec::lemma_parse_u64_of_enc;
use crate::codec::lemma_stands_join;
use crate::codec::lemma_stands_split;
use crate::codec::lemma_stands_whole;
use crate::codec::parse_bytes;
use crate::codec::parse_fixed;
use crate::codec::parse_opt_fixed;
use crate::codec::parse_u64;
use crate::codec::put_bytes;
use crate::codec::put_opt_bytes;
use crate::codec::put_raw;
use crate::codec::put_u64;
use crate::codec::to_array32;
use crate::crypto::blake3_digest;
use crate::crypto::blake3_hash;
use crate::mutation::encode_mutation;
use crate::mutation::get_mutation;
use crate::mutation::hash_defined;
use crate::mutation::lemma_enc_mutation_of_parse;
use crate::mutation::lemma_parse_mutation_of_enc;
use crate::mutation::Mutation;
use crate::mutation::MutationView;
use crate::mutation::parse_mutation;
use crate::mutation::put_mutation;

verus! {

/// The part of a mutation that tells the devices of a cloud whether they
/// agree: everything but the salt and a disclosed key.
#[derive(Clone, Debug, PartialEq, Eq)]
pub struct MutationMetadata {
    index: u64,
    data: Vec<u8>,
    signature: Vec<u8>,
    public_key_hash: [u8; 32],
    public_key: Option<Vec<u8>>,
}

impl MutationMetadata {
    /// The mutation whose public part this is, with the fields that the
    /// metadata leaves out set to `salt` and `mutation_key`.
    pub closed spec fn completed(&self, salt: Seq<u8>, mutation_key: Option<Seq<u8>>) -> MutationView {
        MutationView {
            index: self.index,
            data: self.data@,
            signature: self.signature@,
            public_key_hash: self.public_key_hash@,
            public_key: match self.public_key {
                Some(k) => Some(k@),
                None => None,
            },
            salt,
            mutation_key,
        }
    }

    /// The public part of a mutation.
    pub fn of(mutation: &Mutation) -> (metadata: MutationMetadata)
        ensures
            metadata.completed(mutation@.salt, mutation@.mutation_key) == mutation@,
    {
        MutationMetadata {
            index: mutation.index,
            data: mutation.data.clone(),
            signature: mutation.signature.clone(),
            public_key_hash: mutation.public_key_hash,
            public_key: match &mutation.public_key {
                Some(k) => Some(k.clone()),
                None => None,
            },
        }
    }

    /// The hash of the public part of a mutation. Like the hash of the
    /// mutation itself it has no definition yet: nothing may call this, and
    /// the contract admits no call.
    pub fn hash() -> (digest: [u8; 32])
        requires
            hash_defined(),
    {
        vstd::pervasive::unreached()
    }
}

/// What a device asks of the relay over the notification channel.
#[derive(Clone, Debug, PartialEq, Eq)]
pub enum Action {
    /// Register a mutation to an encrypted cloud. Every cloud starts with no
    /// mutations; mutating one takes a signature made with its private key.
    MutateCloud(Mutation),
    /// Authenticate as a member of a cloud and begin receiving
    /// `CloudMutated` responses: the cloud's identifier and a signature.
    AuthCloud([u8; 32], Vec<u8>),
    /// Get a mutation by index.
    GetMutation(u64),
    /// Keepalive.
    Ping,
}

/// What the relay tells a device over the notification channel.
#[derive(Clone, Debug, PartialEq, Eq)]
pub enum Response {
    /// The latest known index.
    Authenticated(u64),
    /// A new mutation has occurred: the latest known index and, where the
    /// relay gives one, the hash of the transaction.
    CloudMutated(u64, Option<[u8; 32]>),
    /// The stored mutation for an index that was asked for.
    CloudMutation(Mutation),
    /// Keepalive.
    Pong,
}

/// An [`Action`] as plain mathematical data.
pub enum ActionView {
    MutateCloud(MutationView),
    AuthCloud(Seq<u8>, Seq<u8>),
    GetMutation(u64),
    Ping,
}

/// A [`Response`] as plain mathematical data.
pub enum ResponseView {
    Authenticated(u64),
    CloudMutated(u64, Option<Seq<u8>>),
    CloudMutation(MutationView),
    Pong,
}

impl View for Action {
    type V = ActionView;

    open spec fn view(&self) -> ActionView {
        match *self {
            Action::MutateCloud(m) => ActionView::MutateCloud(m@),
            Action::AuthCloud(id, signature) => ActionView::AuthCloud(id@, signature@),
            Action::GetMutation(index) => ActionView::GetMutation(index),
            Action::Ping => ActionView::Ping,
        }
    }
}

impl View for Response {
    type V = ResponseView;

    open spec fn view(&self) -> ResponseView {
        match *self {
            Response::Authenticated(index) => ResponseView::Authenticated(index),
            Response::CloudMutated(index, hash) => ResponseView::CloudMutated(
                index,
                match hash {
                    Some(h) => Some(h@),
                    None => None,
                },
            ),
            Response::CloudMutation(m) => ResponseView::CloudMutation(m@),
            Response::Pong => ResponseView::Pong,
        }
    }
}

impl ActionView {
    /// The field lengths that every action in memory has.
    pub open spec fn wf(self) -> bool {
        match self {
            ActionView::MutateCloud(m) => m.wf(),
            ActionView::AuthCloud(id, signature) => id.len() == 32 && signature.len() <= u64::MAX,
            _ => true,
        }
    }
}

impl ResponseView {
    /// The field lengths that every response in memory has.
    pub open spec fn wf(self) -> bool {
        match self {
            ResponseView::CloudMutated(_, Some(hash)) => hash.len() == 32,
            ResponseView::CloudMutation(m) => m.wf(),
            _ => true,
        }
    }
}

/// The frame of an action: a tag byte, then the fields.
pub open spec fn encode_action(a: ActionView) -> Seq<u8> {
    match a {
        ActionView::MutateCloud(m) => seq![0u8] + encode_mutation(m),
        ActionView::AuthCloud(id, signature) => seq![1u8] + id + enc_bytes(signature),
        ActionView::GetMutation(index) => seq![2u8] + enc_u64(index),
        ActionView::Ping => seq![3u8],
    }
}

/// The action that a whole frame encodes, if it encodes one.
pub open spec fn decode_action(s: Seq<u8>) -> Option<ActionView> {
    if s.len() == 0 {
        None
    } else if s[0] == 0 {
        match parse_mutation(s, 1) {
            Some((m, next)) => if next == s.len() {
                Some(ActionView::MutateCloud(m))
            } else {
                None
            },
            None => None,
        }
    } else if s[0] == 1 {
        match parse_fixed(s, 1, 32) {
            Some((id, pos1)) => match parse_bytes(s, pos1) {
                Some((signature, next)) => if next == s.len() {
                    Some(ActionView::AuthCloud(id, signature))
                } else {
                    None
                },
                None => None,
            },
            None => None,
        }
    } else if s[0] == 2 {
        match parse_u64(s, 1) {
            Some((index, next)) => if next == s.len() {
                Some(ActionView::GetMutation(index))
            } else {
                None
            },
            None => None,
        }
    } else if s[0] == 3 && s.len() == 1 {
        Some(ActionView::Ping)
    } else {
        None
    }
}

/// Decoding undoes encoding.
pub proof fn lemma_decode_encode_action(a: ActionView)
    requires
        a.wf(),
    ensures
        decode_action(encode_action(a)) == Some(a),
{
    let s = encode_action(a);
    lemma_stands_whole(s);
    match a {
        ActionView::MutateCloud(m) => {
            lemma_stands_split(s, 0, seq![0u8], encode_mutation(m));
            lemma_parse_mutation_of_enc(s, 1, m);
        },
        ActionView::AuthCloud(id, signature) => {
            lemma_stands_split(s, 0, seq![1u8] + id, enc_bytes(signature));
            lemma_stands_split(s, 0, seq![1u8], id);
            lemma_parse_fixed_of_enc(s, 1, id);
            lemma_parse_bytes_of_enc(s, 33, signature);
        },
        ActionView::GetMutation(index) => {
            lemma_stands_split(s, 0, seq![2u8], enc_u64(index));
            lemma_enc_u64_len(index);
            lemma_parse_u64_of_enc(s, 1, index);
        },
        ActionView::Ping => {},
    }
}

/// Only the frame of an action decodes to it: the frame is unique.
pub proof fn lemma_encode_decode_action(s: Seq<u8>)
    requires
        decode_action(s) is Some,
    ensures
        decode_action(s).unwrap().wf(),
        encode_action(decode_action(s).unwrap()) == s,
{
    let tag = seq![s[0]];
    assert(s.subrange(0, 1) =~= tag);
    assert(s.subrange(0, s.len() as int) =~= s);
    if s[0] == 0 {
        lemma_enc_mutation_of_parse(s, 1);
        let (m, next) = parse_mutation(s, 1).unwrap();
        lemma_stands_join(s, 0, tag, encode_mutation(m));
    } else if s[0] == 1 {
        lemma_enc_fixed_of_parse(s, 1, 32);
        let (id, pos1) = parse_fixed(s, 1, 32).unwrap();
        lemma_enc_bytes_of_parse(s, pos1);
        let (signature, next) = parse_bytes(s, pos1).unwrap();
        lemma_stands_join(s, 0, tag, id);
        lemma_stands_join(s, 0, tag + id, enc_bytes(signature));
    } else if s[0] == 2 {
        lemma_enc_u64_of_parse(s, 1);
        let (index, next) = parse_u64(s, 1).unwrap();
        lemma_enc_u64_len(index);
        lemma_stands_join(s, 0, tag, enc_u64(index));
    } else {
        assert(s =~= seq![3u8]);
    }
}

/// The frame of a response: a tag byte, then the fields.
pub open spec fn encode_response(r: ResponseView) -> Seq<u8> {
    match r {
        ResponseView::Authenticated(index) => seq![0u8] + enc_u64(index),
        ResponseView::CloudMutated(index, hash) => seq![1u8] + enc_u64(index) + enc_opt_fixed(hash),
        ResponseView::CloudMutation(m) => seq![2u8] + encode_mutation(m),
        ResponseView::Pong => seq![3u8],
    }
}

/// The response that a whole frame encodes, if it encodes one.
pub open spec fn decode_response(s: Seq<u8>) -> Option<ResponseView> {
    if s.len() == 0 {
        None
    } else if s[0] == 0 {
        match parse_u64(s, 1) {
            Some((index, next)) => if next == s.len() {
                Some(ResponseView::Authenticated(index))
            } else {
                None
            },
            None => None,
        }
    } else if s[0] == 1 {
        match parse_u64(s, 1) {
            Some((index, pos1)) => match parse_opt_fixed(s, pos1, 32) {
                Some((hash, next)) => if next == s.len() {
                    Some(ResponseView::CloudMutated(index, hash))
                } else {
                    None
                },
                None => None,
            },
            None => None,
        }
    } else if s[0] == 2 {
        match parse_mutation(s, 1) {
            Some((m, next)) => if next == s.len() {
                Some(ResponseView::CloudMutation(m))
            } else {
                None
            },
            None => None,
        }
    } else if s[0] == 3 && s.len() == 1 {
        Some(ResponseView::Pong)
    } else {
        None
    }
}

/// Decoding undoes encoding.
pub proof fn lemma_decode_encode_response(r: ResponseView)
    requires
        r.wf(),
    ensures
        decode_response(encode_response(r)) == Some(r),
{
    let s = encode_response(r);
    lemma_stands_whole(s);
    match r {
        ResponseView::Authenticated(index) => {
            lemma_stands_split(s, 0, seq![0u8], enc_u64(index));
            lemma_enc_u64_len(index);
            lemma_parse_u64_of_enc(s, 1, index);
        },
        ResponseView::CloudMutated(index, hash) => {
            lemma_stands_split(s, 0, seq![1u8] + enc_u64(index), enc_opt_fixed(hash));
            lemma_stands_split(s, 0, seq![1u8], enc_u64(index));
            lemma_enc_u64_len(index);
            lemma_parse_u64_of_enc(s, 1, index);
            lemma_parse_opt_fixed_of_enc(s, 9, hash, 32);
        },
        ResponseView::CloudMutation(m) => {
            lemma_stands_split(s, 0, seq![2u8], encode_mutation(m));
            lemma_parse_mutation_of_enc(s, 1, m);
        },
        ResponseView::Pong => {},
    }
}

/// Only the frame of a response decodes to it: the frame is unique.
pub proof fn lemma_encode_decode_response(s: Seq<u8>)
    requires
        decode_response(s) is Some,
    ensures
        decode_response(s).unwrap().wf(),
        encode_response(decode_response(s).unwrap()) == s,
{
    let tag = seq![s[0]];
    assert(s.subrange(0, 1) =~= tag);
    assert(s.subrange(0, s.len() as int) =~= s);
    if s[0] == 0 {
        lemma_enc_u64_of_parse(s, 1);
        let (index, next) = parse_u64(s, 1).unwrap();
        lemma_enc_u64_len(index);
        lemma_stands_join(s, 0, tag, enc_u64(index));
    } else if s[0] == 1 {
        lemma_enc_u64_of_parse(s, 1);
        let (index, pos1) = parse_u64(s, 1).unwrap();
        lemma_enc_u64_len(index);
        lemma_enc_opt_fixed_of_parse(s, pos1, 32);
        let (hash, next) = parse_opt_fixed(s, pos1, 32).unwrap();
        lemma_stands_join(s, 0, tag, enc_u64(index));
        lemma_stands_join(s, 0, tag + enc_u64(index), enc_opt_fixed(hash));
    } else if s[0] == 2 {
        lemma_enc_mutation_of_parse(s, 1);
        let (m, next) = parse_mutation(s, 1).unwrap();
        lemma_stands_join(s, 0, tag, encode_mutation(m));
    } else {
        assert(s =~= seq![3u8]);
    }
}

impl Action {
    /// The frame of the action.
    pub fn to_bytes(&self) -> (bytes: Vec<u8>)
        ensures
            bytes@ == encode_action(self@),
    {
        let mut out: Vec<u8> = Vec::new();
        match self {
            Action::MutateCloud(m) => {
                out.push(0u8);
                put_mutation(&mut out, m);
            },
            Action::AuthCloud(id, signature) => {
                out.push(1u8);
                put_raw(&mut out, array_as_slice(id));
                put_bytes(&mut out, signature.as_slice());
            },
            Action::GetMutation(index) => {
                out.push(2u8);
                put_u64(&mut out, *index);
            },
            Action::Ping => {
                out.push(3u8);
            },
        }
        assert(out@ =~= encode_action(self@));
        out
    }

    /// Reads an action from its frame. Bytes that are not the frame of any
    /// action, or that go on behind one, are refused.
    pub fn from_bytes(bytes: &[u8]) -> (r: Option<Action>)
        ensures
            match r {
                Some(a) => decode_action(bytes@) == Some(a@),
                None => decode_action(bytes@) is None,
            },
    {
        if bytes.len() == 0 {
            return None;
        }
        let tag = bytes[0];
        if tag == 0 {
            match get_mutation(bytes, 1) {
                Some((m, next)) => {
                    if next == bytes.len() {
                        Some(Action::MutateCloud(m))
                    } else {
                        None
                    }
                },
                None => None,
            }
        } else if tag == 1 {
            let (id, pos1) = match get_raw(bytes, 1, 32) {
                Some(x) => x,
                None => return None,
            };
            match get_bytes(bytes, pos1) {
                Some((signature, next)) => {
                    if next == bytes.len() {
                        Some(Action::AuthCloud(to_array32(id.as_slice()), signature))
                    } else {
                        None
                    }
                },
                None => None,
            }
        } else if tag == 2 {
            match get_u64(bytes, 1) {
                Some((index, next)) => {
                    if next == bytes.len() {
                        Some(Action::GetMutation(index))
                    } else {
                        None
                    }
                },
                None => None,
            }
        } else if tag == 3 && bytes.len() == 1 {
            Some(Action::Ping)
        } else {
            None
        }
    }
}

impl Response {
    /// The frame of the response.
    pub fn to_bytes(&self) -> (bytes: Vec<u8>)
        ensures
            bytes@ == encode_response(self@),
    {
        let mut out: Vec<u8> = Vec::new();
        match self {
            Response::Authenticated(index) => {
                out.push(0u8);
                put_u64(&mut out, *index);
            },
            Response::CloudMutated(index, hash) => {
                out.push(1u8);
                put_u64(&mut out, *index);
                match hash {
                    None => {
                        out.push(0u8);
                    },
                    Some(h) => {
                        out.push(1u8);
                        put_raw(&mut out, array_as_slice(h));
                    },
                }
            },
            Response::CloudMutation(m) => {
                out.push(2u8);
                put_mutation(&mut out, m);
            },
            Response::Pong => {
                out.push(3u8);
            },
        }
        assert(out@ =~= encode_response(self@));
        out
    }

    /// Reads a response from its frame. Bytes that are not the frame of any
    /// response, or that go on behind one, are refused.
    pub fn from_bytes(bytes: &[u8]) -> (r: Option<Response>)
        ensures
            match r {
                Some(a) => decode_response(bytes@) == Some(a@),
                None => decode_response(bytes@) is None,
            },
    {
        if bytes.len() == 0 {
            return None;
        }
        let tag = bytes[0];
        if tag == 0 {
            match get_u64(bytes, 1) {
                Some((index, next)) => {
                    if next == bytes.len() {
                        Some(Response::Authenticated(index))
                    } else {
                        None
                    }
                },
                None => None,
            }
        } else if tag == 1 {
            let (index, pos1) = match get_u64(bytes, 1) {
                Some(x) => x,
                None => return None,
            };
            if pos1 >= bytes.len() {
                return None;
            }
            let present = bytes[pos1];
            if present == 0 {
                if pos1 + 1 == bytes.len() {
                    Some(Response::CloudMutated(index, None))
                } else {
                    None
                }
            } else if present == 1 {
                match get_raw(bytes, pos1 + 1, 32) {
                    Some((hash, next)) => {
                        if next == bytes.len() {
                            Some(Response::CloudMutated(index, Some(to_array32(hash.as_slice()))))
                        } else {
                            None
                        }
                    },
                    None => None,
                }
            } else {
                None
            }
        } else if tag == 2 {
            match get_mutation(bytes, 1) {
                Some((m, next)) => {
                    if next == bytes.len() {
                        Some(Response::CloudMutation(m))
                    } else {
                        None
                    }
                },
                None => None,
            }
        } else if tag == 3 && bytes.len() == 1 {
            Some(Response::Pong)
        } else {
            None
        }
    }
}

} // verus!
