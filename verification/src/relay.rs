//! The relay: an append-only store of opaque mutations, one dense run per
//! cloud. It holds no secret. It checks that a mutation is signed by the key
//! the cloud was made with and that it comes next in the cloud's run, and it
//! never overwrites or removes what it has stored.

use vstd::prelude::*;
use vstd::array::array_as_slice;
use vstd::string::*;
use crate::codec::bytes_eq;
use crate::codec::enc_u64;
use crate::codec::put_u64;
use crate::codec::to_array32;
use crate::crypto::hex_bytes;
use crate::crypto::hex_decode;
use crate::crypto::is_hex_text;
use crate::mutation::decode_mutation;
use crate::mutation::Mutation;
use crate::mutation::spec_verify;
use crate::text::decimal_u64;
use crate::text::parse_decimal;
use crate::text::same_text;
use crate::wire::Action;
use crate::wire::Response;
use crate::wire::ResponseView;

verus! {

/// The request was carried out and the answer has a body.
pub const STATUS_OK: u16 = 200;

/// The mutation was stored.
pub const STATUS_ACCEPTED: u16 = 204;

/// The request is malformed, or a first mutation came without its key.
pub const STATUS_MALFORMED: u16 = 400;

/// The mutation does not verify under the cloud's key.
pub const STATUS_UNAUTHORIZED: u16 = 401;

/// There is nothing at the place asked for.
pub const STATUS_NOT_FOUND: u16 = 404;

/// The mutation does not come next: its writer is behind or ahead.
pub const STATUS_STALE: u16 = 410;

/// What the relay tells the listeners of a cloud when it has stored a
/// mutation for it.
#[derive(Clone, Copy, Debug, PartialEq, Eq)]
pub struct Notice {
    pub cloud_id: [u8; 32],
    /// The number of mutations now stored for the cloud.
    pub count: u64,
}

impl Notice {
    /// The response that tells a listener of the cloud about the new count.
    pub fn response(&self) -> (response: Response)
        ensures
            response@ == ResponseView::CloudMutated(self.count, None),
    {
        Response::CloudMutated(self.count, None)
    }
}

/// What the relay answers.
#[derive(Clone, Debug, PartialEq, Eq)]
pub struct Reply {
    pub status: u16,
    pub body: Vec<u8>,
    /// Set exactly when a mutation was stored.
    pub notice: Option<Notice>,
}

/// How a request reached the relay.
#[derive(Clone, Copy, Debug, PartialEq, Eq, Structural)]
pub enum Method {
    Get,
    Post,
    Other,
}

/// What a request asks for.
#[derive(Clone, Copy, Debug, PartialEq, Eq, Structural)]
pub enum Route {
    State,
    Mutation,
    Mutate,
    Unknown,
}

/// The route that a method and a path name.
pub open spec fn route_of(method: Method, path: Seq<char>) -> Route {
    if method == Method::Get && path == "/state"@ {
        Route::State
    } else if method == Method::Get && path == "/mutation"@ {
        Route::Mutation
    } else if method == Method::Post && path == "/mutate"@ {
        Route::Mutate
    } else {
        Route::Unknown
    }
}

/// Finds the route of a request.
pub fn route(method: Method, path: &str) -> (r: Route)
    ensures
        r == route_of(method, path@),
{
    match method {
        Method::Get => {
            if same_text(path, "/state") {
                Route::State
            } else if same_text(path, "/mutation") {
                Route::Mutation
            } else {
                Route::Unknown
            }
        },
        Method::Post => {
            if same_text(path, "/mutate") {
                Route::Mutate
            } else {
                Route::Unknown
            }
        },
        Method::Other => Route::Unknown,
    }
}

/// An answer without a body.
fn bare(status: u16) -> (reply: Reply)
    ensures
        reply.status == status,
        reply.body@ == Seq::<u8>::empty(),
        reply.notice is None,
{
    Reply { status, body: Vec::new(), notice: None }
}

/// One cloud as the relay knows it.
struct CloudLog {
    id: [u8; 32],
    public_key: Vec<u8>,
    blobs: Vec<Vec<u8>>,
}

impl CloudLog {
    spec fn named(&self, id: Seq<u8>) -> bool {
        self.id@ == id
    }

    spec fn blobs_view(&self) -> Seq<Seq<u8>> {
        self.blobs@.map_values(|blob: Vec<u8>| blob@)
    }
}

/// The place of a cloud among those the relay knows.
spec fn position(clouds: Seq<CloudLog>, id: Seq<u8>) -> Option<int> {
    if exists|i: int| 0 <= i < clouds.len() && (#[trigger] clouds[i]).named(id) {
        Some(choose|i: int| 0 <= i < clouds.len() && (#[trigger] clouds[i]).named(id))
    } else {
        None
    }
}

/// No two clouds share an identifier.
spec fn distinct(clouds: Seq<CloudLog>) -> bool {
    forall|i: int, j: int|
        0 <= i < clouds.len() && 0 <= j < clouds.len() && i != j ==> (#[trigger] clouds[i]).id@
            != (#[trigger] clouds[j]).id@
}

/// Among distinct clouds a cloud has one place: where its log is.
proof fn lemma_position(clouds: Seq<CloudLog>, i: int, id: Seq<u8>)
    requires
        distinct(clouds),
        0 <= i < clouds.len(),
        clouds[i].named(id),
    ensures
        position(clouds, id) == Some(i),
{
    let chosen = position(clouds, id).unwrap();
    assert(clouds[chosen].named(id));
    if chosen != i {
        assert(clouds[chosen].id@ != clouds[i].id@);
    }
}

/// Logs that keep their identifiers keep every cloud in its place.
proof fn lemma_positions_kept(before: Seq<CloudLog>, after: Seq<CloudLog>)
    requires
        distinct(before),
        after.len() == before.len(),
        forall|j: int| 0 <= j < before.len() ==> (#[trigger] after[j]).id@ == before[j].id@,
    ensures
        distinct(after),
        forall|id: Seq<u8>| #[trigger] position(after, id) == position(before, id),
{
    assert forall|a: int, b: int|
        0 <= a < after.len() && 0 <= b < after.len() && a != b implies (#[trigger] after[a]).id@ != (
    #[trigger] after[b]).id@ by {
        assert(before[a].id@ != before[b].id@);
    }
    assert forall|id: Seq<u8>| #[trigger] position(after, id) == position(before, id) by {
        if exists|j: int| 0 <= j < before.len() && (#[trigger] before[j]).named(id) {
            let j = choose|j: int| 0 <= j < before.len() && (#[trigger] before[j]).named(id);
            assert(after[j].named(id));
            lemma_position(before, j, id);
            lemma_position(after, j, id);
        } else {
            if exists|j: int| 0 <= j < after.len() && (#[trigger] after[j]).named(id) {
                let j = choose|j: int| 0 <= j < after.len() && (#[trigger] after[j]).named(id);
                assert(before[j].named(id));
            }
        }
    }
}

/// The log of a cloud that was not known goes behind the others and leaves
/// every other cloud in its place.
proof fn lemma_position_pushed(before: Seq<CloudLog>, log: CloudLog)
    requires
        distinct(before),
        forall|j: int| 0 <= j < before.len() ==> !(#[trigger] before[j]).named(log.id@),
    ensures
        distinct(before.push(log)),
        position(before.push(log), log.id@) == Some(before.len() as int),
        forall|id: Seq<u8>|
            id != log.id@ ==> #[trigger] position(before.push(log), id) == position(before, id),
{
    let after = before.push(log);
    let last = before.len() as int;
    assert forall|a: int, b: int|
        0 <= a < after.len() && 0 <= b < after.len() && a != b implies (#[trigger] after[a]).id@ != (
    #[trigger] after[b]).id@ by {
        if a < last && b < last {
            assert(before[a].id@ != before[b].id@);
        } else if a < last {
            assert(!before[a].named(log.id@));
        } else {
            assert(!before[b].named(log.id@));
        }
    }
    assert(after[last].named(log.id@));
    lemma_position(after, last, log.id@);
    assert forall|id: Seq<u8>| id != log.id@ implies #[trigger] position(after, id) == position(
        before,
        id,
    ) by {
        if exists|j: int| 0 <= j < before.len() && (#[trigger] before[j]).named(id) {
            let j = choose|j: int| 0 <= j < before.len() && (#[trigger] before[j]).named(id);
            assert(after[j].named(id));
            lemma_position(before, j, id);
            lemma_position(after, j, id);
        } else {
            if exists|j: int| 0 <= j < after.len() && (#[trigger] after[j]).named(id) {
                let j = choose|j: int| 0 <= j < after.len() && (#[trigger] after[j]).named(id);
                assert(before[j].named(id));
            }
        }
    }
}

/// The identifier that a query parameter names: sixty-four hexadecimal
/// digits, as thirty-two bytes.
pub open spec fn named_cloud(text: Option<Seq<char>>) -> Option<Seq<u8>> {
    match text {
        Some(t) => if is_hex_text(t) && hex_bytes(t).len() == 32 {
            Some(hex_bytes(t))
        } else {
            None
        },
        None => None,
    }
}

/// The index that a query parameter names.
pub open spec fn named_index(text: Option<Seq<char>>) -> Option<u64> {
    match text {
        Some(t) => decimal_u64(t),
        None => None,
    }
}

/// The key a mutation is held against: the one it carries, else the one
/// the relay knows for its cloud.
pub open spec fn resolved_key(carried: Option<Seq<u8>>, known: Option<Seq<u8>>) -> Option<Seq<u8>> {
    if carried is Some {
        carried
    } else {
        known
    }
}

/// A stored mutation stands where its index says, belongs to the cloud it
/// is stored for, and verifies under the key it was held against: the one it
/// carries, else the cloud's.
pub open spec fn blob_in_place(blob: Seq<u8>, at: int, id: Seq<u8>, key: Seq<u8>) -> bool {
    match decode_mutation(blob) {
        Some(m) => {
            &&& m.index == at
            &&& m.public_key_hash == id
            &&& spec_verify(m, resolved_key(m.public_key, Some(key)).unwrap()) is Ok
        },
        None => false,
    }
}

/// The status with which the relay answers a mutation offered for a cloud of
/// which it holds `count` mutations and knows the key `known`.
pub open spec fn mutate_status(count: nat, known: Option<Seq<u8>>, body: Seq<u8>) -> u16 {
    match decode_mutation(body) {
        None => STATUS_MALFORMED,
        Some(m) => match resolved_key(m.public_key, known) {
            None => STATUS_MALFORMED,
            Some(key) => if spec_verify(m, key) is Err {
                STATUS_UNAUTHORIZED
            } else if m.index != count {
                STATUS_STALE
            } else {
                STATUS_ACCEPTED
            },
        },
    }
}

/// The relay takes a mutation only at the index that equals the number it
/// has stored, and once it has taken one there, it takes no other for that
/// index: the count has moved on.
pub proof fn lemma_accepts_once(
    count: nat,
    known: Option<Seq<u8>>,
    body: Seq<u8>,
    later_known: Option<Seq<u8>>,
    later_body: Seq<u8>,
)
    requires
        mutate_status(count, known, body) == STATUS_ACCEPTED,
        decode_mutation(later_body) is Some,
        decode_mutation(later_body).unwrap().index == decode_mutation(body).unwrap().index,
    ensures
        decode_mutation(body).unwrap().index == count,
        mutate_status(count + 1, later_known, later_body) != STATUS_ACCEPTED,
{
}

/// A mutation that comes next and verifies under the key it is held against
/// is taken.
pub proof fn lemma_next_verified_is_taken(
    m: crate::mutation::MutationView,
    key: Seq<u8>,
    count: nat,
    known: Option<Seq<u8>>,
)
    requires
        m.wf(),
        m.index == count,
        resolved_key(m.public_key, known) == Some(key),
        spec_verify(m, key) is Ok,
    ensures
        mutate_status(count, known, crate::mutation::encode_mutation(m)) == STATUS_ACCEPTED,
{
    crate::mutation::lemma_decode_encode_mutation(m);
}

/// A mutation whose index is not the stored count is never taken.
pub proof fn lemma_rejects_off_index(count: nat, known: Option<Seq<u8>>, body: Seq<u8>)
    requires
        decode_mutation(body) is Some,
        decode_mutation(body).unwrap().index != count,
    ensures
        mutate_status(count, known, body) != STATUS_ACCEPTED,
{
}

/// Reads a cloud identifier from a query parameter.
pub fn parse_cloud_id(text: Option<&str>) -> (r: Option<[u8; 32]>)
    ensures
        match r {
            Some(id) => named_cloud(
                match text {
                    Some(t) => Some(t@),
                    None => None,
                },
            ) == Some(id@),
            None => named_cloud(
                match text {
                    Some(t) => Some(t@),
                    None => None,
                },
            ) is None,
        },
{
    match text {
        None => None,
        Some(t) => match hex_decode(t) {
            None => None,
            Some(bytes) => {
                if bytes.len() != 32 {
                    None
                } else {
                    Some(to_array32(bytes.as_slice()))
                }
            },
        },
    }
}

/// The place of a cloud among those the relay knows.
fn find_cloud(clouds: &Vec<CloudLog>, id: &[u8; 32]) -> (r: Option<usize>)
    requires
        distinct(clouds@),
    ensures
        match r {
            Some(i) => i < clouds.len() && clouds@[i as int].named(id@) && position(clouds@, id@)
                == Some(i as int),
            None => position(clouds@, id@) is None && forall|i: int|
                0 <= i < clouds@.len() ==> !(#[trigger] clouds@[i]).named(id@),
        },
{
    let mut i: usize = 0;
    while i < clouds.len()
        invariant
            i <= clouds.len(),
            distinct(clouds@),
            forall|j: int| 0 <= j < i ==> !(#[trigger] clouds@[j]).named(id@),
        decreases clouds.len() - i,
    {
        if bytes_eq(array_as_slice(&clouds[i].id), array_as_slice(id)) {
            proof {
                lemma_position(clouds@, i as int, id@);
            }
            return Some(i);
        }
        i += 1;
    }
    None
}

/// The relay's store.
pub struct BTKServer {
    clouds: Vec<CloudLog>,
}

impl BTKServer {
    /// The mutations stored for a cloud, as they were sent, in index order.
    pub closed spec fn stored(&self, id: Seq<u8>) -> Seq<Seq<u8>> {
        match position(self.clouds@, id) {
            Some(i) => self.clouds@[i].blobs_view(),
            None => Seq::empty(),
        }
    }

    /// The public key the relay knows for a cloud.
    pub closed spec fn known_key(&self, id: Seq<u8>) -> Option<Seq<u8>> {
        match position(self.clouds@, id) {
            Some(i) => Some(self.clouds@[i].public_key@),
            None => None,
        }
    }

    /// The relay's invariant: each cloud is known once, and every stored
    /// mutation is in its place.
    pub closed spec fn wf(&self) -> bool {
        &&& distinct(self.clouds@)
        &&& forall|c: int| 0 <= c < self.clouds@.len() ==> (#[trigger] self.clouds@[c]).blobs@.len() > 0
        &&& forall|c: int, i: int|
            0 <= c < self.clouds@.len() && 0 <= i < self.clouds@[c].blobs@.len() ==> blob_in_place(
                #[trigger] self.clouds@[c].blobs@[i]@,
                i,
                self.clouds@[c].id@,
                self.clouds@[c].public_key@,
            )
    }

    /// What the relay has stored is dense and in place: the mutation at
    /// position `i` of a cloud carries index `i`, names that cloud, and
    /// verifies under the key it carries or, where it carries none, under
    /// the key the relay knows for the cloud.
    pub proof fn lemma_stored_in_place(&self, id: Seq<u8>, i: int)
        requires
            self.wf(),
            0 <= i < self.stored(id).len(),
        ensures
            self.known_key(id) is Some,
            blob_in_place(self.stored(id)[i], i, id, self.known_key(id).unwrap()),
    {
        let c = position(self.clouds@, id).unwrap();
        assert(self.clouds@[c].named(id));
        assert(self.clouds@[c].blobs_view()[i] == self.clouds@[c].blobs@[i]@);
    }

    /// What `GET /state` is answered with: the number of mutations stored
    /// for the cloud, as a little-endian `u64`; a missing or malformed
    /// identifier is refused.
    pub open spec fn answers_state(&self, cloud_id: Option<Seq<char>>, reply: Reply) -> bool {
        &&& reply.notice is None
        &&& match named_cloud(cloud_id) {
            Some(id) => reply.status == STATUS_OK && reply.body@ == enc_u64(
                self.stored(id).len() as u64,
            ),
            None => reply.status == STATUS_MALFORMED && reply.body@ == Seq::<u8>::empty(),
        }
    }

    /// What `GET /mutation` is answered with: the stored mutation at the
    /// index, as it was sent; nothing where the cloud's run is not that
    /// long; a missing or malformed parameter is refused.
    pub open spec fn answers_mutation(
        &self,
        cloud_id: Option<Seq<char>>,
        index: Option<Seq<char>>,
        reply: Reply,
    ) -> bool {
        &&& reply.notice is None
        &&& match (named_cloud(cloud_id), named_index(index)) {
            (Some(id), Some(i)) => if i < self.stored(id).len() {
                reply.status == STATUS_OK && reply.body@ == self.stored(id)[i as int]
            } else {
                reply.status == STATUS_NOT_FOUND && reply.body@ == Seq::<u8>::empty()
            },
            _ => reply.status == STATUS_MALFORMED && reply.body@ == Seq::<u8>::empty(),
        }
    }

    /// What `POST /mutate` is answered with, and what it makes of the store:
    /// the status is that of [`mutate_status`]; a mutation that is taken is
    /// stored as it came, behind the others of its cloud, at index zero its
    /// key is kept, and the listeners of the cloud are told the new count;
    /// one that is refused changes nothing.
    pub open spec fn answers_mutate(&self, body: Seq<u8>, reply: Reply, after: BTKServer) -> bool {
        &&& reply.body@ == Seq::<u8>::empty()
        &&& match decode_mutation(body) {
            None => reply.status == STATUS_MALFORMED,
            Some(m) => {
                let id = m.public_key_hash;
                &&& reply.status == mutate_status(self.stored(id).len(), self.known_key(id), body)
                &&& reply.status == STATUS_ACCEPTED ==> {
                    &&& after.stored(id) == self.stored(id).push(body)
                    &&& after.known_key(id) == if m.index == 0 {
                        resolved_key(m.public_key, self.known_key(id))
                    } else {
                        self.known_key(id)
                    }
                    &&& forall|other: Seq<u8>|
                        other != id ==> #[trigger] after.stored(other) == self.stored(other)
                            && after.known_key(other) == self.known_key(other)
                    &&& reply.notice matches Some(n) && n.cloud_id@ == id && n.count
                        == after.stored(id).len()
                }
            },
        }
        &&& reply.status != STATUS_ACCEPTED ==> {
            &&& reply.notice is None
            &&& forall|id: Seq<u8>|
                #[trigger] after.stored(id) == self.stored(id) && after.known_key(id)
                    == self.known_key(id)
        }
    }

    /// A relay that has stored nothing.
    pub fn new() -> (relay: BTKServer)
        ensures
            relay.wf(),
            forall|id: Seq<u8>| #[trigger] relay.stored(id) == Seq::<Seq<u8>>::empty(),
            forall|id: Seq<u8>| #[trigger] relay.known_key(id) is None,
    {
        BTKServer { clouds: Vec::new() }
    }

    /// What the relay says to an action that reaches it over the
    /// notification channel: a ping is answered, everything else goes the
    /// HTTP way and gets no answer here.
    pub fn handle_action(&self, action: &Action) -> (r: Option<Response>)
        ensures
            match r {
                Some(response) => action@ is Ping && response@ is Pong,
                None => !(action@ is Ping),
            },
    {
        match action {
            Action::Ping => Some(Response::Pong),
            _ => None,
        }
    }

    /// The public key the relay knows for a cloud: the one that came with
    /// the cloud's first mutation.
    pub fn get_public_key(&self, hash: &[u8; 32]) -> (key: Option<Vec<u8>>)
        requires
            self.wf(),
        ensures
            match key {
                Some(k) => self.known_key(hash@) == Some(k@),
                None => self.known_key(hash@) is None,
            },
    {
        match find_cloud(&self.clouds, hash) {
            Some(i) => Some(self.clouds[i].public_key.clone()),
            None => None,
        }
    }

    /// The number of mutations stored for a cloud.
    pub fn mutation_count(&self, id: &[u8; 32]) -> (n: u64)
        requires
            self.wf(),
        ensures
            n == self.stored(id@).len(),
    {
        match find_cloud(&self.clouds, id) {
            Some(i) => {
                assert(self.clouds@[i as int].blobs_view().len() == self.clouds@[i as int].blobs@.len());
                self.clouds[i].blobs.len() as u64
            },
            None => 0,
        }
    }

    /// Answers `GET /state`: the number of mutations stored for the cloud,
    /// as a little-endian `u64`; a missing or malformed identifier is
    /// refused.
    pub fn handle_state(&self, cloud_id: Option<&str>) -> (reply: Reply)
        requires
            self.wf(),
        ensures
            self.answers_state(
                match cloud_id {
                    Some(t) => Some(t@),
                    None => None,
                },
                reply,
            ),
    {
        match parse_cloud_id(cloud_id) {
            None => bare(STATUS_MALFORMED),
            Some(id) => {
                let mut body: Vec<u8> = Vec::new();
                put_u64(&mut body, self.mutation_count(&id));
                assert(body@ =~= enc_u64(self.stored(id@).len() as u64));
                Reply { status: STATUS_OK, body, notice: None }
            },
        }
    }

    /// Answers `GET /mutation`: the stored mutation at the index, as it was
    /// sent; nothing where the cloud's run is not that long; a missing or
    /// malformed parameter is refused.
    pub fn handle_get_mutation(&self, cloud_id: Option<&str>, index: Option<&str>) -> (reply: Reply)
        requires
            self.wf(),
        ensures
            self.answers_mutation(
                match cloud_id {
                    Some(t) => Some(t@),
                    None => None,
                },
                match index {
                    Some(t) => Some(t@),
                    None => None,
                },
                reply,
            ),
    {
        let id = match parse_cloud_id(cloud_id) {
            Some(id) => id,
            None => return bare(STATUS_MALFORMED),
        };
        let i = match index {
            Some(text) => match parse_decimal(text) {
                Some(i) => i,
                None => return bare(STATUS_MALFORMED),
            },
            None => return bare(STATUS_MALFORMED),
        };
        match find_cloud(&self.clouds, &id) {
            Some(c) => {
                assert(self.clouds@[c as int].blobs_view().len() == self.clouds@[c as int].blobs@.len());
                if i < self.clouds[c].blobs.len() as u64 {
                    let body = self.clouds[c].blobs[i as usize].clone();
                    assert(self.clouds@[c as int].blobs_view()[i as int] == body@);
                    Reply { status: STATUS_OK, body, notice: None }
                } else {
                    bare(STATUS_NOT_FOUND)
                }
            },
            None => bare(STATUS_NOT_FOUND),
        }
    }

    /// Answers `POST /mutate`. The body must be the wire form of a mutation;
    /// the key it is held against is the one it carries, else the one known
    /// for its cloud; it must verify under that key; and its index must be
    /// the number of mutations stored for its cloud. Then the body is stored
    /// as it came, behind the others, and at index zero the key is kept for
    /// the cloud. Whatever is refused leaves the store as it was.
    pub fn handle_mutate(&mut self, body: &[u8]) -> (reply: Reply)
        requires
            old(self).wf(),
        ensures
            final(self).wf(),
            old(self).answers_mutate(body@, reply, *final(self)),
    {
        let mutation = match Mutation::from_bytes(body) {
            Some(m) => m,
            None => return bare(STATUS_MALFORMED),
        };
        let ghost id = mutation@.public_key_hash;
        let place = find_cloud(&self.clouds, &mutation.public_key_hash);
        let public_key = match &mutation.public_key {
            Some(key) => key.clone(),
            None => match place {
                Some(c) => self.clouds[c].public_key.clone(),
                None => return bare(STATUS_MALFORMED),
            },
        };
        assert(Some(public_key@) == resolved_key(mutation@.public_key, self.known_key(id)));
        match mutation.verify(public_key.clone()) {
            Err(_) => return bare(STATUS_UNAUTHORIZED),
            Ok(()) => {},
        }
        let ghost before = self.clouds@;
        let ghost key_view = public_key@;
        let count: u64;
        match place {
            Some(c) => {
                assert(before[c as int].blobs_view().len() == before[c as int].blobs@.len());
                assert(before[c as int].blobs@.len() > 0);
                if mutation.index != self.clouds[c].blobs.len() as u64 {
                    return bare(STATUS_STALE);
                }
                let log = &mut self.clouds[c];
                log.blobs.push(vstd::slice::slice_to_vec(body));
                count = log.blobs.len() as u64;
                proof {
                    let after = self.clouds@;
                    lemma_positions_kept(before, after);
                    assert(after[c as int].blobs_view() =~= before[c as int].blobs_view().push(
                        body@,
                    ));
                    assert forall|a: int, i: int|
                        0 <= a < after.len() && 0 <= i < after[a].blobs@.len() implies blob_in_place(
                        #[trigger] after[a].blobs@[i]@,
                        i,
                        after[a].id@,
                        after[a].public_key@,
                    ) by {
                        if a != c {
                            assert(after[a] == before[a]);
                        } else if i < before[c as int].blobs@.len() {
                            assert(after[a].blobs@[i] == before[c as int].blobs@[i]);
                        } else {
                            assert(after[a].blobs@[i]@ == body@);
                        }
                    }
                    assert forall|a: int| 0 <= a < after.len() implies (#[trigger] after[a]).blobs@.len()
                        > 0 by {
                        if a != c {
                            assert(after[a] == before[a]);
                        }
                    }
                    assert forall|other: Seq<u8>| other != id implies #[trigger] self.stored(other)
                        == old(self).stored(other) && self.known_key(other) == old(self).known_key(
                        other,
                    ) by {
                        assert(position(after, other) == position(before, other));
                        if position(before, other) is Some {
                            let j = position(before, other).unwrap();
                            assert(before[j].named(other));
                            assert(after[j] == before[j]);
                        }
                    }
                }
            },
            None => {
                if mutation.index != 0 {
                    return bare(STATUS_STALE);
                }
                let mut blobs: Vec<Vec<u8>> = Vec::new();
                blobs.push(vstd::slice::slice_to_vec(body));
                let log = CloudLog { id: mutation.public_key_hash, public_key, blobs };
                assert(log.blobs_view() =~= Seq::<Seq<u8>>::empty().push(body@));
                count = 1;
                self.clouds.push(log);
                proof {
                    let after = self.clouds@;
                    let last = before.len() as int;
                    lemma_position_pushed(before, log);
                    assert forall|a: int, i: int|
                        0 <= a < after.len() && 0 <= i < after[a].blobs@.len() implies blob_in_place(
                        #[trigger] after[a].blobs@[i]@,
                        i,
                        after[a].id@,
                        after[a].public_key@,
                    ) by {
                        if a < last {
                            assert(after[a] == before[a]);
                        } else {
                            assert(after[a].blobs@[i]@ == body@);
                            assert(after[a].public_key@ == key_view);
                        }
                    }
                    assert forall|a: int| 0 <= a < after.len() implies (#[trigger] after[a]).blobs@.len()
                        > 0 by {
                        if a < last {
                            assert(after[a] == before[a]);
                        }
                    }
                    assert forall|other: Seq<u8>| other != id implies #[trigger] self.stored(other)
                        == old(self).stored(other) && self.known_key(other) == old(self).known_key(
                        other,
                    ) by {
                        assert(position(after, other) == position(before, other));
                        if position(before, other) is Some {
                            let j = position(before, other).unwrap();
                            assert(before[j].named(other));
                            assert(after[j] == before[j]);
                        }
                    }
                    assert(old(self).stored(id) =~= Seq::<Seq<u8>>::empty());
                    assert(self.stored(id) =~= old(self).stored(id).push(body@));
                }
            },
        }
        Reply {
            status: STATUS_ACCEPTED,
            body: Vec::new(),
            notice: Some(Notice { cloud_id: mutation.public_key_hash, count }),
        }
    }

    /// Answers a request, whatever it asks for. A route the relay does not
    /// have is not found, and leaves the store as it was.
    pub fn handle_req(
        &mut self,
        method: Method,
        path: &str,
        cloud_id: Option<&str>,
        index: Option<&str>,
        body: &[u8],
    ) -> (reply: Reply)
        requires
            old(self).wf(),
        ensures
            final(self).wf(),
            route_of(method, path@) != Route::Mutate ==> forall|id: Seq<u8>|
                #[trigger] final(self).stored(id) == old(self).stored(id) && final(self).known_key(
                    id,
                ) == old(self).known_key(id),
            match route_of(method, path@) {
                Route::State => old(self).answers_state(
                    match cloud_id {
                        Some(t) => Some(t@),
                        None => None,
                    },
                    reply,
                ),
                Route::Mutation => old(self).answers_mutation(
                    match cloud_id {
                        Some(t) => Some(t@),
                        None => None,
                    },
                    match index {
                        Some(t) => Some(t@),
                        None => None,
                    },
                    reply,
                ),
                Route::Mutate => old(self).answers_mutate(body@, reply, *final(self)),
                Route::Unknown => reply.status == STATUS_NOT_FOUND && reply.body@ == Seq::<
                    u8,
                >::empty() && reply.notice is None,
            },
    {
        match route(method, path) {
            Route::State => self.handle_state(cloud_id),
            Route::Mutation => self.handle_get_mutation(cloud_id, index),
            Route::Mutate => self.handle_mutate(body),
            Route::Unknown => bare(STATUS_NOT_FOUND),
        }
    }
}

} // verus!
