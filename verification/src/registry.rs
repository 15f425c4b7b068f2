//! The registry of a device: the clouds it knows, each with the engine that
//! synchronizes it, the one cloud that is active, and the application
//! journal that remembers the secrets and the active cloud across restarts.

use vstd::prelude::*;
use vstd::array::array_as_slice;
use vstd::string::*;
use crate::cloud::Cloud;
use crate::cloud::cloud_id;
use crate::cloud::metadata_write;
use crate::cloud::stored_metadata;
use crate::codec::bytes_eq;
use crate::codec::to_array32;
use crate::crypto::hex_bytes;
use crate::crypto::hex_decode;
use crate::crypto::is_hex_text;
use crate::journal::append_check;
use crate::journal::expected_hash;
use crate::journal::Journal;
use crate::journal::JournalError;
use crate::journal::StoreView;
use crate::metadata::CloudMetadata;
use crate::metadata::lemma_listed_total;
use crate::metadata::lemma_listed_transitive;
use crate::metadata::listed_before;
use crate::metadata::MetadataView;
use crate::sync::begin_view;
use crate::sync::default_sync_state;
use crate::sync::CloudSyncState;
use crate::sync::halted;
use crate::sync::next_unconfirmed;
use crate::sync::RemoteCloud;
use crate::sync::replied;
use crate::sync::SyncPhase;
use crate::sync::SyncStateView;
use crate::sync::SyncStatus;
use crate::sync::SyncStep;
use crate::transaction::genesis_hash;
use crate::transaction::JournalTransaction;
use crate::transaction::Operation;
use crate::transaction::operations_view;
use crate::transaction::TransactionView;

verus! {

/// The table of the application journal that holds what the registry
/// remembers: a secret under each cloud identifier, and the identifier of
/// the active cloud under a key of its own.
pub const CLOUD_KEYS_TABLE: &'static str = "_______known_keys";

/// [`CLOUD_KEYS_TABLE`] as the bytes that name the table.
pub open spec fn keys_table() -> Seq<u8> {
    CLOUD_KEYS_TABLE.spec_bytes()
}

/// The key under which the identifier of the active cloud stands: thirty-two
/// zero bytes.
pub open spec fn active_cloud_key() -> Seq<u8> {
    Seq::new(32, |i: int| 0u8)
}

/// Something happened that those who show the clouds may want to know.
#[derive(Clone, Copy, Debug, PartialEq, Eq)]
pub enum AppEvent {
    ActiveAppletChanged,
    ActiveCloudChanged,
    /// An update was received from the relay for this cloud.
    RemoteCloudUpdate([u8; 32]),
}

/// Something the registry is asked to do.
#[derive(Clone, Debug, PartialEq, Eq)]
pub enum ActionRequest {
    LoadClouds,
    /// Make the cloud with this identifier the active one.
    SwitchCloud([u8; 32]),
    UpdateCloudMetadata([u8; 32], CloudMetadata),
}

/// Why the registry did not do what it was asked.
#[derive(Clone, Copy, Debug, PartialEq, Eq, Structural)]
pub enum RegistryError {
    /// The text is not sixty-four hexadecimal digits.
    BadKey,
    /// The secret belongs to the one identifier that the registry keeps for
    /// itself.
    ReservedId,
    /// No cloud with this identifier is loaded.
    UnknownCloud,
    /// No cloud is active.
    NoActiveCloud,
    /// The cloud's journal is not that long.
    IndexOutOfRange,
    /// A cloud with this identifier is loaded already.
    AlreadyLoaded,
    /// The transaction does not continue the cloud's journal.
    Rejected(JournalError),
}

/// The secret that a cloud is imported with: sixty-four hexadecimal digits,
/// of either case, as thirty-two bytes.
pub open spec fn imported_secret(text: Seq<char>) -> Option<Seq<u8>> {
    if is_hex_text(text) && hex_bytes(text).len() == 32 {
        Some(hex_bytes(text))
    } else {
        None
    }
}

/// Reads the secret of a cloud from the text it was handed over in.
pub fn parse_secret(text: &str) -> (r: Option<[u8; 32]>)
    ensures
        match r {
            Some(secret) => imported_secret(text@) == Some(secret@),
            None => imported_secret(text@) is None,
        },
{
    match hex_decode(text) {
        None => None,
        Some(bytes) => {
            if bytes.len() != 32 {
                None
            } else {
                Some(to_array32(bytes.as_slice()))
            }
        },
    }
}

/// A secret stands in the registry table under `key`.
pub open spec fn holds_secret(store: StoreView, key: Seq<u8>) -> bool {
    &&& key != active_cloud_key()
    &&& store.dom().contains((keys_table(), key))
    &&& store[(keys_table(), key)].len() == 32
}

/// The registry table holds a secret of the cloud `id`.
pub open spec fn secret_known(store: StoreView, id: Seq<u8>) -> bool {
    exists|key: Seq<u8>| #[trigger]
        holds_secret(store, key) && cloud_id(store[(keys_table(), key)]) == id
}

/// A cloud with the engine that synchronizes it.
struct Slot {
    cloud: Cloud,
    remote: RemoteCloud,
}

impl Slot {
    spec fn named(&self, id: Seq<u8>) -> bool {
        cloud_id(self.cloud.secret()) == id
    }

    spec fn wf(&self) -> bool {
        self.cloud.wf() && self.remote.within(&self.cloud)
    }
}

/// The place of a cloud among the slots.
spec fn position(slots: Seq<Slot>, id: Seq<u8>) -> Option<int> {
    if exists|i: int| 0 <= i < slots.len() && (#[trigger] slots[i]).named(id) {
        Some(choose|i: int| 0 <= i < slots.len() && (#[trigger] slots[i]).named(id))
    } else {
        None
    }
}

/// No two slots hold the same cloud.
spec fn distinct(slots: Seq<Slot>) -> bool {
    forall|i: int, j: int|
        0 <= i < slots.len() && 0 <= j < slots.len() && i != j ==> !(#[trigger] slots[i]).named(
            cloud_id((#[trigger] slots[j]).cloud.secret()),
        )
}

/// Among distinct slots a cloud has one place: where a slot holds it.
proof fn lemma_position(slots: Seq<Slot>, i: int, id: Seq<u8>)
    requires
        distinct(slots),
        0 <= i < slots.len(),
        slots[i].named(id),
    ensures
        position(slots, id) == Some(i),
{
    let chosen = position(slots, id).unwrap();
    assert(slots[chosen].named(id));
    if chosen != i {
        assert(!slots[chosen].named(cloud_id(slots[i].cloud.secret())));
    }
}

/// The place of a cloud among the slots.
fn find_slot(slots: &Vec<Slot>, id: &[u8; 32]) -> (r: Option<usize>)
    requires
        distinct(slots@),
        forall|i: int| 0 <= i < slots@.len() ==> (#[trigger] slots@[i]).wf(),
    ensures
        match r {
            Some(i) => i < slots.len() && slots@[i as int].named(id@) && position(slots@, id@)
                == Some(i as int),
            None => position(slots@, id@) is None && forall|i: int|
                0 <= i < slots@.len() ==> !(#[trigger] slots@[i]).named(id@),
        },
{
    let mut i: usize = 0;
    while i < slots.len()
        invariant
            i <= slots.len(),
            distinct(slots@),
            forall|j: int| 0 <= j < slots@.len() ==> (#[trigger] slots@[j]).wf(),
            forall|j: int| 0 <= j < i ==> !(#[trigger] slots@[j]).named(id@),
        decreases slots.len() - i,
    {
        assert(slots@[i as int].wf());
        if bytes_eq(array_as_slice(slots[i].cloud.id()), array_as_slice(id)) {
            proof {
                lemma_position(slots@, i as int, id@);
            }
            return Some(i);
        }
        i += 1;
    }
    None
}

/// Slots that hold the same clouds in the same places give every cloud the
/// same place.
proof fn lemma_positions_kept(before: Seq<Slot>, after: Seq<Slot>)
    requires
        distinct(before),
        after.len() == before.len(),
        forall|j: int|
            0 <= j < before.len() ==> cloud_id((#[trigger] after[j]).cloud.secret()) == cloud_id(
                before[j].cloud.secret(),
            ),
    ensures
        distinct(after),
        forall|id: Seq<u8>| #[trigger] position(after, id) == position(before, id),
{
    assert forall|i: int, j: int|
        0 <= i < after.len() && 0 <= j < after.len() && i != j implies !(#[trigger] after[i]).named(
        cloud_id((#[trigger] after[j]).cloud.secret()),
    ) by {
        assert(!before[i].named(cloud_id(before[j].cloud.secret())));
    }
    assert forall|id: Seq<u8>| #[trigger] position(after, id) == position(before, id) by {
        if exists|j: int| 0 <= j < before.len() && (#[trigger] before[j]).named(id) {
            let j = choose|j: int| 0 <= j < before.len() && (#[trigger] before[j]).named(id);
            assert(after[j].named(id));
            lemma_position(before, j, id);
            lemma_position(after, j, id);
        } else {
            if exists|j: int| 0 <= j < after.len() && (#[trigger] after[j]).named(id) {
                let j = choose|j: int| 0 <= j < after.len() && (#[trigger] after[j]).named(id);
                assert(before[j].named(id));
            }
        }
    }
}

/// A slot for a cloud that no slot holds yet goes behind the others and
/// leaves every other cloud in its place.
proof fn lemma_position_pushed(before: Seq<Slot>, slot: Slot)
    requires
        distinct(before),
        forall|j: int|
            0 <= j < before.len() ==> !(#[trigger] before[j]).named(cloud_id(slot.cloud.secret())),
    ensures
        distinct(before.push(slot)),
        position(before.push(slot), cloud_id(slot.cloud.secret())) == Some(before.len() as int),
        forall|id: Seq<u8>|
            id != cloud_id(slot.cloud.secret()) ==> #[trigger] position(before.push(slot), id)
                == position(before, id),
{
    let after = before.push(slot);
    let last = before.len() as int;
    let new_id = cloud_id(slot.cloud.secret());
    assert forall|i: int, j: int|
        0 <= i < after.len() && 0 <= j < after.len() && i != j implies !(#[trigger] after[i]).named(
        cloud_id((#[trigger] after[j]).cloud.secret()),
    ) by {
        if i < last && j < last {
            assert(!before[i].named(cloud_id(before[j].cloud.secret())));
        } else if i < last {
            assert(!before[i].named(new_id));
        } else {
            assert(!before[j].named(new_id));
        }
    }
    assert(after[last].named(new_id));
    lemma_position(after, last, new_id);
    assert forall|id: Seq<u8>| id != new_id implies #[trigger] position(after, id) == position(
        before,
        id,
    ) by {
        if exists|j: int| 0 <= j < before.len() && (#[trigger] before[j]).named(id) {
            let j = choose|j: int| 0 <= j < before.len() && (#[trigger] before[j]).named(id);
            assert(after[j].named(id));
            lemma_position(before, j, id);
            lemma_position(after, j, id);
        } else {
            if exists|j: int| 0 <= j < after.len() && (#[trigger] after[j]).named(id) {
                let j = choose|j: int| 0 <= j < after.len() && (#[trigger] after[j]).named(id);
                assert(before[j].named(id));
            }
        }
    }
}

/// All the data of a device: the application journal, the clouds that are
/// loaded, the active cloud, and what is waiting to be looked at.
pub struct AppState {
    /// Application journal, exists outside of all clouds.
    db: Journal,
    slots: Vec<Slot>,
    active_cloud_id: Option<[u8; 32]>,
    pending_events: Vec<AppEvent>,
    pending_requests: Vec<ActionRequest>,
}

impl AppState {
    /// The application journal.
    pub closed spec fn app_journal(&self) -> Journal {
        self.db
    }

    /// Whether the cloud with this identifier is loaded.
    pub closed spec fn has_cloud(&self, id: Seq<u8>) -> bool {
        position(self.slots@, id) is Some
    }

    /// The loaded cloud with this identifier.
    pub closed spec fn cloud(&self, id: Seq<u8>) -> Cloud {
        self.slots@[position(self.slots@, id).unwrap()].cloud
    }

    /// The engine that synchronizes the loaded cloud with this identifier.
    pub closed spec fn remote(&self, id: Seq<u8>) -> RemoteCloud {
        self.slots@[position(self.slots@, id).unwrap()].remote
    }

    /// The identifier of the active cloud.
    pub closed spec fn active(&self) -> Option<Seq<u8>> {
        match self.active_cloud_id {
            Some(id) => Some(id@),
            None => None,
        }
    }

    /// The events that wait to be drained, oldest first.
    pub closed spec fn events(&self) -> Seq<AppEvent> {
        self.pending_events@
    }

    /// The requests that wait to be drained, oldest first.
    pub closed spec fn requests(&self) -> Seq<ActionRequest> {
        self.pending_requests@
    }

    /// The registry's invariant: the journal is a journal, every loaded
    /// cloud is well formed and loaded once, and every cursor lies within
    /// its cloud's journal.
    pub closed spec fn wf(&self) -> bool {
        &&& self.db.wf()
        &&& distinct(self.slots@)
        &&& forall|i: int| 0 <= i < self.slots@.len() ==> (#[trigger] self.slots@[i]).wf()
    }

    /// The clouds and engines of two registries are the same, but perhaps
    /// for the cloud `id`.
    pub open spec fn same_clouds_but(&self, other: &AppState, id: Seq<u8>) -> bool {
        forall|x: Seq<u8>|
            x != id ==> #[trigger] self.has_cloud(x) == other.has_cloud(x) && (self.has_cloud(x)
                ==> self.cloud(x) == other.cloud(x) && self.remote(x) == other.remote(x))
    }

    /// The clouds and engines of two registries are the same.
    pub open spec fn same_clouds(&self, other: &AppState) -> bool {
        forall|x: Seq<u8>| #[trigger]
            self.has_cloud(x) == other.has_cloud(x) && (self.has_cloud(x) ==> self.cloud(x)
                == other.cloud(x) && self.remote(x) == other.remote(x))
    }

    /// A loaded cloud is well formed, goes by the identifier that follows
    /// from its secret, and holds its cursor within its journal.
    pub proof fn lemma_loaded_cloud(&self, id: Seq<u8>)
        requires
            self.wf(),
            self.has_cloud(id),
        ensures
            self.app_journal().wf(),
            self.cloud(id).wf(),
            cloud_id(self.cloud(id).secret()) == id,
            self.remote(id).within(&self.cloud(id)),
    {
        let i = position(self.slots@, id).unwrap();
        assert(self.slots@[i].named(id));
        assert(self.slots@[i].wf());
    }

    /// A registry around an application journal, with no cloud loaded yet.
    pub fn new(db: Journal) -> (state: AppState)
        requires
            db.wf(),
        ensures
            state.wf(),
            state.app_journal() == db,
            state.active() is None,
            state.events() == Seq::<AppEvent>::empty(),
            state.requests() == Seq::<ActionRequest>::empty(),
            forall|id: Seq<u8>| !#[trigger] state.has_cloud(id),
    {
        AppState {
            db,
            slots: Vec::new(),
            active_cloud_id: None,
            pending_events: Vec::new(),
            pending_requests: Vec::new(),
        }
    }

    /// The application journal, to read from and to keep on disk.
    pub fn db(&self) -> (journal: &Journal)
        ensures
            *journal == self.app_journal(),
    {
        &self.db
    }

    /// All events that have come up since the last call, oldest first.
    pub fn drain_pending_app_events(&mut self) -> (events: Vec<AppEvent>)
        requires
            old(self).wf(),
        ensures
            final(self).wf(),
            events@ == old(self).events(),
            final(self).events() == Seq::<AppEvent>::empty(),
            final(self).requests() == old(self).requests(),
            final(self).app_journal() == old(self).app_journal(),
            final(self).active() == old(self).active(),
            final(self).same_clouds(old(self)),
    {
        let mut events: Vec<AppEvent> = Vec::new();
        events.append(&mut self.pending_events);
        events
    }

    /// All requests that have been made since the last call, oldest first.
    pub fn drain_pending_app_requests(&mut self) -> (requests: Vec<ActionRequest>)
        requires
            old(self).wf(),
        ensures
            final(self).wf(),
            requests@ == old(self).requests(),
            final(self).requests() == Seq::<ActionRequest>::empty(),
            final(self).events() == old(self).events(),
            final(self).app_journal() == old(self).app_journal(),
            final(self).active() == old(self).active(),
            final(self).same_clouds(old(self)),
    {
        let mut requests: Vec<ActionRequest> = Vec::new();
        requests.append(&mut self.pending_requests);
        requests
    }

    /// Asks for the cloud with this identifier to become the active one.
    pub fn switch_cloud(&mut self, id: [u8; 32])
        requires
            old(self).wf(),
        ensures
            final(self).wf(),
            final(self).requests() == old(self).requests().push(ActionRequest::SwitchCloud(id)),
            final(self).events() == old(self).events(),
            final(self).app_journal() == old(self).app_journal(),
            final(self).active() == old(self).active(),
            final(self).same_clouds(old(self)),
    {
        self.pending_requests.push(ActionRequest::SwitchCloud(id));
    }

    /// Asks for the clouds to be loaded anew.
    pub fn reload_clouds(&mut self)
        requires
            old(self).wf(),
        ensures
            final(self).wf(),
            final(self).requests() == old(self).requests().push(ActionRequest::LoadClouds),
            final(self).events() == old(self).events(),
            final(self).app_journal() == old(self).app_journal(),
            final(self).active() == old(self).active(),
            final(self).same_clouds(old(self)),
    {
        self.pending_requests.push(ActionRequest::LoadClouds);
    }

    /// The loaded cloud with this identifier.
    pub fn cloud_by_id(&self, cloud_id: &[u8; 32]) -> (r: Option<&Cloud>)
        requires
            self.wf(),
        ensures
            match r {
                Some(cloud) => self.has_cloud(cloud_id@) && *cloud == self.cloud(cloud_id@),
                None => !self.has_cloud(cloud_id@),
            },
    {
        match find_slot(&self.slots, cloud_id) {
            Some(i) => Some(&self.slots[i].cloud),
            None => None,
        }
    }

    /// The engine of the loaded cloud with this identifier.
    pub fn remote_by_id(&self, cloud_id: &[u8; 32]) -> (r: Option<&RemoteCloud>)
        requires
            self.wf(),
        ensures
            match r {
                Some(remote) => self.has_cloud(cloud_id@) && *remote == self.remote(cloud_id@),
                None => !self.has_cloud(cloud_id@),
            },
    {
        match find_slot(&self.slots, cloud_id) {
            Some(i) => Some(&self.slots[i].remote),
            None => None,
        }
    }

    /// The identifier of the active cloud.
    pub fn active_cloud_id(&self) -> (id: Option<[u8; 32]>)
        ensures
            match id {
                Some(id) => self.active() == Some(id@),
                None => self.active() is None,
            },
    {
        self.active_cloud_id
    }

    /// The active cloud, if one is active and loaded.
    pub fn active_cloud(&self) -> (r: Option<&Cloud>)
        requires
            self.wf(),
        ensures
            match r {
                Some(cloud) => self.active() is Some && self.has_cloud(self.active().unwrap())
                    && *cloud == self.cloud(self.active().unwrap()),
                None => self.active() is None || !self.has_cloud(self.active().unwrap()),
            },
    {
        match &self.active_cloud_id {
            Some(id) => self.cloud_by_id(id),
            None => None,
        }
    }

    /// The identifiers of the loaded clouds, each once: what a round of
    /// ticks goes through.
    pub fn cloud_ids(&self) -> (ids: Vec<[u8; 32]>)
        requires
            self.wf(),
        ensures
            forall|i: int| 0 <= i < ids@.len() ==> self.has_cloud(#[trigger] ids@[i]@),
            forall|id: Seq<u8>|
                self.has_cloud(id) ==> exists|i: int| 0 <= i < ids@.len() && #[trigger] ids@[i]@ == id,
            forall|i: int, j: int|
                0 <= i < ids@.len() && 0 <= j < ids@.len() && i != j ==> #[trigger] ids@[i]@
                    != #[trigger] ids@[j]@,
    {
        let mut ids: Vec<[u8; 32]> = Vec::new();
        let mut i: usize = 0;
        while i < self.slots.len()
            invariant
                i <= self.slots.len(),
                self.wf(),
                ids@.len() == i,
                forall|j: int| 0 <= j < i ==> (#[trigger] self.slots@[j]).named(ids@[j]@),
            decreases self.slots.len() - i,
        {
            assert(self.slots@[i as int].wf());
            ids.push(*self.slots[i].cloud.id());
            i += 1;
        }
        proof {
            assert forall|j: int| 0 <= j < ids@.len() implies self.has_cloud(#[trigger] ids@[j]@) by {
                assert(self.slots@[j].named(ids@[j]@));
                lemma_position(self.slots@, j, ids@[j]@);
            }
            assert forall|id: Seq<u8>| self.has_cloud(id) implies exists|j: int|
                0 <= j < ids@.len() && #[trigger] ids@[j]@ == id by {
                let j = position(self.slots@, id).unwrap();
                assert(self.slots@[j].named(id));
                assert(self.slots@[j].named(ids@[j]@));
                assert(ids@[j]@ == id);
            }
            assert forall|a: int, b: int|
                0 <= a < ids@.len() && 0 <= b < ids@.len() && a != b implies #[trigger] ids@[a]@
                != #[trigger] ids@[b]@ by {
                assert(self.slots@[a].named(ids@[a]@));
                assert(self.slots@[b].named(ids@[b]@));
                assert(!self.slots@[a].named(cloud_id(self.slots@[b].cloud.secret())));
            }
        }
        ids
    }

    /// Every one of `ids` names a loaded cloud, and none comes twice.
    pub open spec fn loaded_once(&self, ids: Seq<[u8; 32]>) -> bool {
        &&& forall|i: int| 0 <= i < ids.len() ==> self.has_cloud(#[trigger] ids[i]@)
        &&& forall|i: int, j: int|
            0 <= i < ids.len() && 0 <= j < ids.len() && i != j ==> #[trigger] ids[i]@
                != #[trigger] ids[j]@
    }

    /// The clouds that `ids` names stand in the order in which clouds are
    /// listed.
    pub open spec fn in_listing_order(&self, ids: Seq<[u8; 32]>) -> bool {
        forall|i: int, j: int|
            0 <= i < j < ids.len() ==> listed_before(
                self.cloud((#[trigger] ids[i])@).metadata_view(),
                self.cloud((#[trigger] ids[j])@).metadata_view(),
            )
    }

    /// Puts the identifier of a loaded cloud into a list that is in listing
    /// order, at the place that keeps the list in order.
    fn insert_listed(&self, sorted: &mut Vec<[u8; 32]>, id: [u8; 32])
        requires
            self.wf(),
            self.has_cloud(id@),
            self.loaded_once(old(sorted)@),
            self.in_listing_order(old(sorted)@),
            !holds_id(old(sorted)@, id@),
        ensures
            self.loaded_once(final(sorted)@),
            self.in_listing_order(final(sorted)@),
            final(sorted)@.len() == old(sorted)@.len() + 1,
            forall|x: Seq<u8>|
                #[trigger] holds_id(final(sorted)@, x) <==> holds_id(old(sorted)@, x) || x == id@,
    {
        let ghost before = sorted@;
        let ghost new_meta = self.cloud(id@).metadata_view();
        let mut j: usize = sorted.len();
        while j > 0 && !self.listed_no_later(&sorted[j - 1], &id)
            invariant
                j <= sorted@.len(),
                self.wf(),
                sorted@ == before,
                self.has_cloud(id@),
                new_meta == self.cloud(id@).metadata_view(),
                self.loaded_once(before),
                forall|k: int|
                    j <= k < sorted@.len() ==> !listed_before(
                        self.cloud((#[trigger] sorted@[k])@).metadata_view(),
                        new_meta,
                    ),
            decreases j,
        {
            j -= 1;
        }
        sorted.insert(j, id);
        proof {
            let after = sorted@;
            assert forall|a: int| 0 <= a < after.len() implies self.has_cloud(#[trigger] after[a]@) by {
                if a != j {
                    let a0 = if a < j { a } else { a - 1 };
                    assert(after[a] == before[a0]);
                }
            }
            assert forall|a: int, b: int|
                0 <= a < after.len() && 0 <= b < after.len() && a != b implies #[trigger] after[a]@
                != #[trigger] after[b]@ by {
                let a0 = if a < j { a } else { a - 1 };
                let b0 = if b < j { b } else { b - 1 };
                if a == j {
                    assert(after[b] == before[b0]);
                    assert(before[b0]@ != id@);
                } else if b == j {
                    assert(after[a] == before[a0]);
                    assert(before[a0]@ != id@);
                } else {
                    assert(after[a] == before[a0]);
                    assert(after[b] == before[b0]);
                    assert(before[a0]@ != before[b0]@);
                }
            }
            assert forall|a: int, b: int| 0 <= a < b < after.len() implies listed_before(
                self.cloud((#[trigger] after[a])@).metadata_view(),
                self.cloud((#[trigger] after[b])@).metadata_view(),
            ) by {
                let a0 = if a < j { a } else { a - 1 };
                let b0 = if b < j { b } else { b - 1 };
                if b == j {
                    assert(after[a] == before[a]);
                    let last = self.cloud(before[j - 1]@).metadata_view();
                    if a < j - 1 {
                        assert(listed_before(self.cloud(before[a]@).metadata_view(), last));
                        lemma_listed_transitive(
                            self.cloud(before[a]@).metadata_view(),
                            last,
                            new_meta,
                        );
                    }
                } else if a == j {
                    assert(after[b] == before[b0]);
                    lemma_listed_total(new_meta, self.cloud(before[b0]@).metadata_view());
                } else {
                    assert(after[a] == before[a0]);
                    assert(after[b] == before[b0]);
                    assert(listed_before(
                        self.cloud(before[a0]@).metadata_view(),
                        self.cloud(before[b0]@).metadata_view(),
                    ));
                }
            }
            assert forall|x: Seq<u8>| #[trigger]
                holds_id(after, x) <==> holds_id(before, x) || x == id@ by {
                if holds_id(after, x) {
                    let a = held_at(after, x);
                    lemma_held_id(after, x);
                    if a != j {
                        let a0 = if a < j { a } else { a - 1 };
                        assert(after[a] == before[a0]);
                        assert(before[a0]@ == x);
                    }
                }
                if holds_id(before, x) {
                    let a0 = held_at(before, x);
                    lemma_held_id(before, x);
                    let a = if a0 < j { a0 } else { a0 + 1 };
                    assert(after[a]@ == x);
                }
                if x == id@ {
                    assert(after[j as int]@ == x);
                }
            }
        }
    }

    /// The identifiers of the loaded clouds in the order in which they are
    /// listed: the older first, and of two made in the same second the one
    /// whose name sorts first.
    pub fn sorted_clouds(&self) -> (ids: Vec<[u8; 32]>)
        requires
            self.wf(),
        ensures
            self.loaded_once(ids@),
            forall|id: Seq<u8>| self.has_cloud(id) ==> #[trigger] holds_id(ids@, id),
            self.in_listing_order(ids@),
    {
        let all = self.cloud_ids();
        proof {
            assert forall|id: Seq<u8>| self.has_cloud(id) implies #[trigger] holds_id(all@, id) by {
                let i = choose|i: int| 0 <= i < all@.len() && #[trigger] all@[i]@ == id;
                assert(all@[i]@ == id);
            }
        }
        let mut sorted: Vec<[u8; 32]> = Vec::new();
        let mut n: usize = 0;
        while n < all.len()
            invariant
                n <= all.len(),
                self.wf(),
                self.loaded_once(all@),
                self.loaded_once(sorted@),
                self.in_listing_order(sorted@),
                forall|x: Seq<u8>|
                    #[trigger] holds_id(sorted@, x) <==> holds_id(all@.take(n as int), x),
            decreases all.len() - n,
        {
            let id = all[n];
            let ghost before = sorted@;
            proof {
                assert(self.has_cloud(all@[n as int]@));
                if holds_id(all@.take(n as int), id@) {
                    let k = held_at(all@.take(n as int), id@);
                    lemma_held_id(all@.take(n as int), id@);
                    assert(all@.take(n as int)[k] == all@[k]);
                    assert(all@[k]@ != all@[n as int]@);
                }
            }
            self.insert_listed(&mut sorted, id);
            proof {
                assert forall|x: Seq<u8>| #[trigger]
                    holds_id(sorted@, x) <==> holds_id(all@.take(n + 1), x) by {
                    let shorter = all@.take(n as int);
                    let longer = all@.take(n + 1);
                    assert(holds_id(sorted@, x) <==> holds_id(before, x) || x == id@);
                    assert(holds_id(before, x) <==> holds_id(shorter, x));
                    if holds_id(shorter, x) {
                        let k = held_at(shorter, x);
                        lemma_held_id(shorter, x);
                        assert(longer[k]@ == x);
                    }
                    if x == id@ {
                        assert(longer[n as int]@ == x);
                    }
                    if holds_id(longer, x) {
                        let k = held_at(longer, x);
                        lemma_held_id(longer, x);
                        if k < n {
                            assert(shorter[k]@ == x);
                        }
                    }
                }
            }
            n += 1;
        }
        proof {
            assert(all@.take(n as int) =~= all@);
        }
        sorted
    }

    /// Whether the loaded cloud `a` is listed no later than the loaded cloud
    /// `b`.
    fn listed_no_later(&self, a: &[u8; 32], b: &[u8; 32]) -> (r: bool)
        requires
            self.wf(),
            self.has_cloud(a@),
            self.has_cloud(b@),
        ensures
            r == listed_before(self.cloud(a@).metadata_view(), self.cloud(b@).metadata_view()),
    {
        let first = match self.cloud_by_id(a) {
            Some(cloud) => cloud,
            None => vstd::pervasive::unreached(),
        };
        let second = match self.cloud_by_id(b) {
            Some(cloud) => cloud,
            None => vstd::pervasive::unreached(),
        };
        first.metadata().comes_before(second.metadata())
    }

    /// Everything but the clouds is as in `other`.
    pub open spec fn same_rest(&self, other: &AppState) -> bool {
        &&& self.app_journal() == other.app_journal()
        &&& self.active() == other.active()
        &&& self.events() == other.events()
        &&& self.requests() == other.requests()
    }

    /// Puts a cloud and its engine into the registry, in the place of the
    /// cloud with the same identifier if one is loaded.
    fn put_slot(&mut self, slot: Slot)
        requires
            old(self).wf(),
            slot.wf(),
        ensures
            final(self).wf(),
            final(self).same_rest(old(self)),
            final(self).has_cloud(cloud_id(slot.cloud.secret())),
            final(self).cloud(cloud_id(slot.cloud.secret())) == slot.cloud,
            final(self).remote(cloud_id(slot.cloud.secret())) == slot.remote,
            final(self).same_clouds_but(old(self), cloud_id(slot.cloud.secret())),
    {
        let ghost before = self.slots@;
        let ghost id = cloud_id(slot.cloud.secret());
        let place = find_slot(&self.slots, slot.cloud.id());
        match place {
            Some(i) => {
                self.slots.set(i, slot);
                proof {
                    let after = self.slots@;
                    assert forall|j: int| 0 <= j < before.len() implies cloud_id(
                        (#[trigger] after[j]).cloud.secret(),
                    ) == cloud_id(before[j].cloud.secret()) by {
                        if j == i {
                            assert(before[j].named(id));
                        }
                    }
                    lemma_positions_kept(before, after);
                    assert forall|x: Seq<u8>| x != id implies #[trigger] self.has_cloud(x) == old(self).has_cloud(x) && (self.has_cloud(x) ==> self.cloud(x) == old(self).cloud(x)
                        && self.remote(x) == old(self).remote(x)) by {
                        assert(position(after, x) == position(before, x));
                        if position(before, x) is Some {
                            let j = position(before, x).unwrap();
                            assert(before[j].named(x));
                            assert(before[i as int].named(id));
                        }
                    }
                    assert(position(after, id) == Some(i as int));
                }
            },
            None => {
                self.slots.push(slot);
                proof {
                    lemma_position_pushed(before, slot);
                    let after = self.slots@;
                    assert forall|x: Seq<u8>| x != id implies #[trigger] self.has_cloud(x) == old(self).has_cloud(x) && (self.has_cloud(x) ==> self.cloud(x) == old(self).cloud(x)
                        && self.remote(x) == old(self).remote(x)) by {
                        assert(position(after, x) == position(before, x));
                    }
                }
            },
        }
    }

    /// Makes the cloud with this identifier the active one, writes that to
    /// the application journal, and says so in an event.
    pub fn set_active_cloud(&mut self, id: [u8; 32])
        requires
            old(self).wf(),
        ensures
            final(self).wf(),
            final(self).active() == Some(id@),
            final(self).events() == old(self).events().push(AppEvent::ActiveCloudChanged),
            final(self).requests() == old(self).requests(),
            final(self).same_clouds(old(self)),
            final(self).app_journal().log() == old(self).app_journal().log().push(
                registry_write(old(self).app_journal().log(), active_cloud_key(), id@),
            ),
    {
        let key = [0u8; 32];
        assert(key@ =~= active_cloud_key());
        self.db.insert(CLOUD_KEYS_TABLE.as_bytes(), array_as_slice(&key), array_as_slice(&id));
        self.active_cloud_id = Some(id);
        self.pending_events.push(AppEvent::ActiveCloudChanged);
    }

    /// Registers the secret that a cloud was handed over with: sixty-four
    /// hexadecimal digits. The secret is written to the application journal
    /// under the identifier that follows from it, which is handed back; the
    /// cloud itself is loaded by the next [`AppState::load_clouds`].
    pub fn import_cloud(&mut self, key_str: &str) -> (r: Result<[u8; 32], RegistryError>)
        requires
            old(self).wf(),
        ensures
            final(self).wf(),
            final(self).active() == old(self).active(),
            final(self).events() == old(self).events(),
            final(self).requests() == old(self).requests(),
            final(self).same_clouds(old(self)),
            match imported_secret(key_str@) {
                None => r == Err::<[u8; 32], RegistryError>(RegistryError::BadKey) && final(self).app_journal() == old(self).app_journal(),
                Some(secret) => if cloud_id(secret) == active_cloud_key() {
                    r == Err::<[u8; 32], RegistryError>(RegistryError::ReservedId) && final(self).app_journal() == old(self).app_journal()
                } else {
                    &&& r matches Ok(id) && id@ == cloud_id(secret)
                    &&& final(self).app_journal().log() == old(self).app_journal().log().push(
                        registry_write(old(self).app_journal().log(), cloud_id(secret), secret),
                    )
                },
            },
    {
        let secret = match parse_secret(key_str) {
            Some(secret) => secret,
            None => return Err(RegistryError::BadKey),
        };
        self.register(secret)
    }

    /// Writes a secret to the application journal under the identifier that
    /// follows from it.
    fn register(&mut self, secret: [u8; 32]) -> (r: Result<[u8; 32], RegistryError>)
        requires
            old(self).wf(),
        ensures
            final(self).wf(),
            final(self).active() == old(self).active(),
            final(self).events() == old(self).events(),
            final(self).requests() == old(self).requests(),
            final(self).same_clouds(old(self)),
            if cloud_id(secret@) == active_cloud_key() {
                r == Err::<[u8; 32], RegistryError>(RegistryError::ReservedId) && final(self).app_journal() == old(self).app_journal()
            } else {
                &&& r matches Ok(id) && id@ == cloud_id(secret@)
                &&& final(self).app_journal().log() == old(self).app_journal().log().push(
                    registry_write(old(self).app_journal().log(), cloud_id(secret@), secret@),
                )
            },
    {
        let id = Cloud::id_from_key(secret);
        let reserved = [0u8; 32];
        assert(reserved@ =~= active_cloud_key());
        if bytes_eq(array_as_slice(&id), array_as_slice(&reserved)) {
            return Err(RegistryError::ReservedId);
        }
        self.db.insert(CLOUD_KEYS_TABLE.as_bytes(), array_as_slice(&id), array_as_slice(&secret));
        Ok(id)
    }

    /// Retrieve the secrets of all the clouds that the registry knows how to
    /// open: what stands in the registry table, but for the entry of the
    /// active cloud and entries that are no secrets.
    pub fn cloud_keys(&self) -> (secrets: Vec<[u8; 32]>)
        requires
            self.wf(),
        ensures
            forall|i: int|
                0 <= i < secrets@.len() ==> listed_secret(
                    self.app_journal().store(),
                    #[trigger] secrets@[i]@,
                ),
            forall|key: Seq<u8>| #[trigger]
                holds_secret(self.app_journal().store(), key) ==> among(
                    secrets@,
                    self.app_journal().store()[(keys_table(), key)],
                ),
    {
        let ghost store = self.db.store();
        let keys = self.db.list_keys(CLOUD_KEYS_TABLE.as_bytes());
        let ghost key_views = crate::journal::keys_view(keys@);
        let reserved = [0u8; 32];
        assert(reserved@ =~= active_cloud_key());
        let mut secrets: Vec<[u8; 32]> = Vec::new();
        let mut k: usize = 0;
        while k < keys.len()
            invariant
                k <= keys.len(),
                self.wf(),
                store == self.db.store(),
                key_views == crate::journal::keys_view(keys@),
                key_views.to_set() == crate::journal::table_keys(store, keys_table()),
                reserved@ == active_cloud_key(),
                forall|i: int|
                    0 <= i < secrets@.len() ==> listed_secret(store, #[trigger] secrets@[i]@),
                forall|j: int|
                    0 <= j < k && holds_secret(store, #[trigger] key_views[j]) ==> among(
                        secrets@,
                        store[(keys_table(), key_views[j])],
                    ),
            decreases keys.len() - k,
        {
            let key = &keys[k];
            let ghost kv = key_views[k as int];
            assert(kv == key@);
            let ghost before = secrets@;
            if !bytes_eq(key.as_slice(), array_as_slice(&reserved)) {
                match self.db.get(CLOUD_KEYS_TABLE.as_bytes(), key.as_slice()) {
                    Some(value) => {
                        if value.len() == 32 {
                            secrets.push(to_array32(value.as_slice()));
                            assert(holds_secret(store, kv));
                            assert(secrets@[before.len() as int]@ == store[(keys_table(), kv)]);
                        }
                    },
                    None => {},
                }
            }
            proof {
                assert forall|i: int| 0 <= i < secrets@.len() implies listed_secret(
                    store,
                    #[trigger] secrets@[i]@,
                ) by {
                    if i < before.len() {
                        assert(secrets@[i] == before[i]);
                    }
                }
                assert forall|j: int|
                    0 <= j < k + 1 && holds_secret(store, #[trigger] key_views[j]) implies among(
                    secrets@,
                    store[(keys_table(), key_views[j])],
                ) by {
                    let wanted = store[(keys_table(), key_views[j])];
                    if j < k {
                        let i = choose|i: int| 0 <= i < before.len() && (#[trigger] before[i])@ == wanted;
                        assert(secrets@[i] == before[i]);
                    } else {
                        assert(secrets@[before.len() as int]@ == wanted);
                    }
                }
            }
            k += 1;
        }
        proof {
            assert forall|key: Seq<u8>| #[trigger] holds_secret(store, key) implies among(
                secrets@,
                store[(keys_table(), key)],
            ) by {
                assert(crate::journal::table_keys(store, keys_table()).contains(key));
                assert(key_views.to_set().contains(key));
                let j = choose|j: int| 0 <= j < key_views.len() && key_views[j] == key;
                assert(holds_secret(store, key_views[j]));
            }
        }
        secrets
    }

    /// Brings the loaded clouds in line with the application journal. A
    /// cloud is loaded afterwards exactly if the journal holds a secret of
    /// it. One that was loaded before stays as it was, journal, secret and
    /// engine, and takes the metadata that its journal holds; one that was
    /// not is there as an import: with an empty journal, a placeholder for
    /// metadata, and an engine that has confirmed nothing.
    pub fn load_clouds(&mut self)
        requires
            old(self).wf(),
        ensures
            final(self).wf(),
            final(self).same_rest(old(self)),
            forall|id: Seq<u8>| #[trigger]
                final(self).has_cloud(id) <==> secret_known(old(self).app_journal().store(), id),
            forall|id: Seq<u8>| #[trigger]
                final(self).has_cloud(id) ==> loaded_as(
                    final(self).cloud(id),
                    final(self).remote(id),
                    if old(self).has_cloud(id) {
                        Some((old(self).cloud(id), old(self).remote(id)))
                    } else {
                        None
                    },
                    old(self).app_journal().store(),
                ),
    {
        let ghost store = self.db.store();
        let ghost original = self.slots@;
        let secrets = self.cloud_keys();
        assert(store == self.app_journal().store());
        assert forall|key: Seq<u8>| #[trigger] holds_secret(store, key) implies among(
            secrets@,
            store[(keys_table(), key)],
        ) by {}
        let mut old_slots: Vec<Slot> = Vec::new();
        std::mem::swap(&mut self.slots, &mut old_slots);
        let mut new_slots: Vec<Slot> = Vec::new();
        let mut k: usize = 0;
        while k < secrets.len()
            invariant
                k <= secrets.len(),
                distinct(original),
                distinct(old_slots@),
                forall|a: int| 0 <= a < old_slots@.len() ==> (#[trigger] old_slots@[a]).wf(),
                distinct(new_slots@),
                forall|b: int| 0 <= b < new_slots@.len() ==> (#[trigger] new_slots@[b]).wf(),
                forall|a: int|
                    0 <= a < old_slots@.len() ==> contains_slot(original, #[trigger] old_slots@[a]),
                forall|o: int|
                    0 <= o < original.len() && position(
                        new_slots@,
                        cloud_id((#[trigger] original[o]).cloud.secret()),
                    ) is None ==> contains_slot(old_slots@, original[o]),
                forall|b: int|
                    0 <= b < new_slots@.len() ==> slot_from(#[trigger] new_slots@[b], original, store),
                forall|j: int|
                    0 <= j < k ==> position(new_slots@, cloud_id((#[trigger] secrets@[j])@)) is Some,
                forall|i: int|
                    0 <= i < secrets@.len() ==> listed_secret(store, #[trigger] secrets@[i]@),
                forall|key: Seq<u8>| #[trigger]
                    holds_secret(store, key) ==> among(secrets@, store[(keys_table(), key)]),
            decreases secrets.len() - k,
        {
            let secret = secrets[k];
            let id = Cloud::id_from_key(secret);
            let ghost new_before = new_slots@;
            let ghost old_before = old_slots@;
            if find_slot(&new_slots, &id).is_none() {
                let slot = match find_slot(&old_slots, &id) {
                    Some(a) => {
                        let mut slot = old_slots.remove(a);
                        let ghost was = slot;
                        assert(was == old_before[a as int]);
                        assert(was.wf());
                        slot.cloud.refresh_metadata();
                        proof {
                            let o = choose|o: int| 0 <= o < original.len() && original[o] == was;
                            lemma_position(original, o, id@);
                            assert(contains_slot(original, was));
                            assert(slot_from(slot, original, store)) by {
                                assert(listed_secret(store, secrets@[k as int]@));
                                let key = choose|key: Seq<u8>| #[trigger]
                                    holds_secret(store, key) && store[(keys_table(), key)]
                                        == secrets@[k as int]@;
                                assert(holds_secret(store, key));
                            }
                            lemma_removed(old_before, a as int);
                            assert forall|o2: int|
                                0 <= o2 < original.len() && position(
                                    new_before.push(slot),
                                    cloud_id((#[trigger] original[o2]).cloud.secret()),
                                ) is None implies contains_slot(old_slots@, original[o2]) by {
                                let id2 = cloud_id(original[o2].cloud.secret());
                                lemma_position_pushed(new_before, slot);
                                assert(id2 != id@);
                                assert(position(new_before, id2) is None);
                                assert(contains_slot(old_before, original[o2]));
                                let a2 = choose|a2: int|
                                    0 <= a2 < old_before.len() && old_before[a2] == original[o2];
                                assert(a2 != a);
                                if a2 < a {
                                    assert(old_slots@[a2] == original[o2]);
                                } else {
                                    assert(old_slots@[a2 - 1] == original[o2]);
                                }
                            }
                        }
                        slot
                    },
                    None => {
                        let cloud = Cloud::import(secret, CloudMetadata::fresh());
                        let remote = RemoteCloud::new(CloudSyncState::default(), 0);
                        let slot = Slot { cloud, remote };
                        proof {
                            if position(original, id@) is Some {
                                let o = position(original, id@).unwrap();
                                assert(original[o].named(id@));
                                lemma_position_pushed(new_before, slot);
                                assert(contains_slot(old_before, original[o]));
                                let a = choose|a: int|
                                    0 <= a < old_before.len() && old_before[a] == original[o];
                                assert(old_before[a].named(id@));
                            }
                            assert(slot_from(slot, original, store)) by {
                                assert(listed_secret(store, secrets@[k as int]@));
                                let key = choose|key: Seq<u8>| #[trigger]
                                    holds_secret(store, key) && store[(keys_table(), key)]
                                        == secrets@[k as int]@;
                                assert(holds_secret(store, key));
                            }
                            assert forall|o2: int|
                                0 <= o2 < original.len() && position(
                                    new_before.push(slot),
                                    cloud_id((#[trigger] original[o2]).cloud.secret()),
                                ) is None implies contains_slot(old_slots@, original[o2]) by {
                                let id2 = cloud_id(original[o2].cloud.secret());
                                lemma_position_pushed(new_before, slot);
                                assert(id2 != id@);
                                assert(position(new_before, id2) is None);
                            }
                        }
                        slot
                    },
                };
                proof {
                    lemma_position_pushed(new_before, slot);
                }
                new_slots.push(slot);
                proof {
                    assert forall|j: int| 0 <= j < k + 1 implies position(
                        new_slots@,
                        cloud_id((#[trigger] secrets@[j])@),
                    ) is Some by {
                        let idj = cloud_id(secrets@[j]@);
                        if idj != id@ {
                            assert(position(new_before, idj) is Some);
                        }
                    }
                    assert forall|b: int| 0 <= b < new_slots@.len() implies slot_from(
                        #[trigger] new_slots@[b],
                        original,
                        store,
                    ) by {
                        if b < new_before.len() {
                            assert(new_slots@[b] == new_before[b]);
                        }
                    }
                    assert forall|b: int| 0 <= b < new_slots@.len() implies (
                    #[trigger] new_slots@[b]).wf() by {
                        if b < new_before.len() {
                            assert(new_slots@[b] == new_before[b]);
                        }
                    }
                }
            }
            k += 1;
        }
        self.slots = new_slots;
        proof {
            let slots = self.slots@;
            assert forall|id: Seq<u8>| #[trigger]
                self.has_cloud(id) <==> secret_known(store, id) by {
                if self.has_cloud(id) {
                    let b = position(slots, id).unwrap();
                    assert(slots[b].named(id));
                    assert(slot_from(slots[b], original, store));
                }
                if secret_known(store, id) {
                    let key = choose|key: Seq<u8>| #[trigger]
                        holds_secret(store, key) && cloud_id(store[(keys_table(), key)]) == id;
                    assert(holds_secret(store, key));
                    let wanted = store[(keys_table(), key)];
                    assert(among(secrets@, wanted));
                    let j = choose|j: int| 0 <= j < secrets@.len() && (#[trigger] secrets@[j])@ == wanted;
                    assert(position(slots, cloud_id(secrets@[j]@)) is Some);
                }
            }
            assert forall|id: Seq<u8>| #[trigger] self.has_cloud(id) implies loaded_as(
                self.cloud(id),
                self.remote(id),
                if old(self).has_cloud(id) {
                    Some((old(self).cloud(id), old(self).remote(id)))
                } else {
                    None
                },
                store,
            ) by {
                let b = position(slots, id).unwrap();
                assert(slots[b].named(id));
                assert(slot_from(slots[b], original, store));
            }
        }
    }

    /// Loads the clouds and takes up the active cloud that the application
    /// journal remembers.
    pub fn init(&mut self)
        requires
            old(self).wf(),
        ensures
            final(self).wf(),
            final(self).app_journal() == old(self).app_journal(),
            final(self).events() == old(self).events(),
            final(self).requests() == old(self).requests(),
            final(self).active() == remembered_active(old(self).app_journal().store()),
            forall|id: Seq<u8>| #[trigger]
                final(self).has_cloud(id) <==> secret_known(old(self).app_journal().store(), id),
            forall|id: Seq<u8>| #[trigger]
                final(self).has_cloud(id) ==> loaded_as(
                    final(self).cloud(id),
                    final(self).remote(id),
                    if old(self).has_cloud(id) {
                        Some((old(self).cloud(id), old(self).remote(id)))
                    } else {
                        None
                    },
                    old(self).app_journal().store(),
                ),
    {
        self.load_clouds();
        let key = [0u8; 32];
        assert(key@ =~= active_cloud_key());
        let ghost loaded = *self;
        self.active_cloud_id = match self.db.get(CLOUD_KEYS_TABLE.as_bytes(), array_as_slice(&key)) {
            Some(value) => {
                if value.len() == 32 {
                    Some(to_array32(value.as_slice()))
                } else {
                    None
                }
            },
            None => None,
        };
        proof {
            assert forall|id: Seq<u8>| #[trigger] self.has_cloud(id) == loaded.has_cloud(id) by {}
        }
    }

    /// Makes a new cloud under the given secret and with the given metadata:
    /// registers the secret and loads the cloud, whose journal holds the one
    /// transaction that writes the metadata.
    pub fn create_cloud_with(&mut self, secret: [u8; 32], metadata: CloudMetadata) -> (r: Result<
        [u8; 32],
        RegistryError,
    >)
        requires
            old(self).wf(),
        ensures
            final(self).wf(),
            final(self).active() == old(self).active(),
            final(self).events() == old(self).events(),
            final(self).requests() == old(self).requests(),
            if cloud_id(secret@) == active_cloud_key() {
                &&& r == Err::<[u8; 32], RegistryError>(RegistryError::ReservedId)
                &&& final(self).app_journal() == old(self).app_journal()
                &&& final(self).same_clouds(old(self))
            } else {
                &&& r matches Ok(id) && id@ == cloud_id(secret@)
                &&& final(self).app_journal().log() == old(self).app_journal().log().push(
                    registry_write(old(self).app_journal().log(), cloud_id(secret@), secret@),
                )
                &&& final(self).same_clouds_but(old(self), cloud_id(secret@))
                &&& final(self).has_cloud(cloud_id(secret@))
                &&& created_as(
                    final(self).cloud(cloud_id(secret@)),
                    final(self).remote(cloud_id(secret@)),
                    secret@,
                    metadata@,
                )
            },
    {
        let id = match self.register(secret) {
            Ok(id) => id,
            Err(e) => return Err(e),
        };
        let cloud = Cloud::from_key_with(secret, metadata);
        let remote = RemoteCloud::new(CloudSyncState::default(), cloud.db().journal_tx_len());
        self.put_slot(Slot { cloud, remote });
        Ok(id)
    }

    /// Create a new encrypted cloud: a local keypair under a secret drawn at
    /// random, with metadata made now under a random name. The transaction
    /// that writes the metadata is short enough to be sealed, so the first
    /// push of the cloud is not refused for its size.
    pub fn create_cloud(&mut self) -> (r: Result<[u8; 32], RegistryError>)
        requires
            old(self).wf(),
        ensures
            final(self).wf(),
            final(self).active() == old(self).active(),
            final(self).events() == old(self).events(),
            final(self).requests() == old(self).requests(),
            match r {
                Ok(id) => {
                    let cloud = final(self).cloud(id@);
                    &&& id@ != active_cloud_key()
                    &&& id@ == cloud_id(cloud.secret())
                    &&& final(self).same_clouds_but(old(self), id@)
                    &&& final(self).has_cloud(id@)
                    &&& created_as(
                        cloud,
                        final(self).remote(id@),
                        cloud.secret(),
                        cloud.metadata_view(),
                    )
                    &&& final(self).app_journal().log() == old(self).app_journal().log().push(
                        registry_write(old(self).app_journal().log(), id@, cloud.secret()),
                    )
                    &&& crate::transaction::encode_transaction(cloud.journal().log()[0]).len()
                        <= crate::crypto::KEYSTREAM_LIMIT
                },
                Err(e) => e == RegistryError::ReservedId && final(self).app_journal() == old(self).app_journal()
                    && final(self).same_clouds(old(self)),
            },
    {
        let metadata = CloudMetadata::fresh();
        proof {
            crate::cloud::lemma_first_transaction_fits(metadata@);
        }
        self.create_cloud_with(crate::crypto::random_bytes32(), metadata)
    }

    /// Commits a run of operations to the journal of a loaded cloud.
    pub fn commit(&mut self, id: &[u8; 32], operations: Vec<Operation>) -> (r: Result<
        JournalTransaction,
        RegistryError,
    >)
        requires
            old(self).wf(),
        ensures
            final(self).wf(),
            final(self).same_rest(old(self)),
            final(self).same_clouds_but(old(self), id@),
            match r {
                Ok(tx) => {
                    &&& old(self).has_cloud(id@) && final(self).has_cloud(id@)
                    &&& final(self).remote(id@) == old(self).remote(id@)
                    &&& final(self).cloud(id@).secret() == old(self).cloud(id@).secret()
                    &&& final(self).cloud(id@).metadata_view() == old(self).cloud(
                        id@,
                    ).metadata_view()
                    &&& final(self).cloud(id@).journal().log() == old(self).cloud(
                        id@,
                    ).journal().log().push(tx@)
                    &&& tx@ == (TransactionView {
                        index: old(self).cloud(id@).journal().log().len() as u64,
                        operations: operations_view(operations@),
                        last_tx_hash: expected_hash(
                            old(self).cloud(id@).journal().log(),
                            old(self).cloud(id@).journal().log().len() as int,
                        ),
                    })
                },
                Err(e) => e == RegistryError::UnknownCloud && !old(self).has_cloud(id@) && !final(self).has_cloud(id@),
            },
    {
        let i = match find_slot(&self.slots, id) {
            Some(i) => i,
            None => return Err(RegistryError::UnknownCloud),
        };
        let ghost before = self.slots@;
        assert(before[i as int].wf());
        let slot = &mut self.slots[i];
        let tx = slot.cloud.commit(operations);
        proof {
            lemma_positions_kept(before, self.slots@);
            self.lemma_one_changed(old(self), i as int, id@);
        }
        Ok(tx)
    }

    /// Writes new metadata to the journal of a loaded cloud and takes it as
    /// the cloud's metadata.
    pub fn update_cloud_metadata(&mut self, id: &[u8; 32], metadata: CloudMetadata) -> (r: Result<
        (),
        RegistryError,
    >)
        requires
            old(self).wf(),
        ensures
            final(self).wf(),
            final(self).same_rest(old(self)),
            final(self).same_clouds_but(old(self), id@),
            match r {
                Ok(()) => {
                    &&& old(self).has_cloud(id@) && final(self).has_cloud(id@)
                    &&& final(self).remote(id@) == old(self).remote(id@)
                    &&& final(self).cloud(id@).secret() == old(self).cloud(id@).secret()
                    &&& final(self).cloud(id@).metadata_view() == metadata@
                    &&& final(self).cloud(id@).journal().log() == old(self).cloud(
                        id@,
                    ).journal().log().push(
                        TransactionView {
                            index: old(self).cloud(id@).journal().log().len() as u64,
                            operations: seq![metadata_write(metadata@)],
                            last_tx_hash: expected_hash(
                                old(self).cloud(id@).journal().log(),
                                old(self).cloud(id@).journal().log().len() as int,
                            ),
                        },
                    )
                },
                Err(e) => e == RegistryError::UnknownCloud && !old(self).has_cloud(id@) && !final(self).has_cloud(id@),
            },
    {
        let i = match find_slot(&self.slots, id) {
            Some(i) => i,
            None => return Err(RegistryError::UnknownCloud),
        };
        let ghost before = self.slots@;
        assert(before[i as int].wf());
        let slot = &mut self.slots[i];
        slot.cloud.set_metadata(metadata);
        proof {
            lemma_positions_kept(before, self.slots@);
            self.lemma_one_changed(old(self), i as int, id@);
        }
        Ok(())
    }

    /// Puts a transaction that was kept elsewhere, on disk say, behind the
    /// journal of a loaded cloud, if it continues the chain.
    pub fn append_tx(&mut self, id: &[u8; 32], tx: JournalTransaction) -> (r: Result<
        (),
        RegistryError,
    >)
        requires
            old(self).wf(),
        ensures
            final(self).wf(),
            final(self).same_rest(old(self)),
            final(self).same_clouds_but(old(self), id@),
            final(self).has_cloud(id@) == old(self).has_cloud(id@),
            if !old(self).has_cloud(id@) {
                r == Err::<(), RegistryError>(RegistryError::UnknownCloud)
            } else {
                &&& final(self).remote(id@) == old(self).remote(id@)
                &&& final(self).cloud(id@).secret() == old(self).cloud(id@).secret()
                &&& final(self).cloud(id@).metadata_view() == old(self).cloud(id@).metadata_view()
                &&& match append_check(old(self).cloud(id@).journal().log(), tx@) {
                    Ok(()) => r is Ok && final(self).cloud(id@).journal().log() == old(self).cloud(
                        id@,
                    ).journal().log().push(tx@),
                    Err(e) => r == Err::<(), RegistryError>(RegistryError::Rejected(e)) && final(self).cloud(id@).journal().log() == old(self).cloud(id@).journal().log(),
                }
            },
    {
        let i = match find_slot(&self.slots, id) {
            Some(i) => i,
            None => return Err(RegistryError::UnknownCloud),
        };
        let ghost before = self.slots@;
        assert(before[i as int].wf());
        let slot = &mut self.slots[i];
        let appended = slot.cloud.append_tx(tx);
        proof {
            lemma_positions_kept(before, self.slots@);
            self.lemma_one_changed(old(self), i as int, id@);
        }
        match appended {
            Ok(()) => Ok(()),
            Err(e) => Err(RegistryError::Rejected(e)),
        }
    }

    /// Takes up the synchronization of a loaded cloud from the state that
    /// the device kept. A cursor that points beyond the cloud's journal is
    /// let go.
    pub fn set_sync_state(&mut self, id: &[u8; 32], sync_state: CloudSyncState) -> (r: Result<
        (),
        RegistryError,
    >)
        requires
            old(self).wf(),
        ensures
            final(self).wf(),
            final(self).same_rest(old(self)),
            final(self).same_clouds_but(old(self), id@),
            match r {
                Ok(()) => {
                    &&& old(self).has_cloud(id@) && final(self).has_cloud(id@)
                    &&& final(self).cloud(id@) == old(self).cloud(id@)
                    &&& final(self).remote(id@).phase_view() == SyncPhase::Idle
                    &&& final(self).remote(id@).state() == (SyncStateView {
                        latest_confirmed_index: if next_unconfirmed(
                            sync_state@.latest_confirmed_index,
                        ) <= old(self).cloud(id@).journal().log().len() {
                            sync_state@.latest_confirmed_index
                        } else {
                            None
                        },
                        ..sync_state@
                    })
                },
                Err(e) => e == RegistryError::UnknownCloud && !old(self).has_cloud(id@) && !final(self).has_cloud(id@),
            },
    {
        let i = match find_slot(&self.slots, id) {
            Some(i) => i,
            None => return Err(RegistryError::UnknownCloud),
        };
        let ghost before = self.slots@;
        assert(before[i as int].wf());
        let slot = &mut self.slots[i];
        slot.remote = RemoteCloud::new(sync_state, slot.cloud.db().journal_tx_len());
        proof {
            lemma_positions_kept(before, self.slots@);
            self.lemma_one_changed(old(self), i as int, id@);
        }
        Ok(())
    }

    /// Switches the synchronization of a loaded cloud on or off.
    pub fn set_synchronization_enabled(&mut self, id: &[u8; 32], enabled: bool) -> (r: Result<
        (),
        RegistryError,
    >)
        requires
            old(self).wf(),
        ensures
            final(self).wf(),
            final(self).same_rest(old(self)),
            final(self).same_clouds_but(old(self), id@),
            match r {
                Ok(()) => {
                    &&& old(self).has_cloud(id@) && final(self).has_cloud(id@)
                    &&& final(self).cloud(id@) == old(self).cloud(id@)
                    &&& final(self).remote(id@).state() == (SyncStateView {
                        synchronization_enabled: enabled,
                        ..old(self).remote(id@).state()
                    })
                    &&& final(self).remote(id@).phase_view() == if enabled {
                        old(self).remote(id@).phase_view()
                    } else {
                        SyncPhase::Idle
                    }
                },
                Err(e) => e == RegistryError::UnknownCloud && !old(self).has_cloud(id@) && !final(self).has_cloud(id@),
            },
    {
        let i = match find_slot(&self.slots, id) {
            Some(i) => i,
            None => return Err(RegistryError::UnknownCloud),
        };
        let ghost before = self.slots@;
        assert(before[i as int].wf());
        let slot = &mut self.slots[i];
        slot.remote.set_synchronization_enabled(enabled);
        proof {
            lemma_positions_kept(before, self.slots@);
            self.lemma_one_changed(old(self), i as int, id@);
        }
        Ok(())
    }

    /// Begins a tick for a loaded cloud.
    pub fn tick(&mut self, id: &[u8; 32]) -> (r: Result<SyncStep, RegistryError>)
        requires
            old(self).wf(),
        ensures
            final(self).wf(),
            final(self).same_rest(old(self)),
            final(self).same_clouds_but(old(self), id@),
            match r {
                Ok(step) => {
                    &&& old(self).has_cloud(id@) && final(self).has_cloud(id@)
                    &&& final(self).cloud(id@) == old(self).cloud(id@)
                    &&& final(self).remote(id@).stands_as(
                        step,
                        begin_view(
                            old(self).remote(id@).state().synchronization_enabled,
                            old(self).remote(id@).cursor(),
                            old(self).cloud(id@).journal().log().len(),
                        ),
                        &old(self).remote(id@),
                    )
                },
                Err(e) => e == RegistryError::UnknownCloud && !old(self).has_cloud(id@) && !final(self).has_cloud(id@),
            },
    {
        let i = match find_slot(&self.slots, id) {
            Some(i) => i,
            None => return Err(RegistryError::UnknownCloud),
        };
        let ghost before = self.slots@;
        assert(before[i as int].wf());
        let slot = &mut self.slots[i];
        let step = slot.remote.tick(&slot.cloud);
        proof {
            lemma_positions_kept(before, self.slots@);
            self.lemma_one_changed(old(self), i as int, id@);
        }
        Ok(step)
    }

    /// Ends the tick of a loaded cloud whose request failed before the relay
    /// answered.
    pub fn on_transport_error(&mut self, id: &[u8; 32]) -> (r: Result<SyncStep, RegistryError>)
        requires
            old(self).wf(),
        ensures
            final(self).wf(),
            final(self).same_rest(old(self)),
            final(self).same_clouds_but(old(self), id@),
            match r {
                Ok(step) => {
                    &&& old(self).has_cloud(id@) && final(self).has_cloud(id@)
                    &&& final(self).cloud(id@) == old(self).cloud(id@)
                    &&& final(self).remote(id@).stands_as(
                        step,
                        halted(
                            old(self).remote(id@).cursor(),
                            Some(SyncStatus::TransportError),
                        ),
                        &old(self).remote(id@),
                    )
                },
                Err(e) => e == RegistryError::UnknownCloud && !old(self).has_cloud(id@) && !final(self).has_cloud(id@),
            },
    {
        let i = match find_slot(&self.slots, id) {
            Some(i) => i,
            None => return Err(RegistryError::UnknownCloud),
        };
        let ghost before = self.slots@;
        assert(before[i as int].wf());
        let slot = &mut self.slots[i];
        let step = slot.remote.on_transport_error();
        proof {
            lemma_positions_kept(before, self.slots@);
            self.lemma_one_changed(old(self), i as int, id@);
        }
        Ok(step)
    }

    /// Hands the relay's answer to the engine of a loaded cloud. Where the
    /// step put a transaction from the relay into the cloud's journal, an
    /// event says so.
    pub fn on_reply(&mut self, id: &[u8; 32], status: u16, body: &[u8]) -> (r: Result<
        SyncStep,
        RegistryError,
    >)
        requires
            old(self).wf(),
        ensures
            final(self).wf(),
            final(self).app_journal() == old(self).app_journal(),
            final(self).active() == old(self).active(),
            final(self).requests() == old(self).requests(),
            final(self).same_clouds_but(old(self), id@),
            match r {
                Ok(step) => {
                    &&& old(self).has_cloud(id@) && final(self).has_cloud(id@)
                    &&& replied(
                        &old(self).remote(id@),
                        &old(self).cloud(id@),
                        status,
                        body@,
                        step,
                        &final(self).remote(id@),
                        &final(self).cloud(id@),
                    )
                    &&& final(self).events() == if step.cloud_updated {
                        old(self).events().push(AppEvent::RemoteCloudUpdate(*id))
                    } else {
                        old(self).events()
                    }
                },
                Err(e) => e == RegistryError::UnknownCloud && !old(self).has_cloud(id@) && !final(self).has_cloud(id@) && final(self).events() == old(self).events(),
            },
    {
        let i = match find_slot(&self.slots, id) {
            Some(i) => i,
            None => return Err(RegistryError::UnknownCloud),
        };
        let ghost before = self.slots@;
        assert(before[i as int].wf());
        let slot = &mut self.slots[i];
        let step = slot.remote.on_reply(&mut slot.cloud, status, body);
        proof {
            lemma_positions_kept(before, self.slots@);
            self.lemma_one_changed(old(self), i as int, id@);
        }
        if step.cloud_updated {
            self.pending_events.push(AppEvent::RemoteCloudUpdate(*id));
        }
        Ok(step)
    }

    /// Forks the active cloud at `index` under the given secret: registers
    /// the secret and loads a new cloud, called `name`, whose journal is the
    /// first `index + 1` transactions of the active one. Where that cannot
    /// be done, nothing changes.
    pub fn duplicate_active_cloud_with_key(&mut self, index: u64, name: String, secret: [u8; 32]) -> (r:
        Result<[u8; 32], RegistryError>)
        requires
            old(self).wf(),
        ensures
            final(self).wf(),
            final(self).active() == old(self).active(),
            final(self).events() == old(self).events(),
            final(self).requests() == old(self).requests(),
            match old(self).fork_refusal(index, secret@) {
                Some(e) => {
                    &&& r == Err::<[u8; 32], RegistryError>(e)
                    &&& final(self).app_journal() == old(self).app_journal()
                    &&& final(self).same_clouds(old(self))
                },
                None => {
                    let source = old(self).cloud(old(self).active().unwrap());
                    let id = cloud_id(secret@);
                    &&& r matches Ok(new_id) && new_id@ == id
                    &&& final(self).app_journal().log() == old(self).app_journal().log().push(
                        registry_write(old(self).app_journal().log(), id, secret@),
                    )
                    &&& final(self).same_clouds_but(old(self), id)
                    &&& final(self).has_cloud(id)
                    &&& final(self).cloud(id).secret() == secret@
                    &&& final(self).cloud(id).journal().log() == source.journal().log().take(
                        index + 1,
                    )
                    &&& final(self).cloud(id).metadata_view() == (MetadataView {
                        name: name@,
                        ..source.metadata_view()
                    })
                    &&& final(self).remote(id).state() == default_sync_state()
                    &&& final(self).remote(id).phase_view() == SyncPhase::Idle
                },
            },
    {
        let active = match self.active_cloud_id {
            Some(id) => id,
            None => return Err(RegistryError::NoActiveCloud),
        };
        let i = match find_slot(&self.slots, &active) {
            Some(i) => i,
            None => return Err(RegistryError::UnknownCloud),
        };
        assert(self.slots@[i as int].wf());
        let copy = match self.slots[i].cloud.duplicate_at_with_key(index, name, secret) {
            Some(copy) => copy,
            None => return Err(RegistryError::IndexOutOfRange),
        };
        let reserved = [0u8; 32];
        assert(reserved@ =~= active_cloud_key());
        if bytes_eq(array_as_slice(copy.id()), array_as_slice(&reserved)) {
            return Err(RegistryError::ReservedId);
        }
        if find_slot(&self.slots, copy.id()).is_some() {
            return Err(RegistryError::AlreadyLoaded);
        }
        let registered = self.register(secret);
        let remote = RemoteCloud::new(CloudSyncState::default(), 0);
        let id = *copy.id();
        self.put_slot(Slot { cloud: copy, remote });
        Ok(id)
    }

    /// Forks the active cloud at `index` under a secret drawn at random.
    pub fn duplicate_active_cloud(&mut self, index: u64, name: String) -> (r: Result<
        [u8; 32],
        RegistryError,
    >)
        requires
            old(self).wf(),
        ensures
            final(self).wf(),
            final(self).active() == old(self).active(),
            final(self).events() == old(self).events(),
            final(self).requests() == old(self).requests(),
            match old(self).source_refusal(index) {
                Some(e) => r == Err::<[u8; 32], RegistryError>(e),
                None => r is Ok || r == Err::<[u8; 32], RegistryError>(RegistryError::ReservedId)
                    || r == Err::<[u8; 32], RegistryError>(RegistryError::AlreadyLoaded),
            },
            match r {
                Ok(id) => {
                    let source = old(self).cloud(old(self).active().unwrap());
                    let copy = final(self).cloud(id@);
                    &&& id@ == cloud_id(copy.secret())
                    &&& id@ != active_cloud_key()
                    &&& !old(self).has_cloud(id@)
                    &&& final(self).same_clouds_but(old(self), id@)
                    &&& final(self).has_cloud(id@)
                    &&& copy.journal().log() == source.journal().log().take(index + 1)
                    &&& copy.metadata_view() == (MetadataView {
                        name: name@,
                        ..source.metadata_view()
                    })
                    &&& final(self).remote(id@).state() == default_sync_state()
                    &&& final(self).remote(id@).phase_view() == SyncPhase::Idle
                    &&& final(self).app_journal().log() == old(self).app_journal().log().push(
                        registry_write(old(self).app_journal().log(), id@, copy.secret()),
                    )
                },
                Err(e) => final(self).app_journal() == old(self).app_journal() && final(self).same_clouds(old(self)),
            },
    {
        self.duplicate_active_cloud_with_key(index, name, crate::crypto::random_bytes32())
    }

    /// Why the active cloud cannot be forked at `index`, whatever the secret
    /// of the fork, if it cannot.
    pub open spec fn source_refusal(&self, index: u64) -> Option<RegistryError> {
        if self.active() is None {
            Some(RegistryError::NoActiveCloud)
        } else if !self.has_cloud(self.active().unwrap()) {
            Some(RegistryError::UnknownCloud)
        } else if index >= self.cloud(self.active().unwrap()).journal().log().len() {
            Some(RegistryError::IndexOutOfRange)
        } else {
            None
        }
    }

    /// Why the active cloud cannot be forked at `index` under `secret`, if
    /// it cannot.
    pub open spec fn fork_refusal(&self, index: u64, secret: Seq<u8>) -> Option<RegistryError> {
        if self.source_refusal(index) is Some {
            self.source_refusal(index)
        } else if cloud_id(secret) == active_cloud_key() {
            Some(RegistryError::ReservedId)
        } else if self.has_cloud(cloud_id(secret)) {
            Some(RegistryError::AlreadyLoaded)
        } else {
            None
        }
    }

    /// Carries out one request. A request to load the clouds loads them; one
    /// to switch makes the cloud active; one to update metadata writes the
    /// metadata to the cloud, if the cloud is loaded.
    pub fn handle_request(&mut self, request: ActionRequest)
        requires
            old(self).wf(),
        ensures
            final(self).wf(),
            final(self).requests() == old(self).requests(),
            match request {
                ActionRequest::LoadClouds => {
                    &&& final(self).same_rest(old(self))
                    &&& forall|id: Seq<u8>| #[trigger]
                        final(self).has_cloud(id) <==> secret_known(
                            old(self).app_journal().store(),
                            id,
                        )
                    &&& forall|id: Seq<u8>| #[trigger]
                        final(self).has_cloud(id) ==> loaded_as(
                            final(self).cloud(id),
                            final(self).remote(id),
                            if old(self).has_cloud(id) {
                                Some((old(self).cloud(id), old(self).remote(id)))
                            } else {
                                None
                            },
                            old(self).app_journal().store(),
                        )
                },
                ActionRequest::SwitchCloud(id) => {
                    &&& final(self).active() == Some(id@)
                    &&& final(self).events() == old(self).events().push(
                        AppEvent::ActiveCloudChanged,
                    )
                    &&& final(self).same_clouds(old(self))
                    &&& final(self).app_journal().log() == old(self).app_journal().log().push(
                        registry_write(old(self).app_journal().log(), active_cloud_key(), id@),
                    )
                },
                ActionRequest::UpdateCloudMetadata(id, metadata) => {
                    &&& final(self).same_rest(old(self))
                    &&& final(self).same_clouds_but(old(self), id@)
                    &&& final(self).has_cloud(id@) == old(self).has_cloud(id@)
                    &&& old(self).has_cloud(id@) ==> {
                        &&& final(self).remote(id@) == old(self).remote(id@)
                        &&& final(self).cloud(id@).secret() == old(self).cloud(id@).secret()
                        &&& final(self).cloud(id@).metadata_view() == metadata@
                        &&& final(self).cloud(id@).journal().log() == old(self).cloud(
                            id@,
                        ).journal().log().push(
                            TransactionView {
                                index: old(self).cloud(id@).journal().log().len() as u64,
                                operations: seq![metadata_write(metadata@)],
                                last_tx_hash: expected_hash(
                                    old(self).cloud(id@).journal().log(),
                                    old(self).cloud(id@).journal().log().len() as int,
                                ),
                            },
                        )
                    }
                },
            },
    {
        match request {
            ActionRequest::LoadClouds => {
                self.load_clouds();
            },
            ActionRequest::SwitchCloud(id) => {
                self.set_active_cloud(id);
            },

            ActionRequest::UpdateCloudMetadata(id, metadata) => {
                let updated = self.update_cloud_metadata(&id, metadata);
            },
        }
    }

    /// Where one slot changed and kept its cloud's identity, every other
    /// cloud and engine is what it was, and the changed ones are those of
    /// the slot.
    proof fn lemma_one_changed(&self, before: &AppState, i: int, id: Seq<u8>)
        requires
            distinct(before.slots@),
            self.slots@.len() == before.slots@.len(),
            0 <= i < before.slots@.len(),
            before.slots@[i].named(id),
            self.slots@[i].named(id),
            forall|j: int| 0 <= j < before.slots@.len() && j != i ==> self.slots@[j] == before.slots@[j],
            forall|x: Seq<u8>| #[trigger] position(self.slots@, x) == position(before.slots@, x),
        ensures
            self.same_clouds_but(before, id),
            before.has_cloud(id),
            self.has_cloud(id),
            self.cloud(id) == self.slots@[i].cloud,
            self.remote(id) == self.slots@[i].remote,
            before.cloud(id) == before.slots@[i].cloud,
            before.remote(id) == before.slots@[i].remote,
    {
        lemma_position(before.slots@, i, id);
        assert(position(self.slots@, id) == position(before.slots@, id));
        assert forall|x: Seq<u8>| x != id implies #[trigger] self.has_cloud(x) == before.has_cloud(x)
            && (self.has_cloud(x) ==> self.cloud(x) == before.cloud(x) && self.remote(x)
            == before.remote(x)) by {
            assert(position(self.slots@, x) == position(before.slots@, x));
            if position(before.slots@, x) is Some {
                let j = position(before.slots@, x).unwrap();
                assert(before.slots@[j].named(x));
            }
        }
    }
}

/// The active cloud that the application journal remembers.
pub open spec fn remembered_active(store: StoreView) -> Option<Seq<u8>> {
    let place = (keys_table(), active_cloud_key());
    if store.dom().contains(place) && store[place].len() == 32 {
        Some(store[place])
    } else {
        None
    }
}

/// How a cloud stands right after it was created under `secret` with
/// `metadata`: its journal holds the transaction that writes the metadata,
/// and its engine is in the state of a cloud that has never been
/// synchronized.
pub open spec fn created_as(
    cloud: Cloud,
    remote: RemoteCloud,
    secret: Seq<u8>,
    metadata: MetadataView,
) -> bool {
    &&& cloud.secret() == secret
    &&& cloud.metadata_view() == metadata
    &&& cloud.journal().log() == seq![
        TransactionView {
            index: 0,
            operations: seq![metadata_write(metadata)],
            last_tx_hash: genesis_hash(),
        },
    ]
    &&& remote.state() == default_sync_state()
    &&& remote.phase_view() == SyncPhase::Idle
}

/// The slot is among the slots.
spec fn contains_slot(slots: Seq<Slot>, slot: Slot) -> bool {
    exists|i: int| 0 <= i < slots.len() && #[trigger] slots[i] == slot
}

/// Where a slot comes from when the clouds are loaded: from the slot that
/// held its cloud before, or from a secret in the registry table.
spec fn slot_from(slot: Slot, original: Seq<Slot>, store: StoreView) -> bool {
    let id = cloud_id(slot.cloud.secret());
    &&& secret_known(store, id)
    &&& loaded_as(
        slot.cloud,
        slot.remote,
        match position(original, id) {
            Some(o) => Some((original[o].cloud, original[o].remote)),
            None => None,
        },
        store,
    )
}

/// Slots stay distinct and well formed when one is taken out.
proof fn lemma_removed(slots: Seq<Slot>, at: int)
    requires
        distinct(slots),
        0 <= at < slots.len(),
        forall|a: int| 0 <= a < slots.len() ==> (#[trigger] slots[a]).wf(),
    ensures
        distinct(slots.remove(at)),
        forall|a: int| 0 <= a < slots.remove(at).len() ==> (#[trigger] slots.remove(at)[a]).wf(),
        forall|a: int|
            0 <= a < slots.remove(at).len() ==> contains_slot(slots, #[trigger] slots.remove(at)[a])
                && !slots.remove(at)[a].named(cloud_id(slots[at].cloud.secret())),
{
    let rest = slots.remove(at);
    assert forall|a: int| 0 <= a < rest.len() implies (#[trigger] rest[a]).wf() && contains_slot(
        slots,
        rest[a],
    ) && !rest[a].named(cloud_id(slots[at].cloud.secret())) by {
        let a0 = if a < at { a } else { a + 1 };
        assert(rest[a] == slots[a0]);
        assert(slots[a0].wf());
        assert(!slots[a0].named(cloud_id(slots[at].cloud.secret())));
    }
    assert forall|i: int, j: int|
        0 <= i < rest.len() && 0 <= j < rest.len() && i != j implies !(#[trigger] rest[i]).named(
        cloud_id((#[trigger] rest[j]).cloud.secret()),
    ) by {
        let i0 = if i < at { i } else { i + 1 };
        let j0 = if j < at { j } else { j + 1 };
        assert(rest[i] == slots[i0]);
        assert(rest[j] == slots[j0]);
        assert(!slots[i0].named(cloud_id(slots[j0].cloud.secret())));
    }
}

/// The metadata a cloud shows after its journal was asked: the record the
/// journal holds, else what the cloud showed before.
pub open spec fn refreshed_metadata(cloud: Cloud) -> MetadataView {
    match stored_metadata(cloud.journal()) {
        Ok(Some(m)) => m,
        _ => cloud.metadata_view(),
    }
}

/// How a cloud stands after the clouds were loaded: as it was before, with
/// its metadata refreshed, or, where it was not loaded before, as an import
/// of a secret that the registry table holds, with an engine in the state
/// of a cloud that has never been synchronized.
pub open spec fn loaded_as(
    cloud: Cloud,
    remote: RemoteCloud,
    was: Option<(Cloud, RemoteCloud)>,
    store: StoreView,
) -> bool {
    match was {
        Some((old_cloud, old_remote)) => {
            &&& cloud.secret() == old_cloud.secret()
            &&& cloud.journal() == old_cloud.journal()
            &&& cloud.metadata_view() == refreshed_metadata(old_cloud)
            &&& remote == old_remote
        },
        None => {
            &&& listed_secret(store, cloud.secret())
            &&& cloud.journal().log() == Seq::<TransactionView>::empty()
            &&& remote.state() == default_sync_state()
            &&& remote.phase_view() == SyncPhase::Idle
        },
    }
}

/// The identifier is one of `ids`.
pub open spec fn holds_id(ids: Seq<[u8; 32]>, id: Seq<u8>) -> bool {
    exists|i: int| 0 <= i < ids.len() && (#[trigger] ids[i])@ == id
}

/// A place at which `ids` holds the identifier.
spec fn held_at(ids: Seq<[u8; 32]>, id: Seq<u8>) -> int {
    choose|i: int| 0 <= i < ids.len() && (#[trigger] ids[i])@ == id
}

/// Where `ids` holds an identifier, it holds it at [`held_at`].
proof fn lemma_held_id(ids: Seq<[u8; 32]>, id: Seq<u8>)
    requires
        holds_id(ids, id),
    ensures
        0 <= held_at(ids, id) < ids.len(),
        ids[held_at(ids, id)]@ == id,
{
}

/// The secret stands in the registry table.
pub open spec fn listed_secret(store: StoreView, secret: Seq<u8>) -> bool {
    exists|key: Seq<u8>| #[trigger] holds_secret(store, key) && store[(keys_table(), key)] == secret
}

/// The secret is one of `secrets`.
pub open spec fn among(secrets: Seq<[u8; 32]>, secret: Seq<u8>) -> bool {
    exists|i: int| 0 <= i < secrets.len() && (#[trigger] secrets[i])@ == secret
}

/// The transaction that stores `value` under `key` in the registry table,
/// as the next one of the application journal.
pub open spec fn registry_write(log: Seq<TransactionView>, key: Seq<u8>, value: Seq<u8>) -> TransactionView {
    TransactionView {
        index: log.len() as u64,
        operations: seq![
            crate::transaction::OperationView::Insert { table: keys_table(), key, value },
        ],
        last_tx_hash: crate::journal::expected_hash(log, log.len() as int),
    }
}

} // verus!
