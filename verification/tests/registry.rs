use btk_cloud::cloud::Cloud;
use btk_cloud::journal::Journal;
use btk_cloud::journal::JournalError;
use btk_cloud::metadata::CloudMetadata;
use btk_cloud::registry::parse_secret;
use btk_cloud::registry::ActionRequest;
use btk_cloud::registry::AppEvent;
use btk_cloud::registry::AppState;
use btk_cloud::registry::RegistryError;
use btk_cloud::registry::CLOUD_KEYS_TABLE;
use btk_cloud::relay::BTKServer;
use btk_cloud::sync::CloudSyncState;
use btk_cloud::sync::SyncRequest;
use btk_cloud::sync::SyncStatus;
use btk_cloud::transaction::Operation;

fn metadata(name: &str) -> CloudMetadata {
    CloudMetadata::create(1, name.to_string())
}

fn note(key: &[u8], value: &[u8]) -> Vec<Operation> {
    vec![Operation::Insert { table: b"notes".to_vec(), key: key.to_vec(), value: value.to_vec() }]
}

fn tick(state: &mut AppState, id: &[u8; 32], relay: &mut BTKServer) -> Vec<SyncStatus> {
    let id_hex = state.cloud_by_id(id).unwrap().id_hex();
    let mut statuses = Vec::new();
    let mut step = state.tick(id).unwrap();
    loop {
        statuses.extend(step.status);
        let reply = match step.request {
            Some(SyncRequest::GetMutation { index }) => {
                relay.handle_get_mutation(Some(&id_hex), Some(&index.to_string()))
            }
            Some(SyncRequest::PostMutation { body }) => relay.handle_mutate(&body),
            Some(SyncRequest::GetState) => relay.handle_state(Some(&id_hex)),
            None => return statuses,
        };
        step = state.on_reply(id, reply.status, &reply.body).unwrap();
    }
}

#[test]
fn secret_is_sixty_four_hex_digits() {
    assert_eq!(parse_secret(&"0a".repeat(32)), Some([0x0a; 32]));
    assert_eq!(parse_secret(&"AB".repeat(32)), Some([0xab; 32]));
    assert_eq!(parse_secret(&"0a".repeat(31)), None);
    assert_eq!(parse_secret(&"0a".repeat(33)), None);
    assert_eq!(parse_secret(""), None);
    assert_eq!(parse_secret(&format!(" {}", "0a".repeat(32))), None);
    assert_eq!(parse_secret(&"0x".repeat(32)), None);
}

#[test]
fn new_registry_is_empty() {
    let mut state = AppState::new(Journal::new());
    assert_eq!(state.active_cloud_id(), None);
    assert!(state.active_cloud().is_none());
    assert!(state.cloud_ids().is_empty());
    assert!(state.cloud_keys().is_empty());
    assert!(state.cloud_by_id(&[1; 32]).is_none());
    assert!(state.remote_by_id(&[1; 32]).is_none());
    assert!(state.drain_pending_app_events().is_empty());
    assert!(state.drain_pending_app_requests().is_empty());
    state.load_clouds();
    state.init();
    assert!(state.cloud_ids().is_empty());
    assert_eq!(state.active_cloud_id(), None);
}

#[test]
fn created_cloud_is_registered_and_loaded() {
    let mut state = AppState::new(Journal::new());
    let id = state.create_cloud_with([3; 32], metadata("made")).unwrap();
    assert_eq!(id, Cloud::id_from_key([3; 32]));
    assert_eq!(state.cloud_ids(), vec![id]);
    assert_eq!(state.cloud_keys(), vec![[3; 32]]);
    let cloud = state.cloud_by_id(&id).unwrap();
    assert_eq!(cloud.metadata(), &metadata("made"));
    assert_eq!(cloud.db().journal_tx_len(), 1);
    assert_eq!(cloud.export_key(), "03".repeat(32));
    assert_eq!(state.remote_by_id(&id).unwrap().latest_confirmed_index(), None);

    let random = state.create_cloud().unwrap();
    assert_ne!(random, id);
    assert_eq!(state.cloud_ids().len(), 2);
    assert_eq!(state.cloud_keys().len(), 2);
    assert_eq!(state.cloud_by_id(&random).unwrap().db().journal_tx_len(), 1);
}

#[test]
fn import_registers_and_load_brings_an_empty_journal() {
    let mut state = AppState::new(Journal::new());
    assert_eq!(state.import_cloud("nonsense"), Err(RegistryError::BadKey));
    assert_eq!(state.import_cloud(&"0a".repeat(31)), Err(RegistryError::BadKey));
    assert_eq!(state.import_cloud(&"0a".repeat(33)), Err(RegistryError::BadKey));
    assert_eq!(state.import_cloud(""), Err(RegistryError::BadKey));
    assert!(state.cloud_keys().is_empty());

    let id = state.import_cloud(&"0A".repeat(32)).unwrap();
    assert_eq!(id, Cloud::id_from_key([0x0a; 32]));
    assert_eq!(state.cloud_keys(), vec![[0x0a; 32]]);
    assert!(state.cloud_by_id(&id).is_none());
    assert!(state.cloud_ids().is_empty());

    state.load_clouds();
    assert_eq!(state.cloud_ids(), vec![id]);
    let cloud = state.cloud_by_id(&id).unwrap();
    assert_eq!(cloud.db().journal_tx_len(), 0);
    assert_eq!(cloud.export_key(), "0a".repeat(32));

    assert_eq!(state.import_cloud(&"0a".repeat(32)), Ok(id));
    state.load_clouds();
    assert_eq!(state.cloud_ids(), vec![id]);
    assert_eq!(state.cloud_keys(), vec![[0x0a; 32]]);
}

#[test]
fn loading_keeps_what_was_loaded_and_refreshes_metadata() {
    let mut state = AppState::new(Journal::new());
    let kept = state.create_cloud_with([3; 32], metadata("kept")).unwrap();
    state.commit(&kept, note(b"k", b"v")).unwrap();
    let imported = state.import_cloud(&"04".repeat(32)).unwrap();
    state.load_clouds();
    let mut ids = state.cloud_ids();
    ids.sort();
    let mut expected = vec![kept, imported];
    expected.sort();
    assert_eq!(ids, expected);
    let cloud = state.cloud_by_id(&kept).unwrap();
    assert_eq!(cloud.db().journal_tx_len(), 2);
    assert_eq!(cloud.db().get(b"notes", b"k"), Some(b"v".to_vec()));
    assert_eq!(cloud.metadata(), &metadata("kept"));
    state.load_clouds();
    assert_eq!(state.cloud_by_id(&kept).unwrap().db().journal_tx_len(), 2);
    assert_eq!(state.cloud_by_id(&imported).unwrap().db().journal_tx_len(), 0);
}

#[test]
fn registry_is_rebuilt_from_its_journal() {
    let mut journal = Journal::new();
    let one = Cloud::id_from_key([1; 32]);
    let two = Cloud::id_from_key([2; 32]);
    journal.insert(CLOUD_KEYS_TABLE.as_bytes(), &one, &[1; 32]);
    journal.insert(CLOUD_KEYS_TABLE.as_bytes(), &two, &[2; 32]);
    journal.insert(CLOUD_KEYS_TABLE.as_bytes(), &[0; 32], &two);
    journal.insert(CLOUD_KEYS_TABLE.as_bytes(), b"short", &[9; 5]);
    journal.insert(b"elsewhere", &[7; 32], &[7; 32]);
    let mut state = AppState::new(journal);
    let mut keys = state.cloud_keys();
    keys.sort();
    assert_eq!(keys, vec![[1; 32], [2; 32]]);
    assert_eq!(state.active_cloud_id(), None);
    state.init();
    assert_eq!(state.active_cloud_id(), Some(two));
    let mut ids = state.cloud_ids();
    ids.sort();
    let mut expected = vec![one, two];
    expected.sort();
    assert_eq!(ids, expected);
    assert_eq!(state.active_cloud().unwrap().id(), &two);
    assert_eq!(state.active_cloud().unwrap().db().journal_tx_len(), 0);
}

#[test]
fn active_cloud_is_remembered() {
    let mut state = AppState::new(Journal::new());
    let id = state.create_cloud_with([3; 32], metadata("a")).unwrap();
    assert!(state.active_cloud().is_none());
    state.set_active_cloud(id);
    assert_eq!(state.active_cloud_id(), Some(id));
    assert_eq!(state.active_cloud().unwrap().id(), &id);
    assert_eq!(state.drain_pending_app_events(), vec![AppEvent::ActiveCloudChanged]);
    state.set_active_cloud([9; 32]);
    assert_eq!(state.active_cloud_id(), Some([9; 32]));
    assert!(state.active_cloud().is_none());
    assert_eq!(state.cloud_keys(), vec![[3; 32]]);
    state.init();
    assert_eq!(state.active_cloud_id(), Some([9; 32]));
    assert_eq!(state.cloud_ids(), vec![id]);
}

#[test]
fn requests_and_events_queue_up_in_order() {
    let mut state = AppState::new(Journal::new());
    let id = state.create_cloud_with([3; 32], metadata("a")).unwrap();
    state.switch_cloud(id);
    state.reload_clouds();
    let requests = state.drain_pending_app_requests();
    assert_eq!(requests, vec![ActionRequest::SwitchCloud(id), ActionRequest::LoadClouds]);
    assert!(state.drain_pending_app_requests().is_empty());
    for request in requests {
        state.handle_request(request);
    }
    assert_eq!(state.active_cloud_id(), Some(id));
    assert_eq!(state.drain_pending_app_events(), vec![AppEvent::ActiveCloudChanged]);
    assert!(state.drain_pending_app_events().is_empty());

    state.handle_request(ActionRequest::UpdateCloudMetadata(id, metadata("renamed")));
    assert_eq!(state.cloud_by_id(&id).unwrap().metadata(), &metadata("renamed"));
    assert_eq!(state.cloud_by_id(&id).unwrap().db().journal_tx_len(), 2);
    state.handle_request(ActionRequest::UpdateCloudMetadata([8; 32], metadata("nobody")));
    assert_eq!(state.cloud_ids(), vec![id]);
    assert!(state.drain_pending_app_events().is_empty());
}

#[test]
fn unknown_clouds_are_reported() {
    let mut state = AppState::new(Journal::new());
    let id = [5; 32];
    assert_eq!(state.commit(&id, note(b"k", b"v")).err(), Some(RegistryError::UnknownCloud));
    assert_eq!(state.update_cloud_metadata(&id, metadata("x")), Err(RegistryError::UnknownCloud));
    assert_eq!(state.set_synchronization_enabled(&id, false), Err(RegistryError::UnknownCloud));
    assert_eq!(state.tick(&id).err(), Some(RegistryError::UnknownCloud));
    assert_eq!(state.on_reply(&id, 200, &[]).err(), Some(RegistryError::UnknownCloud));
    assert_eq!(state.on_transport_error(&id).err(), Some(RegistryError::UnknownCloud));
    assert!(state.drain_pending_app_events().is_empty());
}

#[test]
fn fork_of_the_active_cloud() {
    let mut state = AppState::new(Journal::new());
    assert_eq!(
        state.duplicate_active_cloud(0, "none".to_string()),
        Err(RegistryError::NoActiveCloud)
    );
    state.set_active_cloud([9; 32]);
    assert_eq!(
        state.duplicate_active_cloud(0, "none".to_string()),
        Err(RegistryError::UnknownCloud)
    );
    let source = state.create_cloud_with([3; 32], metadata("source")).unwrap();
    for i in 0..9u8 {
        state.commit(&source, note(&[i], &[i])).unwrap();
    }
    state.set_active_cloud(source);
    assert_eq!(
        state.duplicate_active_cloud(10, "none".to_string()),
        Err(RegistryError::IndexOutOfRange)
    );
    assert_eq!(
        state.duplicate_active_cloud_with_key(3, "same".to_string(), [3; 32]),
        Err(RegistryError::AlreadyLoaded)
    );
    assert_eq!(state.cloud_ids(), vec![source]);

    let fork = state.duplicate_active_cloud(3, "branch".to_string()).unwrap();
    assert_ne!(fork, source);
    assert_eq!(state.cloud_ids().len(), 2);
    assert_eq!(state.cloud_keys().len(), 2);
    assert_eq!(state.active_cloud_id(), Some(source));
    let branch = state.cloud_by_id(&fork).unwrap();
    let trunk = state.cloud_by_id(&source).unwrap();
    assert_eq!(branch.db().journal_tx_len(), 4);
    assert_eq!(trunk.db().journal_tx_len(), 10);
    assert_eq!(branch.metadata().name, "branch");
    for i in 0..4 {
        let ours = trunk.db().journal_tx_by_index(i).unwrap();
        let theirs = branch.db().journal_tx_by_index(i).unwrap();
        assert_eq!(ours.hash(), theirs.hash());
        assert_eq!(ours, theirs);
    }
    assert_eq!(state.remote_by_id(&fork).unwrap().latest_confirmed_index(), None);

    let keyed = state.duplicate_active_cloud_with_key(0, "keyed".to_string(), [4; 32]).unwrap();
    assert_eq!(keyed, Cloud::id_from_key([4; 32]));
    assert_eq!(state.cloud_by_id(&keyed).unwrap().db().journal_tx_len(), 1);
}

#[test]
fn two_registries_synchronize_through_a_relay() {
    let mut relay = BTKServer::new();
    let mut device_a = AppState::new(Journal::new());
    let id = device_a.create_cloud_with([3; 32], metadata("shared")).unwrap();
    device_a.commit(&id, note(b"note", b"hello")).unwrap();
    assert_eq!(
        tick(&mut device_a, &id, &mut relay),
        vec![
            SyncStatus::Broadcasting { number: 1 },
            SyncStatus::Broadcasting { number: 2 },
            SyncStatus::FullySynchronized { local: 2, remote: 2 },
        ]
    );
    assert!(device_a.drain_pending_app_events().is_empty());
    assert_eq!(device_a.remote_by_id(&id).unwrap().latest_confirmed_index(), Some(1));

    let mut device_b = AppState::new(Journal::new());
    let secret = device_a.cloud_by_id(&id).unwrap().export_key();
    assert_eq!(device_b.import_cloud(&secret), Ok(id));
    device_b.load_clouds();
    let statuses = tick(&mut device_b, &id, &mut relay);
    assert_eq!(statuses.last(), Some(&SyncStatus::FullySynchronized { local: 2, remote: 2 }));
    assert_eq!(
        device_b.drain_pending_app_events(),
        vec![AppEvent::RemoteCloudUpdate(id), AppEvent::RemoteCloudUpdate(id)]
    );
    device_b.handle_request(ActionRequest::LoadClouds);
    let cloud = device_b.cloud_by_id(&id).unwrap();
    assert_eq!(cloud.db().journal_tx_len(), 2);
    assert_eq!(cloud.db().get(b"notes", b"note"), Some(b"hello".to_vec()));
    assert_eq!(cloud.metadata(), &metadata("shared"));

    assert_eq!(device_b.set_synchronization_enabled(&id, false), Ok(()));
    assert_eq!(tick(&mut device_b, &id, &mut relay), vec![SyncStatus::Disabled]);
    assert_eq!(device_b.set_synchronization_enabled(&id, true), Ok(()));
    device_b.tick(&id).unwrap();
    let step = device_b.on_transport_error(&id).unwrap();
    assert_eq!(step.status, Some(SyncStatus::TransportError));
    assert_eq!(step.request, None);
    assert_eq!(device_b.remote_by_id(&id).unwrap().latest_confirmed_index(), Some(1));
}

#[test]
fn kept_transactions_and_cursor_are_taken_up_again() {
    let mut first_run = AppState::new(Journal::new());
    let id = first_run.create_cloud_with([3; 32], metadata("kept")).unwrap();
    first_run.commit(&id, note(b"k", b"v")).unwrap();
    let kept = first_run.cloud_by_id(&id).unwrap().db().journal_transactions();
    let registry = first_run.db().journal_transactions();
    assert_eq!(registry.len(), 1);

    let mut journal = Journal::new();
    for tx in registry {
        assert_eq!(journal.append_tx(tx), Ok(()));
    }
    let mut second_run = AppState::new(journal);
    second_run.init();
    assert_eq!(second_run.cloud_ids(), vec![id]);
    assert_eq!(
        second_run.append_tx(&id, kept[1].clone()),
        Err(RegistryError::Rejected(JournalError::IndexGap))
    );
    assert_eq!(second_run.append_tx(&[0; 32], kept[0].clone()), Err(RegistryError::UnknownCloud));
    for tx in kept {
        assert_eq!(second_run.append_tx(&id, tx), Ok(()));
    }
    second_run.load_clouds();
    let cloud = second_run.cloud_by_id(&id).unwrap();
    assert_eq!(cloud.db().journal_tx_len(), 2);
    assert_eq!(cloud.metadata(), &metadata("kept"));
    assert_eq!(cloud.db().get(b"notes", b"k"), Some(b"v".to_vec()));

    let cursor = CloudSyncState {
        http_url: "http://localhost:8000".to_string(),
        latest_confirmed_index: Some(1),
        ..CloudSyncState::default()
    };
    assert_eq!(second_run.set_sync_state(&id, cursor.clone()), Ok(()));
    assert_eq!(second_run.remote_by_id(&id).unwrap().sync_state(), &cursor);
    let beyond = CloudSyncState { latest_confirmed_index: Some(2), ..cursor.clone() };
    assert_eq!(second_run.set_sync_state(&id, beyond), Ok(()));
    assert_eq!(second_run.remote_by_id(&id).unwrap().latest_confirmed_index(), None);
    assert_eq!(second_run.remote_by_id(&id).unwrap().http_url(), "http://localhost:8000");
    assert_eq!(second_run.set_sync_state(&[0; 32], cursor), Err(RegistryError::UnknownCloud));
}

#[test]
fn clouds_are_listed_by_age_and_then_by_name() {
    let mut state = AppState::new(Journal::new());
    assert!(state.sorted_clouds().is_empty());
    let late_b = state.create_cloud_with([1; 32], CloudMetadata::create(2, "b".to_string())).unwrap();
    assert_eq!(state.sorted_clouds(), vec![late_b]);
    let early = state.create_cloud_with([2; 32], CloudMetadata::create(1, "z".to_string())).unwrap();
    let late_a = state.create_cloud_with([3; 32], CloudMetadata::create(2, "a".to_string())).unwrap();
    let late_ab = state.create_cloud_with([4; 32], CloudMetadata::create(2, "ab".to_string())).unwrap();
    let late_upper = state.create_cloud_with([5; 32], CloudMetadata::create(2, "Z".to_string())).unwrap();
    assert_eq!(state.sorted_clouds(), vec![early, late_upper, late_a, late_ab, late_b]);
    state.handle_request(ActionRequest::UpdateCloudMetadata(
        early,
        CloudMetadata::create(3, "now the youngest".to_string()),
    ));
    assert_eq!(state.sorted_clouds(), vec![late_upper, late_a, late_ab, late_b, early]);
    let mut ids = state.cloud_ids();
    let mut sorted = state.sorted_clouds();
    ids.sort();
    sorted.sort();
    assert_eq!(ids, sorted);
}
