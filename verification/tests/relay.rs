use btk_cloud::cloud::Cloud;
use btk_cloud::metadata::CloudMetadata;
use btk_cloud::mutation::Mutation;
use btk_cloud::relay::parse_cloud_id;
use btk_cloud::relay::route;
use btk_cloud::relay::Method;
use btk_cloud::relay::Notice;
use btk_cloud::relay::BTKServer;
use btk_cloud::relay::Reply;
use btk_cloud::relay::Route;
use btk_cloud::transaction::JournalTransaction;
use btk_cloud::transaction::Operation;
use btk_cloud::wire::Action;
use btk_cloud::wire::Response;

fn sample_cloud(seed: u8) -> Cloud {
    Cloud::from_key_with([seed; 32], CloudMetadata::create(1, "relay".to_string()))
}

fn grown(seed: u8, len: u8) -> Cloud {
    let mut cloud = sample_cloud(seed);
    for i in 1..len {
        cloud.commit(vec![Operation::Insert { table: b"t".to_vec(), key: vec![i], value: vec![i] }]);
    }
    cloud
}

fn sealed(cloud: &Cloud, index: u64) -> Vec<u8> {
    let tx = cloud.db().journal_tx_by_index(index).unwrap();
    cloud.encrypt_tx(&tx).unwrap().to_bytes()
}

fn bare(status: u16) -> Reply {
    Reply { status, body: Vec::new(), notice: None }
}

fn count_body(count: u64) -> Vec<u8> {
    count.to_le_bytes().to_vec()
}

#[test]
fn routes_are_told_apart() {
    assert_eq!(route(Method::Get, "/state"), Route::State);
    assert_eq!(route(Method::Get, "/mutation"), Route::Mutation);
    assert_eq!(route(Method::Post, "/mutate"), Route::Mutate);
    assert_eq!(route(Method::Post, "/state"), Route::Unknown);
    assert_eq!(route(Method::Get, "/mutate"), Route::Unknown);
    assert_eq!(route(Method::Other, "/state"), Route::Unknown);
    assert_eq!(route(Method::Get, "/"), Route::Unknown);
    assert_eq!(route(Method::Get, "/state/"), Route::Unknown);
}

#[test]
fn cloud_identifier_is_sixty_four_hex_digits() {
    assert_eq!(parse_cloud_id(Some(&"0a".repeat(32))), Some([0x0a; 32]));
    assert_eq!(parse_cloud_id(Some(&"Ff".repeat(32))), Some([0xff; 32]));
    let mixed = format!("{}{}", "01".repeat(31), "fE");
    let mut expected = [1u8; 32];
    expected[31] = 0xfe;
    assert_eq!(parse_cloud_id(Some(&mixed)), Some(expected));
    assert_eq!(parse_cloud_id(None), None);
    assert_eq!(parse_cloud_id(Some("")), None);
    assert_eq!(parse_cloud_id(Some(&"0a".repeat(31))), None);
    assert_eq!(parse_cloud_id(Some(&"0a".repeat(33))), None);
    assert_eq!(parse_cloud_id(Some(&format!("{}0", "0a".repeat(31)))), None);
    assert_eq!(parse_cloud_id(Some(&"0g".repeat(32))), None);
    assert_eq!(parse_cloud_id(Some(&"é".repeat(32))), None);
}

#[test]
fn state_counts_what_is_stored() {
    let cloud = grown(1, 2);
    let id = cloud.id_hex();
    let mut relay = BTKServer::new();
    assert_eq!(relay.mutation_count(cloud.id()), 0);
    assert_eq!(
        relay.handle_state(Some(&id)),
        Reply { status: 200, body: count_body(0), notice: None }
    );
    assert_eq!(relay.handle_mutate(&sealed(&cloud, 0)).status, 204);
    assert_eq!(relay.handle_mutate(&sealed(&cloud, 1)).status, 204);
    assert_eq!(relay.mutation_count(cloud.id()), 2);
    assert_eq!(
        relay.handle_state(Some(&id)),
        Reply { status: 200, body: vec![2, 0, 0, 0, 0, 0, 0, 0], notice: None }
    );
    assert_eq!(relay.handle_state(Some(&id.to_uppercase())).body, count_body(2));
    assert_eq!(relay.handle_state(None), bare(400));
    assert_eq!(relay.handle_state(Some("zz")), bare(400));
    assert_eq!(relay.handle_state(Some(&id[..62])), bare(400));
    assert_eq!(relay.handle_state(Some(&"00".repeat(32))).body, count_body(0));
}

#[test]
fn stored_mutations_come_back_as_they_were_sent() {
    let cloud = grown(1, 3);
    let id = cloud.id_hex();
    let mut relay = BTKServer::new();
    let blobs: Vec<Vec<u8>> = (0..3).map(|i| sealed(&cloud, i)).collect();
    for blob in &blobs {
        assert_eq!(relay.handle_mutate(blob).status, 204);
    }
    for (i, blob) in blobs.iter().enumerate() {
        let reply = relay.handle_get_mutation(Some(&id), Some(&i.to_string()));
        assert_eq!(reply, Reply { status: 200, body: blob.clone(), notice: None });
        let mutation = Mutation::from_bytes(&reply.body).unwrap();
        assert_eq!(mutation.index, i as u64);
        let (tx, index) = cloud.decrypt_tx(mutation).unwrap();
        assert_eq!(index, i as u64);
        assert_eq!(Some(tx), cloud.db().journal_tx_by_index(i as u64));
    }
    assert_eq!(relay.handle_get_mutation(Some(&id), Some("3")), bare(404));
    assert_eq!(relay.handle_get_mutation(Some(&id), Some("18446744073709551615")), bare(404));
    assert_eq!(relay.handle_get_mutation(Some(&"11".repeat(32)), Some("0")), bare(404));
    assert_eq!(relay.handle_get_mutation(Some(&id), None), bare(400));
    assert_eq!(relay.handle_get_mutation(Some(&id), Some("")), bare(400));
    assert_eq!(relay.handle_get_mutation(Some(&id), Some("x")), bare(400));
    assert_eq!(relay.handle_get_mutation(Some(&id), Some("18446744073709551616")), bare(400));
    assert_eq!(relay.handle_get_mutation(None, Some("0")), bare(400));
    assert_eq!(relay.handle_get_mutation(Some("abc"), Some("0")), bare(400));
}

#[test]
fn relay_takes_exactly_one_mutation_per_index() {
    let cloud = grown(1, 3);
    let mut relay = BTKServer::new();

    let keyed = |index: u64| {
        let tx = cloud.db().journal_tx_by_index(index).unwrap();
        let sealed = cloud.encrypt_tx(&tx).unwrap();
        let first = cloud.encrypt_tx(&cloud.db().journal_tx_by_index(0).unwrap()).unwrap();
        Mutation { public_key: first.public_key, ..sealed }.to_bytes()
    };
    assert_eq!(relay.handle_mutate(&keyed(1)), bare(410));
    assert_eq!(relay.handle_mutate(&keyed(2)), bare(410));
    assert_eq!(relay.mutation_count(cloud.id()), 0);

    let first = sealed(&cloud, 0);
    assert_eq!(
        relay.handle_mutate(&first),
        Reply {
            status: 204,
            body: Vec::new(),
            notice: Some(Notice { cloud_id: *cloud.id(), count: 1 }),
        }
    );
    assert_eq!(
        Notice { cloud_id: *cloud.id(), count: 1 }.response(),
        Response::CloudMutated(1, None)
    );
    assert_eq!(relay.handle_mutate(&first), bare(410));
    assert_eq!(relay.handle_mutate(&sealed(&cloud, 0)), bare(410));
    assert_eq!(relay.handle_mutate(&sealed(&cloud, 2)), bare(410));
    assert_eq!(relay.mutation_count(cloud.id()), 1);

    let second = sealed(&cloud, 1);
    assert_eq!(relay.handle_mutate(&second).notice, Some(Notice { cloud_id: *cloud.id(), count: 2 }));
    assert_eq!(relay.handle_mutate(&sealed(&cloud, 1)), bare(410));
    assert_eq!(relay.mutation_count(cloud.id()), 2);
    let id = cloud.id_hex();
    assert_eq!(relay.handle_get_mutation(Some(&id), Some("0")).body, first);
    assert_eq!(relay.handle_get_mutation(Some(&id), Some("1")).body, second);
}

#[test]
fn out_of_order_post_is_stale_until_the_gap_is_filled() {
    let cloud = grown(1, 8);
    let mut relay = BTKServer::new();
    for i in 0..5 {
        assert_eq!(relay.handle_mutate(&sealed(&cloud, i)).status, 204);
    }
    assert_eq!(relay.mutation_count(cloud.id()), 5);
    let ahead = sealed(&cloud, 7);
    assert_eq!(relay.handle_mutate(&ahead), bare(410));
    assert_eq!(relay.mutation_count(cloud.id()), 5);
    assert_eq!(relay.handle_mutate(&sealed(&cloud, 5)).status, 204);
    assert_eq!(relay.handle_mutate(&sealed(&cloud, 6)).status, 204);
    assert_eq!(relay.handle_mutate(&ahead).status, 204);
    assert_eq!(relay.mutation_count(cloud.id()), 8);
}

#[test]
fn malformed_and_keyless_mutations_are_refused() {
    let cloud = grown(1, 2);
    let mut relay = BTKServer::new();
    assert_eq!(relay.handle_mutate(&[]), bare(400));
    assert_eq!(relay.handle_mutate(&[1, 2, 3]), bare(400));
    let first = sealed(&cloud, 0);
    assert_eq!(relay.handle_mutate(&first[..first.len() - 1]), bare(400));

    let keyless = Mutation { public_key: None, ..Mutation::from_bytes(&first).unwrap() };
    assert_eq!(relay.handle_mutate(&keyless.to_bytes()), bare(400));
    assert_eq!(relay.handle_mutate(&sealed(&cloud, 1)), bare(400));
    assert_eq!(relay.mutation_count(cloud.id()), 0);

    assert_eq!(relay.handle_mutate(&first).status, 204);
    assert_eq!(relay.handle_mutate(&keyless.to_bytes()), bare(401));
    assert_eq!(relay.handle_mutate(&sealed(&cloud, 1)).status, 204);
    assert_eq!(relay.mutation_count(cloud.id()), 2);
}

#[test]
fn tampered_mutations_are_unauthorized() {
    let cloud = grown(1, 2);
    let stranger = grown(2, 2);
    let mut relay = BTKServer::new();
    let first = Mutation::from_bytes(&sealed(&cloud, 0)).unwrap();

    let mut flipped = first.clone();
    flipped.data[0] ^= 1;
    assert_eq!(relay.handle_mutate(&flipped.to_bytes()), bare(401));

    let relabelled = Mutation { public_key_hash: *stranger.id(), ..first.clone() };
    assert_eq!(relay.handle_mutate(&relabelled.to_bytes()), bare(401));

    let foreign_key = Mutation {
        public_key: Mutation::from_bytes(&sealed(&stranger, 0)).unwrap().public_key,
        ..first.clone()
    };
    assert_eq!(relay.handle_mutate(&foreign_key.to_bytes()), bare(401));
    assert_eq!(relay.mutation_count(cloud.id()), 0);

    assert_eq!(relay.handle_mutate(&first.to_bytes()).status, 204);
    let mut second = Mutation::from_bytes(&sealed(&cloud, 1)).unwrap();
    second.data[3] ^= 0x10;
    assert_eq!(relay.handle_mutate(&second.to_bytes()), bare(401));
    let forged = Mutation {
        public_key_hash: *cloud.id(),
        ..Mutation::from_bytes(&sealed(&stranger, 1)).unwrap()
    };
    assert_eq!(relay.handle_mutate(&forged.to_bytes()), bare(401));
    assert_eq!(relay.mutation_count(cloud.id()), 1);
}

#[test]
fn clouds_do_not_touch_each_other() {
    let one = grown(1, 2);
    let two = grown(2, 3);
    let mut relay = BTKServer::new();
    assert_eq!(relay.handle_mutate(&sealed(&one, 0)).status, 204);
    assert_eq!(relay.handle_mutate(&sealed(&two, 0)).status, 204);
    assert_eq!(relay.handle_mutate(&sealed(&two, 1)).status, 204);
    assert_eq!(relay.mutation_count(one.id()), 1);
    assert_eq!(relay.mutation_count(two.id()), 2);
    assert_eq!(relay.handle_mutate(&sealed(&one, 1)).status, 204);
    assert_eq!(relay.handle_mutate(&sealed(&two, 2)).status, 204);
    assert_eq!(relay.mutation_count(one.id()), 2);
    assert_eq!(relay.mutation_count(two.id()), 3);
    assert_eq!(relay.handle_get_mutation(Some(&one.id_hex()), Some("2")), bare(404));
    assert_eq!(relay.handle_get_mutation(Some(&two.id_hex()), Some("2")).status, 200);
}

#[test]
fn requests_are_answered_by_route() {
    let cloud = grown(1, 1);
    let id = cloud.id_hex();
    let mut relay = BTKServer::new();
    let first = sealed(&cloud, 0);
    assert_eq!(relay.handle_req(Method::Post, "/mutate", None, None, &first).status, 204);
    assert_eq!(relay.handle_req(Method::Post, "/mutate", None, None, &first).status, 410);
    assert_eq!(relay.handle_req(Method::Get, "/state", Some(&id), None, &[]).body, count_body(1));
    assert_eq!(relay.handle_req(Method::Get, "/state", None, None, &[]), bare(400));
    assert_eq!(relay.handle_req(Method::Get, "/mutation", Some(&id), Some("0"), &[]).body, first);
    assert_eq!(relay.handle_req(Method::Get, "/mutation", Some(&id), Some("1"), &[]), bare(404));
    assert_eq!(relay.handle_req(Method::Get, "/mutate", Some(&id), None, &first), bare(404));
    assert_eq!(relay.handle_req(Method::Post, "/state", Some(&id), None, &[]), bare(404));
    assert_eq!(relay.handle_req(Method::Other, "/mutate", None, None, &first), bare(404));
    assert_eq!(relay.handle_req(Method::Get, "/nowhere", None, None, &[]), bare(404));
    assert_eq!(relay.mutation_count(cloud.id()), 1);
}

#[test]
fn later_mutation_may_carry_the_key_again() {
    let cloud = grown(1, 2);
    let mut relay = BTKServer::new();
    let first = Mutation::from_bytes(&sealed(&cloud, 0)).unwrap();
    assert_eq!(relay.handle_mutate(&first.to_bytes()).status, 204);
    let second = Mutation {
        public_key: first.public_key.clone(),
        ..Mutation::from_bytes(&sealed(&cloud, 1)).unwrap()
    };
    assert_eq!(relay.handle_mutate(&second.to_bytes()).status, 204);
    let tx = JournalTransaction { index: 2, operations: vec![], last_tx_hash: [0; 32] };
    let third = cloud.encrypt_tx(&tx).unwrap();
    assert_eq!(relay.handle_mutate(&third.to_bytes()).status, 204);
    assert_eq!(relay.mutation_count(cloud.id()), 3);
}

#[test]
fn only_a_ping_is_answered_on_the_channel() {
    let relay = BTKServer::new();
    assert_eq!(relay.handle_action(&Action::Ping), Some(Response::Pong));
    assert_eq!(relay.handle_action(&Action::GetMutation(0)), None);
    assert_eq!(relay.handle_action(&Action::AuthCloud([0; 32], vec![])), None);
    let cloud = grown(1, 1);
    let mutation = Mutation::from_bytes(&sealed(&cloud, 0)).unwrap();
    assert_eq!(relay.handle_action(&Action::MutateCloud(mutation)), None);
    assert_eq!(relay.mutation_count(cloud.id()), 0);
}

#[test]
fn public_key_is_kept_from_the_first_mutation() {
    let cloud = grown(1, 2);
    let mut relay = BTKServer::new();
    assert_eq!(relay.get_public_key(cloud.id()), None);
    let first = Mutation::from_bytes(&sealed(&cloud, 0)).unwrap();
    assert_eq!(relay.handle_mutate(&first.to_bytes()).status, 204);
    assert_eq!(relay.get_public_key(cloud.id()), first.public_key);
    assert_eq!(relay.handle_mutate(&sealed(&cloud, 1)).status, 204);
    assert_eq!(relay.get_public_key(cloud.id()), first.public_key);
    assert_eq!(relay.get_public_key(&[0; 32]), None);
}
