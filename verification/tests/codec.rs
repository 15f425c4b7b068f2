use btk_cloud::codec::bytes_eq;
use btk_cloud::codec::get_bytes;
use btk_cloud::codec::get_opt_bytes;
use btk_cloud::codec::get_raw;
use btk_cloud::codec::get_u64;
use btk_cloud::codec::put_bytes;
use btk_cloud::codec::put_opt_bytes;
use btk_cloud::codec::put_raw;
use btk_cloud::codec::put_u64;
use btk_cloud::codec::to_array32;
use btk_cloud::metadata::bounded_name;
use btk_cloud::metadata::CloudMetadata;
use btk_cloud::metadata::FRESH_NAME_LIMIT;
use btk_cloud::mutation::Mutation;
use btk_cloud::text::bytes_leq;
use btk_cloud::text::parse_decimal;
use btk_cloud::text::same_text;
use btk_cloud::transaction::JournalTransaction;
use btk_cloud::transaction::Operation;
use btk_cloud::wire::Action;
use btk_cloud::wire::MutationMetadata;
use btk_cloud::wire::Response;

fn prefixed(bytes: &[u8]) -> Vec<u8> {
    let mut out = (bytes.len() as u64).to_le_bytes().to_vec();
    out.extend_from_slice(bytes);
    out
}

fn sample_mutation() -> Mutation {
    Mutation {
        index: 3,
        data: vec![0xaa, 0xbb],
        signature: vec![0x01],
        public_key_hash: [0x11; 32],
        public_key: Some(vec![0x22, 0x23, 0x24]),
        salt: [0x33; 32],
        mutation_key: None,
    }
}

fn sample_mutation_bytes() -> Vec<u8> {
    let mut expected = vec![3, 0, 0, 0, 0, 0, 0, 0];
    expected.extend_from_slice(&[2, 0, 0, 0, 0, 0, 0, 0, 0xaa, 0xbb]);
    expected.extend_from_slice(&[1, 0, 0, 0, 0, 0, 0, 0, 0x01]);
    expected.extend_from_slice(&[0x11; 32]);
    expected.extend_from_slice(&[1, 3, 0, 0, 0, 0, 0, 0, 0, 0x22, 0x23, 0x24]);
    expected.extend_from_slice(&[0x33; 32]);
    expected.push(0);
    expected
}

#[test]
fn u64_is_written_little_endian() {
    let mut out = vec![9u8];
    put_u64(&mut out, 0x0102030405060708);
    assert_eq!(out, vec![9, 8, 7, 6, 5, 4, 3, 2, 1]);
    assert_eq!(get_u64(&out, 1), Some((0x0102030405060708, 9)));
    assert_eq!(get_u64(&out, 2), None);
    assert_eq!(get_u64(&out, 100), None);
    let mut max = Vec::new();
    put_u64(&mut max, u64::MAX);
    assert_eq!(max, vec![0xff; 8]);
}

#[test]
fn byte_strings_carry_their_length() {
    let mut out = Vec::new();
    put_bytes(&mut out, b"ab");
    assert_eq!(out, vec![2, 0, 0, 0, 0, 0, 0, 0, 97, 98]);
    assert_eq!(get_bytes(&out, 0), Some((b"ab".to_vec(), 10)));
    let mut empty = Vec::new();
    put_bytes(&mut empty, b"");
    assert_eq!(empty, vec![0; 8]);
    assert_eq!(get_bytes(&empty, 0), Some((Vec::new(), 8)));
    let too_short = vec![3, 0, 0, 0, 0, 0, 0, 0, 1, 2];
    assert_eq!(get_bytes(&too_short, 0), None);
    let huge = vec![0xff; 8];
    assert_eq!(get_bytes(&huge, 0), None);
}

#[test]
fn raw_bytes_are_written_as_they_are() {
    let mut out = vec![1u8];
    put_raw(&mut out, &[2, 3]);
    assert_eq!(out, vec![1, 2, 3]);
    assert_eq!(get_raw(&out, 1, 2), Some((vec![2, 3], 3)));
    assert_eq!(get_raw(&out, 1, 3), None);
    assert_eq!(get_raw(&out, 3, 0), Some((Vec::new(), 3)));
    assert_eq!(get_raw(&out, 4, 0), None);
}

#[test]
fn optional_byte_strings_have_a_tag() {
    let mut none = Vec::new();
    put_opt_bytes(&mut none, &None);
    assert_eq!(none, vec![0]);
    assert_eq!(get_opt_bytes(&none, 0), Some((None, 1)));
    let mut some = Vec::new();
    put_opt_bytes(&mut some, &Some(vec![7]));
    assert_eq!(some, vec![1, 1, 0, 0, 0, 0, 0, 0, 0, 7]);
    assert_eq!(get_opt_bytes(&some, 0), Some((Some(vec![7]), 10)));
    assert_eq!(get_opt_bytes(&[2], 0), None);
    assert_eq!(get_opt_bytes(&[], 0), None);
    assert_eq!(get_opt_bytes(&[1, 1], 0), None);
}

#[test]
fn helpers_copy_and_compare() {
    let bytes: Vec<u8> = (0..32).collect();
    let array = to_array32(&bytes);
    assert_eq!(array.to_vec(), bytes);
    assert!(bytes_eq(&array, &bytes));
    assert!(!bytes_eq(&array, &bytes[..31]));
    let mut other = bytes.clone();
    other[31] = 0;
    assert!(!bytes_eq(&array, &other));
    assert!(bytes_eq(&[], &[]));
}

#[test]
fn transaction_wire_form_is_exact() {
    let tx = JournalTransaction {
        index: 1,
        operations: vec![
            Operation::Remove { table: b"t".to_vec(), key: b"k".to_vec() },
            Operation::Insert { table: b"t".to_vec(), key: b"k".to_vec(), value: b"vw".to_vec() },
            Operation::DeleteTable { table: b"".to_vec() },
        ],
        last_tx_hash: [7; 32],
    };
    let mut expected = vec![1, 0, 0, 0, 0, 0, 0, 0, 3, 0, 0, 0, 0, 0, 0, 0];
    expected.push(1);
    expected.extend(prefixed(b"t"));
    expected.extend(prefixed(b"k"));
    expected.push(0);
    expected.extend(prefixed(b"t"));
    expected.extend(prefixed(b"k"));
    expected.extend(prefixed(b"vw"));
    expected.push(2);
    expected.extend(prefixed(b""));
    expected.extend_from_slice(&[7; 32]);
    assert_eq!(tx.to_bytes(), expected);
    assert_eq!(JournalTransaction::from_bytes(&expected), Some(tx.clone()));
    assert_eq!(tx.duplicate(), tx);
    assert_eq!(tx.hash(), *blake3::hash(&expected).as_bytes());
}

#[test]
fn transaction_decoding_refuses_what_is_no_transaction() {
    let tx = JournalTransaction { index: 0, operations: vec![], last_tx_hash: [0; 32] };
    let bytes = tx.to_bytes();
    assert_eq!(bytes.len(), 48);
    assert_eq!(JournalTransaction::from_bytes(&bytes), Some(tx));
    assert_eq!(JournalTransaction::from_bytes(&bytes[..47]), None);
    let mut longer = bytes.clone();
    longer.push(0);
    assert_eq!(JournalTransaction::from_bytes(&longer), None);
    let mut bad_count = bytes.clone();
    bad_count[8] = 1;
    assert_eq!(JournalTransaction::from_bytes(&bad_count), None);
    let mut bad_tag = vec![0, 0, 0, 0, 0, 0, 0, 0, 1, 0, 0, 0, 0, 0, 0, 0, 3];
    bad_tag.extend(prefixed(b"t"));
    bad_tag.extend_from_slice(&[0; 32]);
    assert_eq!(JournalTransaction::from_bytes(&bad_tag), None);
    assert_eq!(JournalTransaction::from_bytes(&[]), None);
}

#[test]
fn mutation_wire_form_is_exact() {
    let mutation = sample_mutation();
    let expected = sample_mutation_bytes();
    assert_eq!(mutation.to_bytes(), expected);
    assert_eq!(Mutation::from_bytes(&expected), Some(mutation.clone()));

    let disclosed = Mutation { public_key: None, mutation_key: Some([0x44; 32]), ..mutation };
    let bytes = disclosed.to_bytes();
    assert_eq!(bytes.len(), 8 + 10 + 9 + 32 + 1 + 32 + 1 + 32);
    assert_eq!(bytes[59], 0);
    assert_eq!(bytes[92], 1);
    assert_eq!(&bytes[93..], &[0x44; 32]);
    assert_eq!(Mutation::from_bytes(&bytes), Some(disclosed));
}

#[test]
fn mutation_decoding_refuses_what_is_no_mutation() {
    let bytes = sample_mutation_bytes();
    for cut in 0..bytes.len() {
        assert_eq!(Mutation::from_bytes(&bytes[..cut]), None);
    }
    let mut bad_tag = bytes.clone();
    let last = bad_tag.len() - 1;
    bad_tag[last] = 2;
    assert_eq!(Mutation::from_bytes(&bad_tag), None);
    let mut trailing = bytes.clone();
    trailing.push(0);
    assert_eq!(Mutation::from_bytes(&trailing), None);
}

#[test]
fn mutation_metadata_leaves_out_salt_and_key() {
    let mutation = sample_mutation();
    let resalted = Mutation { salt: [0x55; 32], mutation_key: Some([1; 32]), ..mutation.clone() };
    assert_ne!(mutation, resalted);
    assert_eq!(MutationMetadata::of(&mutation), MutationMetadata::of(&resalted));
    let other = Mutation { index: 4, ..mutation.clone() };
    assert_ne!(MutationMetadata::of(&other), MutationMetadata::of(&mutation));
    let resigned = Mutation { signature: vec![0x02], ..mutation.clone() };
    assert_ne!(MutationMetadata::of(&resigned), MutationMetadata::of(&mutation));
}

#[test]
fn metadata_stored_form_is_exact() {
    let metadata = CloudMetadata {
        created_at: 5,
        name: "né".to_string(),
        description: String::new(),
        remote_url: Some("x".to_string()),
    };
    let mut expected = vec![5, 0, 0, 0, 0, 0, 0, 0];
    expected.extend(prefixed("né".as_bytes()));
    expected.extend(prefixed(b""));
    expected.push(1);
    expected.extend(prefixed(b"x"));
    assert_eq!(metadata.to_bytes(), expected);
    assert_eq!(CloudMetadata::from_bytes(&expected), Some(metadata.clone()));
    assert_eq!(metadata.duplicate(), metadata);

    let plain = CloudMetadata::create(9, "plain".to_string());
    assert_eq!(plain.created_at, 9);
    assert_eq!(plain.name, "plain");
    assert_eq!(plain.description, "");
    assert_eq!(plain.remote_url, None);
    let bytes = plain.to_bytes();
    assert_eq!(*bytes.last().unwrap(), 0);
    assert_eq!(CloudMetadata::from_bytes(&bytes), Some(plain));
}

#[test]
fn metadata_decoding_refuses_bad_text_and_bad_framing() {
    let mut bad_name = vec![5, 0, 0, 0, 0, 0, 0, 0];
    bad_name.extend(prefixed(&[0xff, 0xfe]));
    bad_name.extend(prefixed(b""));
    bad_name.push(0);
    assert_eq!(CloudMetadata::from_bytes(&bad_name), None);
    let mut bad_url = vec![5, 0, 0, 0, 0, 0, 0, 0];
    bad_url.extend(prefixed(b"n"));
    bad_url.extend(prefixed(b""));
    bad_url.push(1);
    bad_url.extend(prefixed(&[0xc3]));
    assert_eq!(CloudMetadata::from_bytes(&bad_url), None);
    let good = CloudMetadata::create(1, "n".to_string()).to_bytes();
    assert_eq!(CloudMetadata::from_bytes(&good[..good.len() - 1]), None);
    let mut trailing = good.clone();
    trailing.push(0);
    assert_eq!(CloudMetadata::from_bytes(&trailing), None);
}

#[test]
fn fresh_metadata_is_made_now_under_some_name() {
    let fresh = CloudMetadata::fresh();
    assert!(fresh.created_at > 1_700_000_000);
    assert!(!fresh.name.is_empty());
    assert_eq!(fresh.description, "");
    assert_eq!(fresh.remote_url, None);
    assert!(fresh.name.len() <= FRESH_NAME_LIMIT);
}

#[test]
fn generated_name_is_held_to_its_limit() {
    assert_eq!(FRESH_NAME_LIMIT, 255);
    assert_eq!(bounded_name(String::new()), "");
    assert_eq!(bounded_name("silent-river".to_string()), "silent-river");
    assert_eq!(bounded_name("a".repeat(255)), "a".repeat(255));
    assert_eq!(bounded_name("a".repeat(256)), "");
    assert_eq!(bounded_name("é".repeat(127)), "é".repeat(127));
    assert_eq!(bounded_name("é".repeat(128)), "");
}

#[test]
fn action_frames_are_exact() {
    assert_eq!(Action::Ping.to_bytes(), vec![3]);
    assert_eq!(Action::GetMutation(5).to_bytes(), vec![2, 5, 0, 0, 0, 0, 0, 0, 0]);
    let mut auth = vec![1];
    auth.extend_from_slice(&[9; 32]);
    auth.extend(prefixed(&[1, 2]));
    assert_eq!(Action::AuthCloud([9; 32], vec![1, 2]).to_bytes(), auth);
    let mut mutate = vec![0];
    mutate.extend(sample_mutation_bytes());
    assert_eq!(Action::MutateCloud(sample_mutation()).to_bytes(), mutate);

    assert_eq!(Action::from_bytes(&[3]), Some(Action::Ping));
    assert_eq!(Action::from_bytes(&[2, 5, 0, 0, 0, 0, 0, 0, 0]), Some(Action::GetMutation(5)));
    assert_eq!(Action::from_bytes(&auth), Some(Action::AuthCloud([9; 32], vec![1, 2])));
    assert_eq!(Action::from_bytes(&mutate), Some(Action::MutateCloud(sample_mutation())));
    assert_eq!(Action::from_bytes(&[]), None);
    assert_eq!(Action::from_bytes(&[4]), None);
    assert_eq!(Action::from_bytes(&[3, 0]), None);
    assert_eq!(Action::from_bytes(&[2, 5, 0, 0]), None);
    assert_eq!(Action::from_bytes(&mutate[..mutate.len() - 1]), None);
}

#[test]
fn response_frames_are_exact() {
    assert_eq!(Response::Pong.to_bytes(), vec![3]);
    assert_eq!(Response::Authenticated(2).to_bytes(), vec![0, 2, 0, 0, 0, 0, 0, 0, 0]);
    assert_eq!(Response::CloudMutated(3, None).to_bytes(), vec![1, 3, 0, 0, 0, 0, 0, 0, 0, 0]);
    let mut hinted = vec![1, 3, 0, 0, 0, 0, 0, 0, 0, 1];
    hinted.extend_from_slice(&[8; 32]);
    assert_eq!(Response::CloudMutated(3, Some([8; 32])).to_bytes(), hinted);
    let mut stored = vec![2];
    stored.extend(sample_mutation_bytes());
    assert_eq!(Response::CloudMutation(sample_mutation()).to_bytes(), stored);

    assert_eq!(Response::from_bytes(&[3]), Some(Response::Pong));
    assert_eq!(Response::from_bytes(&hinted), Some(Response::CloudMutated(3, Some([8; 32]))));
    assert_eq!(
        Response::from_bytes(&[1, 3, 0, 0, 0, 0, 0, 0, 0, 0]),
        Some(Response::CloudMutated(3, None))
    );
    assert_eq!(Response::from_bytes(&[0, 2, 0, 0, 0, 0, 0, 0, 0]), Some(Response::Authenticated(2)));
    assert_eq!(Response::from_bytes(&stored), Some(Response::CloudMutation(sample_mutation())));
    assert_eq!(Response::from_bytes(&[1, 3, 0, 0, 0, 0, 0, 0, 0, 2]), None);
    assert_eq!(Response::from_bytes(&[1, 3, 0, 0, 0, 0, 0, 0, 0]), None);
    assert_eq!(Response::from_bytes(&hinted[..hinted.len() - 1]), None);
    assert_eq!(Response::from_bytes(&[9]), None);
    assert_eq!(Response::from_bytes(&[]), None);
}

#[test]
fn decimal_numbers_are_read_strictly() {
    assert_eq!(parse_decimal("0"), Some(0));
    assert_eq!(parse_decimal("7"), Some(7));
    assert_eq!(parse_decimal("007"), Some(7));
    assert_eq!(parse_decimal("1234567890"), Some(1234567890));
    assert_eq!(parse_decimal("18446744073709551615"), Some(u64::MAX));
    assert_eq!(parse_decimal("18446744073709551616"), None);
    assert_eq!(parse_decimal("99999999999999999999"), None);
    assert_eq!(parse_decimal(""), None);
    assert_eq!(parse_decimal("+1"), None);
    assert_eq!(parse_decimal("-1"), None);
    assert_eq!(parse_decimal(" 1"), None);
    assert_eq!(parse_decimal("12a"), None);
    assert_eq!(parse_decimal("１"), None);
}

#[test]
fn texts_are_compared_by_content() {
    assert!(same_text("", ""));
    assert!(same_text("/state", "/state"));
    assert!(!same_text("/state", "/State"));
    assert!(!same_text("/state", "/stat"));
    assert!(same_text("é☁", "é☁"));
    assert!(!same_text("é", "e"));
}

#[test]
fn byte_strings_are_ordered_like_words() {
    assert!(bytes_leq(b"", b""));
    assert!(bytes_leq(b"", b"a"));
    assert!(!bytes_leq(b"a", b""));
    assert!(bytes_leq(b"a", b"a"));
    assert!(bytes_leq(b"a", b"ab"));
    assert!(!bytes_leq(b"ab", b"a"));
    assert!(bytes_leq(b"ab", b"b"));
    assert!(!bytes_leq(b"b", b"ab"));
    assert!(bytes_leq(b"Z", b"a"));
    assert!(bytes_leq(&[0x7f], &[0x80]));
    assert!(!bytes_leq(&[0xff], &[0x00, 0xff]));
    for (a, b) in [("x", "y"), ("same", "same"), ("é", "e"), ("", "0")] {
        assert_eq!(bytes_leq(a.as_bytes(), b.as_bytes()), a <= b);
        assert_eq!(bytes_leq(b.as_bytes(), a.as_bytes()), b <= a);
    }
}

#[test]
fn metadata_is_ordered_by_age_then_name() {
    let older = CloudMetadata::create(1, "z".to_string());
    let newer = CloudMetadata::create(2, "a".to_string());
    let twin = CloudMetadata::create(2, "b".to_string());
    assert!(older.comes_before(&newer));
    assert!(!newer.comes_before(&older));
    assert!(newer.comes_before(&twin));
    assert!(!twin.comes_before(&newer));
    assert!(newer.comes_before(&newer));
    let described = CloudMetadata { description: "x".to_string(), ..newer.clone() };
    assert!(described.comes_before(&newer));
    assert!(newer.comes_before(&described));
}
