use shard_state::decimal::{put_decimal, read_decimal};
use shard_state::dump_progress::EpochId;
use shard_state::hash::hash;
use shard_state::part_names::{
    external_storage_location, external_storage_location_directory,
    extract_part_id_from_part_file_name, get_missing_part_ids_for_epoch,
    get_num_parts_from_filename, get_part_id_from_filename, is_part_filename, parse_part_filename,
    part_filename,
};

fn names(list: &[&str]) -> Vec<Vec<u8>> {
    list.iter().map(|name| name.as_bytes().to_vec()).collect()
}

#[test]
fn numbers_in_decimal() {
    for (number, digits) in
        [(0u64, "0"), (7, "7"), (10, "10"), (909, "909"), (u64::MAX, "18446744073709551615")]
    {
        let mut out = b"x".to_vec();
        put_decimal(&mut out, number);
        assert_eq!(out, format!("x{}", digits).into_bytes());
        assert_eq!(read_decimal(&out, 1), (out.len(), Some(number)));
    }
    assert_eq!(read_decimal(b"12ab", 0), (2, Some(12)));
    assert_eq!(read_decimal(b"12ab", 2), (2, Some(0)));
    assert_eq!(read_decimal(b"12ab", 4), (4, Some(0)));
    assert_eq!(read_decimal(b"007", 0), (3, Some(7)));
    assert_eq!(read_decimal(b"18446744073709551616", 0), (20, None));
    assert_eq!(read_decimal(b"99999999999999999999999/", 0), (23, None));
    assert_eq!(read_decimal(b"/0:", 0), (0, Some(0)));
}

#[test]
fn part_file_names() {
    assert_eq!(part_filename(0, 3), b"state_part_0_of_3".to_vec());
    assert_eq!(part_filename(12, 345), b"state_part_12_of_345".to_vec());
    assert_eq!(
        part_filename(u64::MAX, u64::MAX),
        b"state_part_18446744073709551615_of_18446744073709551615".to_vec()
    );
}

#[test]
fn part_file_names_are_read_back() {
    for (part_id, num_parts) in [(0u64, 1u64), (1, 3), (9, 10), (10, 11), (123_456, 999_999), (u64::MAX, u64::MAX)] {
        let name = part_filename(part_id, num_parts);
        assert!(is_part_filename(&name));
        assert_eq!(parse_part_filename(&name), Some((part_id, num_parts)));
        assert_eq!(get_part_id_from_filename(&name), Some(part_id));
        assert_eq!(get_num_parts_from_filename(&name), Some(num_parts));
        assert_eq!(extract_part_id_from_part_file_name(&name), part_id);
    }
}

#[test]
fn leading_zeros_are_read() {
    assert_eq!(parse_part_filename(b"state_part_000001_of_000003"), Some((1, 3)));
    assert_eq!(get_part_id_from_filename(b"state_part_000000_of_000100"), Some(0));
}

#[test]
fn other_names_are_no_part_names() {
    for name in [
        "",
        "state_part_",
        "state_part_1",
        "state_part_1_of_",
        "state_part__of_3",
        "state_part_1_of_3 ",
        " state_part_1_of_3",
        "state_part_1_of_3.tmp",
        "state_part_1_of3",
        "state_part_1of_3",
        "state_part_-1_of_3",
        "state_part_1_of_x",
        "state_part_a_of_3",
        "state_Part_1_of_3",
        "state_part_1_of_3_of_4",
        "state_part_18446744073709551616_of_3",
        "state_part_1_of_18446744073709551616",
        "part_1_of_3",
    ] {
        assert!(!is_part_filename(name.as_bytes()), "{}", name);
        assert_eq!(get_part_id_from_filename(name.as_bytes()), None);
        assert_eq!(get_num_parts_from_filename(name.as_bytes()), None);
    }
}

#[test]
fn locations() {
    let epoch_id = EpochId(hash(b"epoch"));
    assert_eq!(
        external_storage_location_directory(b"unittest", &epoch_id, 3, 0),
        b"unittest/epoch_height=3/shard_id=0".to_vec()
    );
    assert_eq!(
        external_storage_location(b"unittest", &epoch_id, 3, 0, 2, 3),
        b"unittest/epoch_height=3/shard_id=0/state_part_2_of_3".to_vec()
    );
    assert_eq!(
        external_storage_location(b"mainnet", &epoch_id, 1234, 15, 100, 2048),
        b"mainnet/epoch_height=1234/shard_id=15/state_part_100_of_2048".to_vec()
    );
    assert_eq!(
        external_storage_location_directory(b"", &epoch_id, 0, u64::MAX),
        b"/epoch_height=0/shard_id=18446744073709551615".to_vec()
    );
}

#[test]
fn location_ends_in_the_name_of_the_part() {
    let epoch_id = EpochId(hash(b"epoch"));
    let path = external_storage_location(b"chain/with/slashes", &epoch_id, 9, 4, 17, 30);
    let directory = external_storage_location_directory(b"chain/with/slashes", &epoch_id, 9, 4);
    let cut = path.iter().rposition(|byte| *byte == b'/').unwrap();
    assert_eq!(&path[..cut], &directory[..]);
    assert_eq!(get_part_id_from_filename(&path[cut + 1..]), Some(17));
}

#[test]
fn missing_parts_are_those_not_listed() {
    assert_eq!(get_missing_part_ids_for_epoch(3, &names(&[])), vec![0, 1, 2]);
    assert_eq!(get_missing_part_ids_for_epoch(0, &names(&[])), Vec::<u64>::new());
    assert_eq!(
        get_missing_part_ids_for_epoch(5, &names(&["state_part_3_of_5", "state_part_0_of_5"])),
        vec![1, 2, 4]
    );
    assert_eq!(
        get_missing_part_ids_for_epoch(
            3,
            &names(&["state_part_2_of_3", "state_part_1_of_3", "state_part_0_of_3"])
        ),
        Vec::<u64>::new()
    );
    assert_eq!(
        get_missing_part_ids_for_epoch(
            3,
            &names(&["state_part_1_of_3", "state_part_1_of_3", "state_part_000001_of_9", "state_part_7_of_3"])
        ),
        vec![0, 2]
    );
}
