use anime_player::disk_volume::{
    bus_type_implies_rotational, disk_numbers_from_extents, drive_letter_from_path,
    drive_letter_from_volume_key, drive_volume_path, first_known, normalize_volume_key,
    parse_media_type_answer, read_le_u32, rotational_cache_key, rotational_from_bus_type,
    rotational_from_rotation_rate, rotational_from_seek_penalty, stagger_from_classification,
    volume_key_from_system, volume_rotational_from_disks,
};

#[test]
fn normalize_volume_key_uppercases_drive() {
    assert_eq!(normalize_volume_key(r"s:\"), "S:/");
}

#[test]
fn drive_letter_from_extended_path() {
    assert_eq!(drive_letter_from_volume_key("//?/S:/"), Some('S'));
    assert_eq!(
        drive_letter_from_path(r"\\?\G:\Anime\file.mkv"),
        Some('G')
    );
}

#[test]
fn drive_letter_absent_without_colon_slash() {
    assert_eq!(drive_letter_from_volume_key("relative/path.mkv"), None);
    assert_eq!(drive_letter_from_volume_key(":/x"), None);
    assert_eq!(drive_letter_from_path("c:/anime"), Some('C'));
}

#[test]
fn volume_paths_and_keys() {
    assert_eq!(drive_volume_path(r"g:\Anime\x.mkv").as_deref(), Some("G:/"));
    assert_eq!(drive_volume_path(""), None);
    assert_eq!(drive_volume_path("no drive here"), None);
    assert_eq!(volume_key_from_system(r"\\?\Volume{ab}\").as_deref(), Some("//?/VOLUME{AB}/"));
    assert_eq!(volume_key_from_system(""), None);
    assert_eq!(rotational_cache_key("S:/"), "r4:S:/");
}

#[test]
fn little_endian_words() {
    let b = [0x78u8, 0x56, 0x34, 0x12, 0xff];
    assert_eq!(read_le_u32(&b, 0), 0x1234_5678);
    assert_eq!(read_le_u32(&b, 1), 0xff12_3456);
}

#[test]
fn bus_types() {
    assert_eq!(bus_type_implies_rotational(17), Some(false));
    assert_eq!(bus_type_implies_rotational(12), Some(false));
    assert_eq!(bus_type_implies_rotational(13), Some(false));
    assert_eq!(bus_type_implies_rotational(19), Some(false));
    assert_eq!(bus_type_implies_rotational(11), None);
}

#[test]
fn seek_penalty_descriptor() {
    let mut d = vec![0u8; 12];
    assert_eq!(rotational_from_seek_penalty(&d), Some(false));
    d[8] = 1;
    assert_eq!(rotational_from_seek_penalty(&d), Some(true));
    assert_eq!(rotational_from_seek_penalty(&d[..11]), None);
}

#[test]
fn rotation_rate_descriptor() {
    let mut d = vec![0u8; 16];
    assert_eq!(rotational_from_rotation_rate(&d[..15]), None);
    assert_eq!(rotational_from_rotation_rate(&d), Some(false));
    d[8] = 1;
    d[12..16].copy_from_slice(&7200u32.to_le_bytes());
    assert_eq!(rotational_from_rotation_rate(&d), Some(true));
    d[12..16].copy_from_slice(&1u32.to_le_bytes());
    assert_eq!(rotational_from_rotation_rate(&d), Some(false));
    d[12..16].copy_from_slice(&0xFFFF_FFFFu32.to_le_bytes());
    assert_eq!(rotational_from_rotation_rate(&d), None);
    d[12..16].copy_from_slice(&500u32.to_le_bytes());
    assert_eq!(rotational_from_rotation_rate(&d), None);
}

#[test]
fn bus_type_descriptor() {
    let mut d = vec![0u8; 33];
    d[28..32].copy_from_slice(&17u32.to_le_bytes());
    assert_eq!(rotational_from_bus_type(&d), Some(false));
    assert_eq!(rotational_from_bus_type(&d[..32]), None);
    d[28..32].copy_from_slice(&11u32.to_le_bytes());
    assert_eq!(rotational_from_bus_type(&d), None);
}

#[test]
fn first_known_prefers_seek_then_rate_then_bus() {
    assert_eq!(first_known(Some(true), Some(false), Some(false)), Some(true));
    assert_eq!(first_known(None, Some(false), Some(true)), Some(false));
    assert_eq!(first_known(None, None, Some(true)), Some(true));
    assert_eq!(first_known(None, None, None), None);
}

#[test]
fn disk_extents_are_read() {
    let mut data = vec![0u8; 8 + 2 * 24];
    data[0..4].copy_from_slice(&2u32.to_le_bytes());
    data[8..12].copy_from_slice(&3u32.to_le_bytes());
    data[32..36].copy_from_slice(&5u32.to_le_bytes());
    assert_eq!(disk_numbers_from_extents(&data), Some(vec![3, 5]));
    assert_eq!(disk_numbers_from_extents(&data[..50]), None);
    assert_eq!(disk_numbers_from_extents(&data[..4]), None);
}

#[test]
fn volume_rotation_from_its_disks() {
    assert_eq!(volume_rotational_from_disks(&[Some(false), Some(true)]), Some(true));
    assert_eq!(volume_rotational_from_disks(&[Some(false), Some(false)]), Some(false));
    assert_eq!(volume_rotational_from_disks(&[Some(false), None]), None);
}

#[test]
fn media_type_answers() {
    assert_eq!(parse_media_type_answer(" True\r\n"), Some(true));
    assert_eq!(parse_media_type_answer("false"), Some(false));
    assert_eq!(parse_media_type_answer("maybe"), None);
}

#[test]
fn unknown_classification_staggers() {
    assert!(stagger_from_classification(None));
    assert!(stagger_from_classification(Some(true)));
    assert!(!stagger_from_classification(Some(false)));
}
