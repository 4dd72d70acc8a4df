use ruxius::error::LauncherError;
use ruxius::icon::{build_group_icon_data, embed_icon, icon_resources, parse_ico, resource_ids};

/// A minimal but well-formed single-image `.ico` file, built by hand from
/// the format's field layout.
fn sample_ico_bytes() -> Vec<u8> {
    let image_data: Vec<u8> = vec![0xAA, 0xBB, 0xCC, 0xDD, 0x11, 0x22, 0x33, 0x44];
    let offset: u32 = 6 + 16;

    let mut bytes = Vec::new();
    bytes.extend_from_slice(&0u16.to_le_bytes());
    bytes.extend_from_slice(&1u16.to_le_bytes());
    bytes.extend_from_slice(&1u16.to_le_bytes());

    bytes.push(16);
    bytes.push(16);
    bytes.push(0);
    bytes.push(0);
    bytes.extend_from_slice(&1u16.to_le_bytes());
    bytes.extend_from_slice(&32u16.to_le_bytes());
    bytes.extend_from_slice(&(image_data.len() as u32).to_le_bytes());
    bytes.extend_from_slice(&offset.to_le_bytes());

    bytes.extend_from_slice(&image_data);
    bytes
}

#[test]
fn parses_minimal_valid_ico() {
    let bytes = sample_ico_bytes();
    let images = parse_ico(&bytes).expect("well-formed ICO should parse");

    assert_eq!(images.len(), 1);
    assert_eq!(images[0].width, 16);
    assert_eq!(images[0].height, 16);
    assert_eq!(images[0].color_count, 0);
    assert_eq!(images[0].planes, 1);
    assert_eq!(images[0].bit_count, 32);
    assert_eq!(images[0].data, vec![0xAA, 0xBB, 0xCC, 0xDD, 0x11, 0x22, 0x33, 0x44]);
}

#[test]
fn rejects_wrong_header() {
    let bytes = vec![1, 2, 3, 4, 5, 6];
    assert!(parse_ico(&bytes).is_err());
}

#[test]
fn rejects_empty_file() {
    assert!(parse_ico(&[]).is_err());
}

#[test]
fn rejects_zero_images() {
    let mut bytes = Vec::new();
    bytes.extend_from_slice(&0u16.to_le_bytes());
    bytes.extend_from_slice(&1u16.to_le_bytes());
    bytes.extend_from_slice(&0u16.to_le_bytes());
    assert!(parse_ico(&bytes).is_err());
}

#[test]
fn rejects_truncated_directory_table() {
    let mut bytes = Vec::new();
    bytes.extend_from_slice(&0u16.to_le_bytes());
    bytes.extend_from_slice(&1u16.to_le_bytes());
    bytes.extend_from_slice(&1u16.to_le_bytes());
    assert!(parse_ico(&bytes).is_err());
}

#[test]
fn rejects_image_data_past_end_of_file() {
    let mut bytes = Vec::new();
    bytes.extend_from_slice(&0u16.to_le_bytes());
    bytes.extend_from_slice(&1u16.to_le_bytes());
    bytes.extend_from_slice(&1u16.to_le_bytes());
    bytes.push(16);
    bytes.push(16);
    bytes.push(0);
    bytes.push(0);
    bytes.extend_from_slice(&1u16.to_le_bytes());
    bytes.extend_from_slice(&32u16.to_le_bytes());
    bytes.extend_from_slice(&100u32.to_le_bytes());
    bytes.extend_from_slice(&22u32.to_le_bytes());
    assert!(parse_ico(&bytes).is_err());
}

#[test]
fn group_icon_data_has_the_shape_windows_expects() {
    let images = parse_ico(&sample_ico_bytes()).unwrap();
    let ids = vec![101u16];
    let group = build_group_icon_data(&images, &ids);

    assert_eq!(group.len(), 6 + 14);
    assert_eq!(&group[0..2], &0u16.to_le_bytes(), "reserved");
    assert_eq!(&group[2..4], &1u16.to_le_bytes(), "type = icon");
    assert_eq!(&group[4..6], &1u16.to_le_bytes(), "image count");
    assert_eq!(group[6], 16, "width");
    assert_eq!(group[7], 16, "height");
    assert_eq!(
        &group[12..16],
        &(images[0].data.len() as u32).to_le_bytes(),
        "bytesInRes"
    );
    assert_eq!(&group[16..18], &101u16.to_le_bytes(), "resource id");
}

fn message(r: Result<Vec<ruxius::icon::IcoImage>, LauncherError>) -> String {
    match r {
        Err(LauncherError::Extraction(m)) => m,
        other => panic!("expected an Extraction error, got {other:?}"),
    }
}

#[test]
fn ico_errors_say_what_is_wrong() {
    assert_eq!(message(parse_ico(&[])), "not a valid .ico file: file too short");
    assert_eq!(
        message(parse_ico(&[1, 2, 3, 4, 5, 6])),
        "not a valid .ico file: missing ICO header (reserved=0, type=1)"
    );
    assert_eq!(message(parse_ico(&[0, 0, 1, 0, 0, 0])), "not a valid .ico file: contains no images");
    assert_eq!(
        message(parse_ico(&[0, 0, 1, 0, 1, 0])),
        "not a valid .ico file: truncated directory table"
    );
    let mut past_end = sample_ico_bytes();
    past_end.truncate(25);
    assert_eq!(
        message(parse_ico(&past_end)),
        "not a valid .ico file: image entry points past end of file"
    );
}

#[test]
fn resource_ids_count_up_from_101() {
    assert_eq!(resource_ids(0), Vec::<u16>::new());
    assert_eq!(resource_ids(3), vec![101, 102, 103]);
}

#[test]
fn icon_resources_lay_out_images_ids_and_group() {
    let bytes = sample_ico_bytes();
    let res = icon_resources(&bytes).unwrap();
    assert_eq!(res.images.len(), 1);
    assert_eq!(res.ids, vec![101]);
    assert_eq!(res.group_data, build_group_icon_data(&res.images, &res.ids));
    assert!(icon_resources(&[1, 2, 3, 4, 5, 6]).is_err());
}

#[test]
fn embedding_off_windows_is_refused() {
    match embed_icon("stub.exe", "icon.ico", "out.exe") {
        Err(LauncherError::Extraction(m)) => assert_eq!(
            m,
            "--icon embeds a Windows PE resource and is only supported when building on Windows"
        ),
        other => panic!("unexpected {other:?}"),
    }
}

#[test]
fn group_entry_carries_planes_and_bit_count() {
    let images = parse_ico(&sample_ico_bytes()).unwrap();
    let group = build_group_icon_data(&images, &[7]);
    assert_eq!(group[8], 0, "color count");
    assert_eq!(group[9], 0, "reserved");
    assert_eq!(&group[10..12], &1u16.to_le_bytes(), "planes");
    assert_eq!(&group[18..20], &32u16.to_le_bytes(), "bit count");
    assert_eq!(build_group_icon_data(&images, &[]).len(), 6);
}
