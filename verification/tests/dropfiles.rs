use makepad_platform::dropfiles::{
    convert_medium_to_dragitem, create_hglobal_for_dragitem, has_header, DragItem,
};

fn files(names: &[&str], internal_id: Option<u64>) -> DragItem {
    DragItem::FilePath {
        paths: names.iter().map(|n| n.to_string()).collect(),
        internal_id,
    }
}

fn read(bytes: &Vec<u8>) -> Option<(Vec<String>, Option<u64>)> {
    assert!(has_header(bytes));
    match convert_medium_to_dragitem(bytes) {
        Some(DragItem::FilePath { paths, internal_id }) => Some((paths, internal_id)),
        Some(DragItem::Text { .. }) => panic!("not files"),
        None => None,
    }
}

fn units(text: &str) -> Vec<u8> {
    text.encode_utf16().flat_map(|u| u.to_le_bytes()).collect()
}

fn block(offset: u32, wide: u32, names: &[u8]) -> Vec<u8> {
    let mut b = offset.to_le_bytes().to_vec();
    b.extend([0u8; 12]);
    b.extend(wide.to_le_bytes());
    b.extend(names);
    b
}

#[test]
fn what_is_dragged_out_comes_back() {
    for id in [None, Some(1), Some(0x1234_5678_9abc_def0)] {
        let bytes = create_hglobal_for_dragitem(&files(&["C:\\a.txt", "C:\\ñandú.png"], id)).unwrap();
        assert_eq!(
            read(&bytes),
            Some((vec!["C:\\a.txt".to_string(), "C:\\ñandú.png".to_string()], id))
        );
    }
    let zero = create_hglobal_for_dragitem(&files(&["x"], Some(0))).unwrap();
    assert_eq!(read(&zero), Some((vec!["x".to_string()], None)));
    let bytes = create_hglobal_for_dragitem(&files(&["ab"], Some(7))).unwrap();
    assert_eq!(&bytes[0..4], &[28, 0, 0, 0]);
    assert_eq!(&bytes[16..28], &[1, 0, 0, 0, 7, 0, 0, 0, 0, 0, 0, 0]);
    assert_eq!(&bytes[28..34], &[97, 0, 98, 0, 0, 0]);
}

#[test]
fn characters_beyond_the_first_plane_come_back_as_two() {
    let bytes = create_hglobal_for_dragitem(&files(&["\u{1f600}"], None)).unwrap();
    assert_eq!(read(&bytes), Some((vec!["\u{fffd}\u{fffd}".to_string()], None)));
}

#[test]
fn only_files_are_dragged_out() {
    assert!(create_hglobal_for_dragitem(&files(&[], Some(1))).is_none());
    let text = DragItem::Text { value: "t".to_string(), internal_id: None };
    assert!(create_hglobal_for_dragitem(&text).is_none());
}

#[test]
fn blocks_of_others_have_no_identity() {
    let mut names = units("one\0two\0\0");
    names.extend(units("ignored\0"));
    assert_eq!(
        read(&block(20, 1, &names)),
        Some((vec!["one".to_string(), "two".to_string()], None))
    );
    assert_eq!(read(&block(20, 0, &names)), None);
    assert_eq!(read(&block(24, 1, &names)), None);
    assert_eq!(read(&block(20, 1, &[])), None);
    assert_eq!(read(&block(20, 1, &units("unfinished"))), None);
    assert_eq!(read(&block(20, 1, &units("\0"))), Some((vec![String::new()], None)));
}

#[test]
fn a_block_must_be_as_long_as_its_header() {
    assert!(!has_header(&vec![0; 19]));
    assert!(has_header(&vec![0; 20]));
    assert!(!has_header(&block(28, 1, &[0; 7])));
    assert!(has_header(&block(28, 1, &[0; 8])));
}
