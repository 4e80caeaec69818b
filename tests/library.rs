use clipdir::classify::get_ext;
use clipdir::entry::{
    dedupe_end, entry_name, parse_id, plan_store, same_content, select, IdError, SelectError,
    StoreError,
};
use clipdir::history::History;
use clipdir::order::{name_le_exec, sort_newest_first};
use clipdir::preview::{binary_preview, entry_tag, is_text_tag, list_line, text_preview};
use clipdir::size::get_human_readable_size;
use clipdir::state::{ClipboardState, StoreAction};

fn png_bytes(len: usize) -> Vec<u8> {
    let mut b = vec![0u8; len];
    b[0] = 0x89;
    b[1] = 0x50;
    b[2] = 0x4E;
    b[3] = 0x47;
    b
}

#[test]
fn human_size_bytes() {
    assert_eq!(get_human_readable_size(0), "0.00 B");
    assert_eq!(get_human_readable_size(1023), "1023.00 B");
}

#[test]
fn human_size_units() {
    assert_eq!(get_human_readable_size(1024), "1.00 KiB");
    assert_eq!(get_human_readable_size(1536), "1.50 KiB");
    assert_eq!(get_human_readable_size(1048576), "1.00 MiB");
    assert_eq!(get_human_readable_size(2097152), "2.00 MiB");
    assert_eq!(get_human_readable_size(1073741824), "1.00 GiB");
}

#[test]
fn human_size_rounding() {
    // 1152 / 1024 = 1.125, a tie, rounded to the even hundredth
    assert_eq!(get_human_readable_size(1152), "1.12 KiB");
    // 1049 / 1024 = 1.0244...
    assert_eq!(get_human_readable_size(1049), "1.02 KiB");
    assert_eq!(get_human_readable_size(1048575), "1024.00 KiB");
}

#[test]
fn human_size_largest() {
    assert_eq!(get_human_readable_size(u64::MAX), "16.00 EiB");
}

#[test]
fn state_names_ignore_case() {
    assert_eq!(ClipboardState::from_str("nil"), Ok(ClipboardState::Nil));
    assert_eq!(ClipboardState::from_str("Sensitive"), Ok(ClipboardState::Sensitive));
    assert_eq!(ClipboardState::from_str("CLEAR"), Ok(ClipboardState::Clear));
    assert_eq!(ClipboardState::from_str("data"), Ok(ClipboardState::Data));
    assert_eq!(ClipboardState::from_str("other"), Ok(ClipboardState::Unknown));
    assert_eq!(ClipboardState::from_str(""), Ok(ClipboardState::Unknown));
}

#[test]
fn state_actions() {
    assert_eq!(ClipboardState::Nil.action(), StoreAction::Ignore);
    assert_eq!(ClipboardState::Sensitive.action(), StoreAction::Ignore);
    assert_eq!(ClipboardState::Clear.action(), StoreAction::DeleteNewest);
    assert_eq!(ClipboardState::Data.action(), StoreAction::Store);
    assert_eq!(ClipboardState::Unknown.action(), StoreAction::Store);
}

#[test]
fn classify_by_content() {
    assert_eq!(get_ext(&png_bytes(16)), "png");
    assert_eq!(get_ext(b"hello"), "txt");
    assert_eq!(get_ext("h\u{e9}llo".as_bytes()), "txt");
    assert_eq!(get_ext(&[0xff, 0xfe, 0x00, 0x41]), "bin");
}

#[test]
fn text_preview_trims_and_joins_lines() {
    assert_eq!(text_preview(b"  hello\nworld \n", 100), "hello world");
    assert_eq!(text_preview(b"\t\r\n ", 100), "");
}

#[test]
fn text_preview_truncates() {
    assert_eq!(text_preview(b"abcdefgh", 3), "abc");
    assert_eq!(text_preview(b"abc", 0), "");
}

#[test]
fn text_preview_falls_back_to_bytes() {
    // "é" is two bytes; cutting after the first leaves invalid UTF-8
    assert_eq!(text_preview("a\u{e9}".as_bytes(), 2), "a\u{c3}");
    assert_eq!(text_preview("a\u{e9}".as_bytes(), 3), "a\u{e9}");
}

#[test]
fn binary_preview_reports_size_and_tag() {
    assert_eq!(binary_preview(2097152, "png"), "[[ binary data 2.00 MiB png ]]");
    assert_eq!(binary_preview(5, "bin"), "[[ binary data 5.00 B bin ]]");
}

#[test]
fn list_lines() {
    assert_eq!(list_line(0, "hello"), "0\thello");
    assert_eq!(list_line(12, ""), "12\t");
}

#[test]
fn tags_of_names() {
    assert_eq!(entry_tag("1700000000000000.txt"), "txt");
    assert_eq!(entry_tag("1700000000000000.tar.gz"), "gz");
    assert_eq!(entry_tag("noext"), "bin");
    assert_eq!(entry_tag(".hidden"), "bin");
    assert_eq!(entry_tag("a."), "");
    assert!(is_text_tag("txt"));
    assert!(!is_text_tag("png"));
}

#[test]
fn names_sort_newest_first() {
    let names = vec![
        "1700000000000002.txt".to_string(),
        "1700000000000010.png".to_string(),
        "1700000000000001.txt".to_string(),
    ];
    let sorted = sort_newest_first(names);
    assert_eq!(
        sorted,
        vec![
            "1700000000000010.png".to_string(),
            "1700000000000002.txt".to_string(),
            "1700000000000001.txt".to_string(),
        ]
    );
    assert!(sort_newest_first(Vec::new()).is_empty());
    assert!(name_le_exec("ab", "abc"));
    assert!(!name_le_exec("b", "abc"));
}

#[test]
fn store_plan_cases() {
    assert_eq!(plan_store(b" \n\t", 10), Ok(None));
    assert_eq!(plan_store(b"", 10), Ok(None));
    assert_eq!(plan_store(b"hello", 4), Err(StoreError::TooLarge));
    assert_eq!(plan_store(b"hello", 5), Ok(Some("txt")));
    assert_eq!(plan_store(&png_bytes(8), 8), Ok(Some("png")));
}

#[test]
fn entry_names() {
    assert_eq!(entry_name(1700000000123456, "txt"), "1700000000123456.txt");
    assert_eq!(entry_name(0, "png"), "0.png");
    assert_eq!(entry_name(-5, "bin"), "-5.bin");
}

#[test]
fn dedupe_windows() {
    assert_eq!(dedupe_end(0, 5), 0);
    assert_eq!(dedupe_end(3, 5), 3);
    assert_eq!(dedupe_end(10, 5), 6);
    assert_eq!(dedupe_end(10, 0), 1);
    assert_eq!(dedupe_end(10, usize::MAX), 10);
    assert!(same_content(b"abc", b"abc"));
    assert!(!same_content(b"abc", b"abd"));
    assert!(!same_content(b"abc", b"ab"));
}

#[test]
fn select_by_index() {
    let v = vec![10, 20, 30];
    assert_eq!(select(&v, 0), Ok(&10));
    assert_eq!(select(&v, 2), Ok(&30));
    assert_eq!(select(&v, 3), Err(SelectError::NotFound));
}

#[test]
fn ids_from_selection_lines() {
    assert_eq!(parse_id(b"12\thello"), Ok(12));
    assert_eq!(parse_id(b"0"), Ok(0));
    assert_eq!(parse_id(b"\thello"), Err(IdError::Missing));
    assert_eq!(parse_id(b""), Err(IdError::Missing));
    assert_eq!(parse_id(b"99999999999999999999999\t"), Err(IdError::Overflow));
    assert_eq!(parse_id(b"18446744073709551615"), Ok(18446744073709551615));
    // only ASCII digits count: byte 0xB2 (superscript two in Latin-1) ends the id
    assert_eq!(parse_id(&[b'1', 0xB2, b'\t']), Ok(1));
    assert_eq!(parse_id(b"+1"), Err(IdError::Missing));
}

#[test]
fn store_then_decode_gives_bytes_back() {
    let mut h = History::new();
    assert_eq!(h.store(b"first", 100, 1000, 1), Ok(()));
    assert_eq!(h.store(b"  second\n", 100, 1000, 2), Ok(()));
    assert_eq!(h.decode(0).unwrap().as_slice(), b"  second\n");
    assert_eq!(h.decode(1).unwrap().as_slice(), b"first");
    assert_eq!(h.entries[0].name, "2.txt");
}

#[test]
fn taken_name_store_fails() {
    let mut h = History::new();
    h.store(b"a", 100, 1000, 7).unwrap();
    assert_eq!(h.store(b"b", 100, 1000, 7), Err(StoreError::Exists));
    assert_eq!(h.len(), 1);
    assert_eq!(h.decode(0).unwrap().as_slice(), b"a");
    // a different tag makes a different name
    let mut png = vec![0u8; 8];
    png[..4].copy_from_slice(&[0x89, 0x50, 0x4E, 0x47]);
    assert_eq!(h.store(&png, 100, 1000, 7), Ok(()));
    assert_eq!(h.entries[0].name, "7.png");
}

#[test]
fn store_keeps_names_of_older_entries() {
    let mut h = History::new();
    h.store(b"x", 100, 1000, 1).unwrap();
    h.store(b"y", 100, 1000, 2).unwrap();
    h.store(b"z", 100, 1000, 3).unwrap();
    h.store(b"y", 100, 1000, 4).unwrap();
    let names: Vec<&str> = h.entries.iter().map(|e| e.name.as_str()).collect();
    assert_eq!(names, vec!["4.txt", "3.txt", "1.txt"]);
}

#[test]
fn blank_store_changes_nothing() {
    let mut h = History::new();
    h.store(b"a", 100, 1000, 1).unwrap();
    assert_eq!(h.store(b" \n", 100, 1000, 2), Ok(()));
    assert_eq!(h.len(), 1);
}

#[test]
fn oversize_store_fails() {
    let mut h = History::new();
    h.store(b"a", 100, 1000, 1).unwrap();
    assert_eq!(h.store(b"abcdef", 5, 1000, 2), Err(StoreError::TooLarge));
    assert_eq!(h.len(), 1);
}

#[test]
fn store_twice_keeps_newest_copy() {
    let mut h = History::new();
    h.store(b"other", 100, 1000, 1).unwrap();
    h.store(b"b", 100, 1000, 2).unwrap();
    h.store(b"b", 100, 1000, 3).unwrap();
    assert_eq!(h.len(), 2);
    assert_eq!(h.entries[0].name, "3.txt");
    assert_eq!(h.decode(0).unwrap().as_slice(), b"b");
    assert_eq!(h.decode(1).unwrap().as_slice(), b"other");
}

#[test]
fn dedupe_stops_at_window() {
    let mut h = History::new();
    h.store(b"x", 100, 1000, 1).unwrap();
    h.store(b"y", 100, 1000, 2).unwrap();
    h.store(b"x", 100, 1, 3).unwrap();
    // only "y" was inside the window, so the older "x" stays
    assert_eq!(h.len(), 3);
    h.store(b"y", 100, 0, 4).unwrap();
    assert_eq!(h.len(), 4);
    let names: Vec<&str> = h.entries.iter().map(|e| e.name.as_str()).collect();
    assert_eq!(names, vec!["4.txt", "3.txt", "2.txt", "1.txt"]);
}

#[test]
fn delete_newest_shifts_indices() {
    let mut h = History::new();
    assert!(!h.delete_newest());
    h.store(b"a", 100, 1000, 1).unwrap();
    h.store(b"b", 100, 1000, 2).unwrap();
    h.store(b"c", 100, 1000, 3).unwrap();
    assert!(h.delete_newest());
    assert_eq!(h.len(), 2);
    assert_eq!(h.decode(0).unwrap().as_slice(), b"b");
    assert_eq!(h.list(100), vec!["0\tb".to_string(), "1\ta".to_string()]);
}

#[test]
fn decode_out_of_range_is_not_found() {
    let mut h = History::new();
    assert_eq!(h.decode(0), Err(SelectError::NotFound));
    h.store(b"a", 100, 1000, 1).unwrap();
    assert_eq!(h.decode(1), Err(SelectError::NotFound));
}

#[test]
fn hello_twice_lists_once() {
    let mut h = History::new();
    h.store(b"hello", 5242880, 1000, 1700000000000001).unwrap();
    h.store(b"hello", 5242880, 1000, 1700000000000002).unwrap();
    assert_eq!(h.list(100), vec!["0\thello".to_string()]);
    assert_eq!(h.decode(0).unwrap().as_slice(), b"hello");
}

#[test]
fn png_lists_as_binary() {
    let mut h = History::new();
    h.store(&png_bytes(2097152), 5242880, 1000, 1700000000000001).unwrap();
    assert_eq!(h.entries[0].name, "1700000000000001.png");
    assert_eq!(h.list(100), vec!["0\t[[ binary data 2.00 MiB png ]]".to_string()]);
}

#[test]
fn list_previews_text_one_line() {
    let mut h = History::new();
    h.store(b"line one\nline two\nline three", 100, 1000, 1).unwrap();
    assert_eq!(h.list(17), vec!["0\tline one line two".to_string()]);
    let line = &h.list(100)[0];
    assert!(!line.contains('\n'));
}
