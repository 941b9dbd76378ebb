use gemini_chat::ident::ConvId;
use gemini_chat::store::{list_files_in_dir, resolve_save_path, select_step, EntryInfo};

fn entry(path: &str, is_regular: bool) -> EntryInfo {
    EntryInfo { path: path.to_string(), is_regular }
}

#[test]
fn list_empty_directory_is_none() {
    let entries: Vec<EntryInfo> = Vec::new();
    assert!(list_files_in_dir(&entries).is_none());
}

#[test]
fn list_only_subdirectories_is_none() {
    let entries = vec![entry("store/a", false), entry("store/b", false)];
    assert!(list_files_in_dir(&entries).is_none());
}

#[test]
fn list_keeps_exactly_the_regular_files_in_order() {
    let entries = vec![
        entry("store/sub", false),
        entry("store/one.txt", true),
        entry("store/nested", false),
        entry("store/two.txt", true),
    ];
    let listing = list_files_in_dir(&entries).unwrap();
    assert_eq!(listing, vec!["store/one.txt".to_string(), "store/two.txt".to_string()]);
}

#[test]
fn list_single_regular_file() {
    let entries = vec![entry("store/only.txt", true)];
    let listing = list_files_in_dir(&entries).unwrap();
    assert_eq!(listing.len(), 1);
    assert_eq!(listing[0], "store/only.txt");
}

#[test]
fn select_accepts_only_indices_inside_the_listing() {
    assert_eq!(select_step("0", 3), Some(0));
    assert_eq!(select_step("2", 3), Some(2));
    assert_eq!(select_step(" 1 ", 3), Some(1));
    assert_eq!(select_step("3", 3), None); // == length: out of range
    assert_eq!(select_step("7", 3), None);
}

#[test]
fn select_reads_numerals_as_rust_does() {
    // optional plus sign, any number of leading zeros: the value decides
    assert_eq!(select_step("+2", 5), Some(2));
    assert_eq!(select_step(" +0 ", 5), Some(0));
    assert_eq!(select_step("00000000000000000000", 3), Some(0));
    assert_eq!(select_step("000000000000000000001", 3), Some(1));
    // a sign with no digits is not a number
    assert_eq!(select_step("+", 3), None);
    assert_eq!(select_step("++1", 3), None);
    // values past the machine's range are simply out of range
    assert_eq!(select_step("18446744073709551616", 3), None);
}

#[test]
fn select_rejects_non_numbers() {
    assert_eq!(select_step("-1", 3), None);
    assert_eq!(select_step("abc", 3), None);
    assert_eq!(select_step("", 3), None);
    assert_eq!(select_step("1.5", 3), None);
    assert_eq!(select_step("one", 3), None);
    assert_eq!(select_step("99999999999999999999999", 3), None);
}

#[test]
fn select_never_returns_out_of_bounds() {
    for line in ["-1", "0", "1", "5", "10", "x", ""] {
        if let Some(i) = select_step(line, 5) {
            assert!(i < 5);
        }
    }
    assert_eq!(select_step("0", 0), None);
}

#[test]
fn save_path_joins_directory_and_file_name() {
    let id = ConvId { hi: 0x1111111111111111, lo: 0x1111111111111111 };
    assert_eq!(
        resolve_save_path("/data/gemini-chat/convos", &id),
        "/data/gemini-chat/convos/convo-11111111-1111-1111-1111-111111111111.txt"
    );
}

#[test]
fn resume_selected_conversation_resolves_identifier() {
    // A store with exactly one saved conversation: answering with index 0
    // resolves the active identifier to the one in the file name.
    let entries = vec![entry("convo-11111111-1111-1111-1111-111111111111.txt", true)];
    let listing = list_files_in_dir(&entries).unwrap();
    let pick = select_step("0", listing.len()).unwrap();
    let id = gemini_chat::ident::decode(&listing[pick]).unwrap();
    assert_eq!(id, ConvId { hi: 0x1111111111111111, lo: 0x1111111111111111 });
}
