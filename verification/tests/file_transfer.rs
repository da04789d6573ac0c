use lumiere_agent::file_transfer::{
    assemble_listing, file_chunks, listing_error, resolve_listing_target, sort_by_name, FileEntry,
    FileTransferService, ListingTarget,
};

fn entry(name: &str, dir: bool) -> FileEntry {
    FileEntry {
        name: name.to_string(),
        path: format!("/x/{name}"),
        is_directory: dir,
        size: 0,
        last_modified: 0,
    }
}

fn names(v: &[FileEntry]) -> Vec<&str> {
    v.iter().map(|e| e.name.as_str()).collect()
}

#[test]
fn listing_targets() {
    assert!(matches!(resolve_listing_target(""), ListingTarget::Home));
    assert!(matches!(resolve_listing_target("/"), ListingTarget::Home));
    match resolve_listing_target("C:") {
        ListingTarget::Path(p) => assert_eq!(p, "C:\\"),
        ListingTarget::Home => panic!("drive letter"),
    }
    match resolve_listing_target("/home/user") {
        ListingTarget::Path(p) => assert_eq!(p, "/home/user"),
        ListingTarget::Home => panic!("plain path"),
    }
    match resolve_listing_target("é:") {
        ListingTarget::Path(p) => assert_eq!(p, "é:"),
        ListingTarget::Home => panic!("not a drive letter"),
    }
}

#[test]
fn sort_is_case_insensitive_and_stable() {
    let sorted = sort_by_name(vec![
        entry("beta", false),
        entry("Alpha", false),
        entry("alpha", true),
        entry("Zeta", false),
        entry("ALPHA", false),
        entry("_under", false),
    ]);
    assert_eq!(names(&sorted), vec!["_under", "Alpha", "alpha", "ALPHA", "beta", "Zeta"]);
    assert!(sorted[2].is_directory);
    assert!(sort_by_name(Vec::new()).is_empty());
}

#[test]
fn listing_puts_parent_then_dirs_then_files() {
    let listing = assemble_listing(
        "/x".to_string(),
        Some(entry("..", true)),
        vec![entry("src", true), entry("Docs", true)],
        vec![entry("b.txt", false), entry("A.txt", false)],
    );
    assert_eq!(listing.path, "/x");
    assert!(listing.error.is_none());
    assert_eq!(names(&listing.files), vec!["..", "Docs", "src", "A.txt", "b.txt"]);
    let no_parent = assemble_listing("/".to_string(), None, vec![], vec![entry("f", false)]);
    assert_eq!(names(&no_parent.files), vec!["f"]);
    let err = listing_error("/nope".to_string(), "Directory not found".to_string());
    assert_eq!(err.error.as_deref(), Some("Directory not found"));
    assert!(err.files.is_empty());
    let _service = FileTransferService::new();
}

#[test]
fn chunks_are_64k_base64() {
    let data: Vec<u8> = (0..(65536 + 3)).map(|i| (i % 256) as u8).collect();
    let chunks = file_chunks("a.bin", "/tmp/a.bin", &data);
    assert_eq!(chunks.len(), 2);
    assert_eq!(chunks[0].chunk_index, 0);
    assert_eq!(chunks[1].chunk_index, 1);
    assert!(chunks.iter().all(|c| c.total_chunks == 2 && c.total_size == 65539));
    assert_eq!(chunks[0].data.len(), 87384);
    assert_eq!(chunks[1].data, "AAEC");
    assert_eq!(chunks[1].file_name, "a.bin");
    assert_eq!(chunks[1].file_path, "/tmp/a.bin");
}

#[test]
fn small_and_empty_files() {
    let chunks = file_chunks("h.txt", "h.txt", b"hello");
    assert_eq!(chunks.len(), 1);
    assert_eq!(chunks[0].data, "aGVsbG8=");
    assert!(file_chunks("e", "e", &[]).is_empty());
    let exact = file_chunks("e", "e", &vec![0u8; 65536]);
    assert_eq!(exact.len(), 1);
}

#[test]
fn uploaded_base64_decodes() {
    assert_eq!(lumiere_agent::file_transfer::decode_upload("aGVsbG8="), Ok(b"hello".to_vec()));
    assert!(lumiere_agent::file_transfer::decode_upload("not base64!").is_err());
    assert!(lumiere_agent::file_transfer::decode_upload("aGVsbG8").is_err());
}

#[test]
fn chunk_data_decodes_back_to_file_bytes() {
    let data: Vec<u8> = (0..70000u32).map(|i| (i % 251) as u8).collect();
    let chunks = lumiere_agent::file_transfer::file_chunks("f.bin", "/tmp/f.bin", &data);
    let mut joined = Vec::new();
    for c in &chunks {
        joined.extend(lumiere_agent::file_transfer::decode_upload(&c.data).unwrap());
    }
    assert_eq!(joined, data);
}

#[test]
fn decode_upload_accepts_only_canonical_text() {
    assert_eq!(lumiere_agent::file_transfer::decode_upload("Zg=="), Ok(vec![102]));
    assert_eq!(lumiere_agent::file_transfer::decode_upload(""), Ok(vec![]));
    assert!(lumiere_agent::file_transfer::decode_upload("Zh==").is_err());
    assert!(lumiere_agent::file_transfer::decode_upload("Zg=").is_err());
    assert!(lumiere_agent::file_transfer::decode_upload("Zg==Zg==").is_err());
}

#[test]
fn listing_helper_entries() {
    let p = lumiere_agent::file_transfer::parent_entry("/home".to_string());
    assert_eq!((p.name.as_str(), p.path.as_str(), p.is_directory, p.size, p.last_modified), ("..", "/home", true, 0, 0));
    let d = lumiere_agent::file_transfer::drive_entry('C');
    assert_eq!((d.name.as_str(), d.path.as_str(), d.is_directory, d.size, d.last_modified), ("C:\\", "C:\\", true, 0, 0));
    let m = lumiere_agent::file_transfer::missing_directory_listing("/nowhere".to_string());
    assert_eq!(m.path, "/nowhere");
    assert!(m.files.is_empty());
    assert_eq!(m.error.as_deref(), Some("Directory not found"));
}
