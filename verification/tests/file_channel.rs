use lumiere_agent::file_channel::{
    download_chunk_count, file_channel_command, screenshot_chunks, upload_start_allowed,
    FileChannelCommand, UploadProgress, MAX_UPLOAD_BYTES, MAX_UPLOAD_CHUNKS,
    SCREENSHOT_CHUNK_SIZE, part_file_name, upload_file_name,
};

#[test]
fn control_messages_map_to_commands() {
    assert_eq!(file_channel_command(Some("FILE_LIST_REQUEST")), FileChannelCommand::ListRequest);
    assert_eq!(file_channel_command(Some("FILE_DOWNLOAD_REQUEST")), FileChannelCommand::DownloadRequest);
    assert_eq!(file_channel_command(Some("FILE_UPLOAD_START")), FileChannelCommand::UploadStart);
    assert_eq!(file_channel_command(Some("FILE_COMPLETE")), FileChannelCommand::Complete);
    assert_eq!(file_channel_command(Some("file_complete")), FileChannelCommand::Ignored);
    assert_eq!(file_channel_command(None), FileChannelCommand::Ignored);
}

#[test]
fn upload_start_is_capped() {
    assert_eq!(MAX_UPLOAD_CHUNKS, 8192);
    assert!(upload_start_allowed(1));
    assert!(upload_start_allowed(8192));
    assert!(!upload_start_allowed(8193));
}

#[test]
fn upload_progress_counts_and_caps() {
    let mut p = UploadProgress::start("t1".to_owned());
    assert!(p.is_transfer("t1"));
    assert!(!p.is_transfer("t2"));
    assert!(p.accepts(65536));
    p.record_chunk(65536);
    p.record_chunk(10);
    assert_eq!(p.received_chunks(), 2);
    assert_eq!(p.bytes_written(), 65546);
    assert!(p.accepts(MAX_UPLOAD_BYTES - 65546));
    assert!(!p.accepts(MAX_UPLOAD_BYTES - 65545));
    assert!(!p.accepts(usize::MAX));
    assert_eq!(p.transfer_id(), "t1");
}

#[test]
fn download_announces_at_least_one_chunk() {
    assert_eq!(download_chunk_count(0), 1);
    assert_eq!(download_chunk_count(1), 1);
    assert_eq!(download_chunk_count(65536), 1);
    assert_eq!(download_chunk_count(65537), 2);
}

#[test]
fn screenshot_text_is_cut_in_order() {
    let text: String = (0..(SCREENSHOT_CHUNK_SIZE * 2 + 5)).map(|i| (b'A' + (i % 26) as u8) as char).collect();
    let chunks = screenshot_chunks(&text);
    assert_eq!(chunks.len(), 3);
    assert_eq!(chunks[0].len(), SCREENSHOT_CHUNK_SIZE);
    assert_eq!(chunks[2].len(), 5);
    assert_eq!(chunks.concat(), text);
    assert!(screenshot_chunks("").is_empty());
    assert_eq!(screenshot_chunks("QUJD"), vec!["QUJD".to_owned()]);
}

#[test]
fn upload_names_drop_directories() {
    assert_eq!(upload_file_name("../../etc/passwd", "upload".to_string()), "passwd");
    assert_eq!(upload_file_name("dir/report.pdf", "upload".to_string()), "report.pdf");
    assert_eq!(upload_file_name("report.pdf", "upload".to_string()), "report.pdf");
    assert_eq!(upload_file_name("a/..", "upload".to_string()), "upload");
    assert_eq!(upload_file_name("", "upload".to_string()), "upload");
    assert_eq!(upload_file_name("/", "fallback".to_string()), "fallback");
    assert_eq!(part_file_name("a.tar.gz"), "a.tar.gz.part");
    assert_eq!(part_file_name("upload"), "upload.part");
}
