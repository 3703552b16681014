use gitweb_release_downloader::headers::{split_header, split_headers, HeaderFormatError};
use gitweb_release_downloader::transfer::{
    parse_content_length, ChunkRead, TransferProgress, TransferStep, CHUNK_SIZE,
};

#[test]
fn transfer_of_8193_bytes_takes_two_writes() {
    assert_eq!(CHUNK_SIZE, 8192);
    let mut progress = TransferProgress::new();
    let mut writes: Vec<usize> = Vec::new();
    let mut reported: Vec<usize> = Vec::new();
    // a response of exactly 8193 bytes: a full chunk, one byte, end of stream
    for read in [
        ChunkRead::Data(8192),
        ChunkRead::Data(1),
        ChunkRead::Data(0),
    ] {
        match progress.on_chunk(read) {
            TransferStep::Write { len } => {
                writes.push(len);
                reported.push(progress.bytes_downloaded);
            }
            TransferStep::Finished => break,
            TransferStep::Failed => unreachable!(),
        }
    }
    assert_eq!(writes, vec![8192, 1]);
    assert_eq!(reported, vec![8192, 8193]);
    assert_eq!(progress.bytes_downloaded, 8193);
}

#[test]
fn transfer_of_zero_bytes_writes_nothing() {
    let mut progress = TransferProgress::new();
    let step = progress.on_chunk(ChunkRead::Data(0));
    assert_eq!(step, TransferStep::Finished);
    assert_eq!(progress.bytes_downloaded, 0);
}

#[test]
fn transfer_aborts_on_a_read_error() {
    let mut progress = TransferProgress::new();
    progress.on_chunk(ChunkRead::Data(100));
    let step = progress.on_chunk(ChunkRead::ReadError);
    assert_eq!(step, TransferStep::Failed);
    assert_eq!(progress.bytes_downloaded, 100);
}

#[test]
fn header_without_a_colon_is_a_format_error() {
    let headers = vec!["X-Test".to_string()];
    let err = split_headers(&headers).unwrap_err();
    assert_eq!(
        err,
        HeaderFormatError {
            header: "X-Test".to_string()
        }
    );
}

#[test]
fn headers_split_at_the_first_colon() {
    let (name, value) = split_header("X-Test: one:two").unwrap();
    assert_eq!(name, "X-Test");
    assert_eq!(value, " one:two");
    assert!(split_header("X-Test").is_none());

    let headers = vec![
        "X-Custom: some value".to_string(),
        "Accept: application/json".to_string(),
    ];
    let split = split_headers(&headers).unwrap();
    assert_eq!(split[0].0, "X-Custom");
    assert_eq!(split[0].1, " some value");
    assert_eq!(split[1].0, "Accept");
    assert_eq!(split[1].1, " application/json");
}

#[test]
fn content_length_reads_plain_decimals() {
    assert_eq!(parse_content_length("8193"), Some(8193));
    assert_eq!(parse_content_length("0"), Some(0));
    assert_eq!(parse_content_length("+42"), Some(42));
    assert_eq!(parse_content_length(""), None);
    assert_eq!(parse_content_length("+"), None);
    assert_eq!(parse_content_length("12a"), None);
    assert_eq!(parse_content_length(" 12"), None);
    assert_eq!(parse_content_length("-12"), None);
    assert_eq!(parse_content_length("99999999999999999999999999"), None);
}
