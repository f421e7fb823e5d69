use std::io::{Read, Write};

use flate2::write::GzEncoder;
use flate2::Compression;
use rnp_src::botan::botan_config;
use rnp_src::download::{
    not_gzip, unzip_tarball, AfterReply, AfterWait, Download, Reply, Unzipping, MAX_ATTEMPTS,
    MAX_BODY_BYTES, RETRY_SECONDS,
};
use rnp_src::librnp::{check_backport, PatchOutcome};
use rnp_src::process::{check_run, nproc, run_failure};

fn gzipped(content: &[u8]) -> Vec<u8> {
    let mut encoder = GzEncoder::new(Vec::new(), Compression::default());
    encoder.write_all(content).unwrap();
    encoder.finish().unwrap()
}

/// Reads to the end or to an error, with buffers of length `size`.
fn read_all(mut unzipping: Unzipping, size: usize) -> (Vec<u8>, Option<String>) {
    let mut content = Vec::new();
    let mut buffer = vec![0; size];
    loop {
        match unzipping.read(&mut buffer) {
            Ok(0) => return (content, None),
            Ok(count) => content.extend_from_slice(&buffer[..count]),
            Err(error) => return (content, Some(error)),
        }
    }
}

/// Bytes that do not compress to nothing.
fn sample(length: usize) -> Vec<u8> {
    let mut state: u32 = 1;
    let mut bytes = Vec::new();
    while bytes.len() < length {
        state = state.wrapping_mul(1664525).wrapping_add(1013904223);
        bytes.push((state >> 24) as u8 & 0x3f);
    }
    bytes
}

#[test]
fn a_gzip_body_is_unzipped() {
    for content in [Vec::new(), b"hello hello hello".to_vec(), sample(200_000)] {
        for size in [1, 7, 512, 8192, 1_000_000] {
            let unzipping = unzip_tarball("https://x/y.tar.gz", gzipped(&content)).unwrap();
            assert_eq!(read_all(unzipping, size), (content.clone(), None));
        }
    }
}

#[test]
fn an_empty_buffer_takes_nothing() {
    let mut unzipping = unzip_tarball("u", gzipped(b"hello")).unwrap();
    assert_eq!(unzipping.read(&mut []), Ok(0));
    assert_eq!(read_all(unzipping, 3), (b"hello".to_vec(), None));
}

#[test]
fn only_the_first_member_is_unzipped() {
    let mut body = gzipped(b"one");
    body.extend_from_slice(&gzipped(b"two"));
    let unzipping = unzip_tarball("u", body).unwrap();
    assert_eq!(read_all(unzipping, 100), (b"one".to_vec(), None));
}

#[test]
fn a_damaged_checksum_is_an_error_after_the_content() {
    for content in [b"hello hello hello".to_vec(), sample(200_000)] {
        let mut body = gzipped(&content);
        let at = body.len() - 8;
        body[at] ^= 0xff;
        for size in [1, 512, 1_000_000] {
            let unzipping = unzip_tarball("u", body.clone()).unwrap();
            let error = "corrupt gzip stream does not have a matching checksum";
            assert_eq!(
                read_all(unzipping, size),
                (content.clone(), Some(error.to_string()))
            );
        }
    }
}

#[test]
fn a_missing_checksum_is_an_error_after_the_content() {
    let content = sample(100_000);
    let mut body = gzipped(&content);
    body.truncate(body.len() - 3);
    let unzipping = unzip_tarball("u", body).unwrap();
    let (bytes, error) = read_all(unzipping, 512);
    assert_eq!(bytes, content);
    assert!(error.is_some());
}

#[test]
fn damaged_content_is_an_error() {
    let mut body = gzipped(b"content");
    // A block of the reserved kind.
    body[10] = 0x07;
    let (bytes, error) = read_all(unzip_tarball("u", body).unwrap(), 100);
    assert!(bytes.is_empty());
    assert_eq!(error.unwrap(), "corrupt deflate stream");
}

#[test]
fn what_comes_before_damaged_content_is_given_as_the_decoder_gives_it() {
    let content = sample(300_000);
    let mut body = gzipped(&content);
    body.truncate(body.len() / 2);
    for size in [512, 8192] {
        let ours = read_all(unzip_tarball("u", body.clone()).unwrap(), size);
        let mut decoder = flate2::read::GzDecoder::new(&body[..]);
        let mut buffer = vec![0; size];
        let mut bytes = Vec::new();
        let error = loop {
            match decoder.read(&mut buffer) {
                Ok(count) => bytes.extend_from_slice(&buffer[..count]),
                Err(error) => break error.to_string(),
            }
        };
        assert!(!bytes.is_empty());
        assert!(content.starts_with(&bytes));
        assert_eq!(ours, (bytes, Some(error)));
    }
}

#[test]
fn a_truncated_header_is_an_error() {
    let body = gzipped(b"hello");
    let (bytes, error) = read_all(unzip_tarball("u", body[..5].to_vec()).unwrap(), 10);
    assert!(bytes.is_empty());
    assert!(error.is_some());
}

#[test]
fn what_is_no_gzip_file_is_refused() {
    let report = unzip_tarball("https://x/y", b"<html>\xff".to_vec()).unwrap_err();
    assert_eq!(
        report,
        "rnp-src: https://x/y did not return a gzip tarball (first 7 bytes): <html>\u{fffd}"
    );
    let report = unzip_tarball("u", vec![0x1f]).unwrap_err();
    assert_eq!(
        report,
        "rnp-src: u did not return a gzip tarball (first 1 bytes): \u{1f}"
    );
}

#[test]
fn only_the_start_of_a_refused_body_is_shown() {
    let report = unzip_tarball("u", vec![b'a'; 1000]).unwrap_err();
    assert_eq!(report, not_gzip("u", 1000, &"a".repeat(200)));
    let report = unzip_tarball("u", vec![b'a'; 200]).unwrap_err();
    assert_eq!(report, not_gzip("u", 200, &"a".repeat(200)));
}

#[test]
fn the_first_body_ends_a_download() {
    let mut download = Download::new("u");
    let next = download.replied(Reply::CallFailed("503".to_string()));
    assert!(matches!(next, AfterReply::Wait(2)));
    assert!(matches!(download.waited(), AfterWait::Call));
    let next = download.replied(Reply::Body(vec![1, 2]));
    assert!(matches!(next, AfterReply::Done(bytes) if bytes == [1, 2]));
}

#[test]
fn a_download_gives_up_after_five_attempts() {
    let mut download = Download::new("https://x/y");
    for _ in 1..MAX_ATTEMPTS {
        let next = download.replied(Reply::CallFailed("no route".to_string()));
        assert!(matches!(next, AfterReply::Wait(seconds) if seconds == RETRY_SECONDS));
        assert!(matches!(download.waited(), AfterWait::Call));
    }
    let next = download.replied(Reply::ReadFailed("reset".to_string()));
    assert!(matches!(next, AfterReply::Wait(_)));
    match download.waited() {
        AfterWait::GiveUp(report) => assert_eq!(
            report,
            "rnp-src: failed to download https://x/y after 5 attempts: attempt 5: read body: reset"
        ),
        AfterWait::Call => panic!("a sixth attempt"),
    }
}

#[test]
fn a_refused_request_is_noted() {
    let mut download = Download::new("u");
    for _ in 1..MAX_ATTEMPTS {
        download.replied(Reply::ReadFailed("x".to_string()));
        download.waited();
    }
    download.replied(Reply::CallFailed("refused".to_string()));
    match download.waited() {
        AfterWait::GiveUp(report) => assert_eq!(
            report,
            "rnp-src: failed to download u after 5 attempts: attempt 5: ureq: refused"
        ),
        AfterWait::Call => panic!("a sixth attempt"),
    }
}

#[test]
fn limits() {
    assert_eq!(MAX_ATTEMPTS, 5);
    assert_eq!(RETRY_SECONDS, 2);
    assert_eq!(MAX_BODY_BYTES, 536870912);
}

#[test]
fn a_failed_command_is_reported_with_its_output() {
    let report = check_run(
        "zlib cmake",
        false,
        "exit status: 1",
        "\"cmake\" \"-S\"",
        &b"out".to_vec(),
        &b"err\xff".to_vec(),
    )
    .unwrap_err();
    assert_eq!(
        report,
        "rnp-src: zlib cmake failed with status exit status: 1\n--- command ---\n\"cmake\" \"-S\"\n--- stdout ---\nout\n--- stderr ---\nerr\u{fffd}"
    );
    assert_eq!(
        report,
        run_failure("zlib cmake", "exit status: 1", "\"cmake\" \"-S\"", "out", "err\u{fffd}")
    );
    assert!(check_run("l", true, "s", "c", &vec![], &vec![]).is_ok());
}

#[test]
fn the_number_of_jobs_is_what_nproc_says_or_four() {
    assert_eq!(nproc(Some(b"16\n".to_vec())), "16");
    assert_eq!(nproc(Some(b" \n".to_vec())), "4");
    assert_eq!(nproc(Some(vec![0xff])), "4");
    assert_eq!(nproc(Some(vec![])), "4");
    assert_eq!(nproc(None), "4");
}

#[test]
fn a_patch_that_does_not_apply_is_reported() {
    assert!(check_backport(&PatchOutcome::Applied).is_ok());
    assert_eq!(
        check_backport(&PatchOutcome::Failed("exit status: 1".to_string())).unwrap_err(),
        "rnp-src: backport patch failed with exit status: 1;              the extracted librnp 0.18.1 tree may be partially patched"
    );
    assert_eq!(
        check_backport(&PatchOutcome::NotRun("not found".to_string())).unwrap_err(),
        "rnp-src: failed to run `patch` (required to apply librnp backports): not found.              Install patch (e.g. pacman -S patch on MSYS2, apt-get install patch on Debian)"
    );
}

#[test]
fn the_botan_package_names_the_built_release() {
    assert_eq!(botan_src::BOTAN_VERSION, "3.13.0");
    assert_eq!(
        botan_config("v=@BOTAN_VERSION@ p=@BOTAN_PREFIX@/lib @BOTAN_VERSION@", "/o/botan"),
        "v=3.13.0 p=/o/botan/lib 3.13.0"
    );
    assert_eq!(botan_config("plain", "/o"), "plain");
}
