//! Reading the sole file of an archive.

use std::io::Write;

use flate2::write::GzEncoder;
use flate2::Compression;
use midenup::artifact::ArchiveFormat;
use midenup::install::archive;
use midenup::install::archive::{from_tar, ArchiveError};

const URI: &str = "https://example.invalid/artifact.tar.gz";

/// A gzipped tar archive of `(path, contents)` entries.
fn tarball(entries: &[(&str, &[u8])]) -> Vec<u8> {
    let mut tar = tar::Builder::new(Vec::new());
    for (path, contents) in entries {
        let mut header = tar::Header::new_gnu();
        header.set_size(contents.len() as u64);
        header.set_mode(0o644);
        header.set_cksum();
        tar.append_data(&mut header, path, *contents).unwrap();
    }
    gzipped(tar.into_inner().unwrap())
}

fn gzipped(plain: Vec<u8>) -> Vec<u8> {
    let mut encoder = GzEncoder::new(Vec::new(), Compression::default());
    encoder.write_all(&plain).unwrap();
    encoder.finish().unwrap()
}

fn directory(path: &str) -> tar::Header {
    let mut header = tar::Header::new_gnu();
    header.set_entry_type(tar::EntryType::Directory);
    header.set_size(0);
    header.set_mode(0o755);
    header.set_path(path).unwrap();
    header.set_cksum();
    header
}

/// A directory entry with the binary nested inside it, as most release tarballs are laid out.
fn nested() -> Vec<u8> {
    let mut tar = tar::Builder::new(Vec::new());
    tar.append(&directory("miden-vm-aarch64-apple-darwin/"), std::io::empty())
        .unwrap();

    let mut header = tar::Header::new_gnu();
    header.set_size(6);
    header.set_mode(0o755);
    header.set_cksum();
    tar.append_data(&mut header, "miden-vm-aarch64-apple-darwin/miden-vm", &b"binary"[..])
        .unwrap();

    gzipped(tar.into_inner().unwrap())
}

fn format(spelling: &str) -> ArchiveFormat {
    ArchiveFormat::parse(spelling)
}

#[test]
fn the_sole_file_is_extracted() {
    let extracted = archive::file(&nested(), &format("tar.gz"), URI).expect("should extract");
    assert_eq!(extracted, b"binary", "the directory entry must not count as a file");
}

/// Which of two files is the artifact is not something to guess.
#[test]
fn several_files_is_an_error() {
    let err = archive::file(&tarball(&[("a", b"one"), ("b", b"two")]), &format("tar.gz"), URI)
        .expect_err("must fail");
    assert!(matches!(err, ArchiveError::NonZeroFiles { .. }), "{}", err.to_string());
    assert!(err.to_string().contains(URI), "the message must name the source");
}

#[test]
fn an_archive_with_no_files_is_an_error() {
    let mut tar = tar::Builder::new(Vec::new());
    tar.append(&directory("empty/"), std::io::empty()).unwrap();

    let err = archive::file(&gzipped(tar.into_inner().unwrap()), &format("tar.gz"), URI)
        .expect_err("must fail");
    assert!(matches!(err, ArchiveError::Empty { .. }), "{}", err.to_string());
}

/// Not an archive at all -- an HTML error page served with a 200, say.
#[test]
fn garbage_is_reported_as_a_malformed_archive() {
    let err =
        archive::file(b"<html>not a tarball</html>", &format("tar.gz"), URI).expect_err("must fail");
    assert!(matches!(err, ArchiveError::Malformed { .. }), "{}", err.to_string());
    assert!(err.to_string().contains(URI), "the message must name the source");
}

/// A format only a newer midenup understands never reaches here through a plan, and must not
/// panic if it does.
#[test]
fn an_unsupported_format_is_an_error_not_a_panic() {
    let err = archive::file(b"whatever", &format("zip"), URI).expect_err("must fail");
    assert!(matches!(err, ArchiveError::UnsupportedFormat { .. }), "{}", err.to_string());
}

fn malformed(reason: &str) -> Result<Vec<u8>, ArchiveError> {
    Err(ArchiveError::Malformed { uri: URI.to_string(), reason: reason.to_string() })
}

/// Only what was listed before a second file matters: the rest of the stream is not looked at.
#[test]
fn a_listing_is_read_up_to_the_second_file() {
    let one = || Ok(b"one".to_vec());
    let torn = || Err("torn".to_string());
    let listed = Ok(vec![Ok(false), Ok(true), Ok(false)]);
    assert_eq!(from_tar(&listed, one(), URI), Ok(b"one".to_vec()));
    assert_eq!(from_tar(&listed, Err("short".to_string()), URI), malformed("short"));

    let several = Ok(vec![Ok(true), Ok(true), torn()]);
    assert_eq!(
        from_tar(&several, one(), URI),
        Err(ArchiveError::NonZeroFiles { uri: URI.to_string() })
    );
    assert_eq!(from_tar(&Ok(vec![Ok(true), torn(), Ok(true)]), one(), URI), malformed("torn"));
    assert_eq!(from_tar(&Err("closed".to_string()), one(), URI), malformed("closed"));
    for empty in [vec![], vec![Ok(false)]] {
        assert_eq!(
            from_tar(&Ok(empty), one(), URI),
            Err(ArchiveError::Empty { uri: URI.to_string() })
        );
    }
}

/// Whatever stands before the file, it is the file that is read.
#[test]
fn the_file_is_read_from_behind_other_entries() {
    let mut tar = tar::Builder::new(Vec::new());
    for path in ["a/", "a/b/", "a/b/c/"] {
        tar.append(&directory(path), std::io::empty()).unwrap();
    }
    let contents = [9u8; 2000];
    let mut header = tar::Header::new_gnu();
    header.set_size(contents.len() as u64);
    header.set_mode(0o755);
    header.set_cksum();
    tar.append_data(&mut header, "a/b/c/vm", &contents[..]).unwrap();
    tar.append(&directory("d/"), std::io::empty()).unwrap();
    let body = gzipped(tar.into_inner().unwrap());
    assert_eq!(archive::file(&body, &format("tar.gz"), URI), Ok(contents.to_vec()));
}

/// A file that is cut short cannot be read.
#[test]
fn a_truncated_archive_is_malformed() {
    let whole = tarball(&[("a", &[7u8; 4096])]);
    let err = archive::file(&whole[..whole.len() / 2], &format("tar.gz"), URI).expect_err("must fail");
    assert!(matches!(err, ArchiveError::Malformed { .. }), "{}", err.to_string());
}

#[test]
fn an_unsupported_format_is_named() {
    let err = archive::file(b"whatever", &format("zip"), URI).expect_err("must fail");
    assert_eq!(
        err,
        ArchiveError::UnsupportedFormat { uri: URI.to_string(), format: "zip".to_string() }
    );
}
