use hyveos::download::{Download, DownloadError, Import};

const ABC_SHA256: [u8; 32] = [
    0xba, 0x78, 0x16, 0xbf, 0x8f, 0x01, 0xcf, 0xea, 0x41, 0x41, 0x40, 0xde, 0x5d, 0xae, 0x22, 0x23,
    0xb0, 0x03, 0x61, 0xa3, 0x96, 0x17, 0x7a, 0x9c, 0xb4, 0x10, 0xff, 0x61, 0xf2, 0x00, 0x15, 0xad,
];

#[test]
fn import_hashes_the_content_read_in_chunks() {
    let mut import = Import::new();
    let mut buffer = [0u8; 4096];
    buffer[..2].copy_from_slice(b"ab");
    import.read(&buffer, 2);
    buffer[..1].copy_from_slice(b"c");
    import.read(&buffer, 1);
    import.read(&buffer, 0);
    let cid = import.finish();
    assert_eq!(cid.hash, ABC_SHA256);
    let other = {
        let mut i = Import::new();
        i.read(b"abc", 3);
        i.finish()
    };
    assert_eq!(other.hash, cid.hash);
    assert_ne!(other.id, cid.id);
}

#[test]
fn unchanged_download_is_kept() {
    let mut import = Import::new();
    import.read(b"hello mesh", 10);
    let cid = import.finish();
    let mut d = Download::new(10);
    assert_eq!(d.on_read(b"hello", 0), 50);
    assert_eq!(d.on_read(b"hello mesh", 5), 100);
    assert_eq!(d.finish(&cid), Ok(()));
}

#[test]
fn changed_download_is_thrown_away() {
    let mut import = Import::new();
    import.read(b"abc", 3);
    let cid = import.finish();
    let mut d = Download::new(3);
    d.on_read(b"abd", 0);
    match d.finish(&cid) {
        Err(DownloadError::HashMismatch { expected, actual }) => {
            assert_eq!(expected, ABC_SHA256);
            assert_ne!(actual, ABC_SHA256);
        }
        Ok(()) => panic!("a changed download was kept"),
    }
}
