use hyveos::cid::{Cid, CidError};

const ZERO_PATH: &str = "00000000000000000000000000+AAAAAAAAAAAAAAAAAAAAAAAAAAAAAAAAAAAAAAAAAAA=.data";

#[test]
fn path_is_ulid_plus_url_safe_hash_with_data_extension() {
    let cid = Cid { id: 0, hash: [0u8; 32] };
    assert_eq!(cid.to_path(), ZERO_PATH);
    let cid = Cid { id: 1, hash: [0xffu8; 32] };
    let path = cid.to_path();
    assert!(path.starts_with("00000000000000000000000001+"));
    assert!(path.ends_with("=.data"));
    assert!(!path.contains('/'));
    assert_eq!(path.len(), 26 + 1 + 44 + 5);
}

#[test]
fn path_reads_back_as_the_same_cid() {
    let mut hash = [0u8; 32];
    for (i, b) in hash.iter_mut().enumerate() {
        *b = (i * 7 + 3) as u8;
    }
    let cid = Cid { id: 0x0123_4567_89ab_cdef_0011_2233_4455_6677, hash };
    let path = cid.to_path();
    assert_eq!(Cid::to_cid(&path), Ok(cid));
    assert_eq!(Cid::try_to_cid(&path), Some(Ok(cid)));
    let nested = format!("store/{path}");
    assert_eq!(Cid::try_to_cid(&nested), Some(Ok(cid)));
}

#[test]
fn malformed_paths_are_invalid_input() {
    assert_eq!(Cid::to_cid("nope.data"), Err(CidError::InvalidInput));
    assert_eq!(Cid::to_cid("00000000000000000000000000.data"), Err(CidError::InvalidInput));
    assert_eq!(Cid::to_cid("00000000000000000000000000+AAAA.data"), Err(CidError::InvalidInput));
    assert_eq!(Cid::try_to_cid("00000000000000000000000000+!!!!.data"), Some(Err(CidError::InvalidInput)));
}

#[test]
fn key_is_big_endian_id_then_hash() {
    let cid = Cid { id: 0x0102, hash: [9u8; 32] };
    let key = cid.to_key();
    assert_eq!(key.len(), 48);
    assert_eq!(&key[..14], &[0u8; 14]);
    assert_eq!(key[14], 1);
    assert_eq!(key[15], 2);
    assert_eq!(&key[16..], &[9u8; 32]);
}

#[test]
fn ulid_is_crockford_base32_in_either_case() {
    let cid = Cid { id: 0x4d4e385051444a59454234335a413756, hash: [0u8; 32] };
    let path = cid.to_path();
    assert!(path.starts_with("2D9RW50MA499CMAGHM6DD42DTP+"));
    let lower = format!("2d9rw50ma499cmaghm6dd42dtp{}", &path[26..]);
    assert_eq!(Cid::to_cid(&lower), Ok(cid));
    let with_i = format!("2D9RW50MA499CMAGHM6DD42DTI{}", &path[26..]);
    assert_eq!(Cid::to_cid(&with_i), Err(CidError::InvalidInput));
    let top = format!("ZZZZZZZZZZZZZZZZZZZZZZZZZZ{}", &path[26..]);
    assert_eq!(Cid::to_cid(&top), Ok(Cid { id: u128::MAX, hash: [0u8; 32] }));
}
