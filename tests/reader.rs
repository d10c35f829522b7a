use rman::fb::{Ptr, Table};
use rman::hash::truncate_digest;
use rman::raw::{verify_filename, Header};
use rman::{Error, HashType};
use sha2::Digest;

fn hkdf_reference(input: &[u8]) -> u64 {
    let key = sha2::Sha256::digest(input);
    let mut ipad = [0x36u8; 64];
    let mut opad = [0x5Cu8; 64];
    for i in 0..32 {
        ipad[i] ^= key[i];
        opad[i] ^= key[i];
    }
    let inner = sha2::Sha256::new().chain_update(ipad).chain_update(1u32.to_be_bytes()).finalize();
    let mut buf = sha2::Sha256::new().chain_update(opad).chain_update(inner).finalize();
    let mut result = [0u8; 8];
    result.copy_from_slice(&buf[..8]);
    for _ in 0..31 {
        let inner = sha2::Sha256::new().chain_update(ipad).chain_update(buf).finalize();
        buf = sha2::Sha256::new().chain_update(opad).chain_update(inner).finalize();
        for i in 0..8 {
            result[i] ^= buf[i];
        }
    }
    u64::from_le_bytes(result)
}

#[test]
fn sha256_truncates_to_first_eight_bytes() {
    assert_eq!(HashType::SHA256.compute(b"abc"), 0xeacf018fbf1678ba);
    assert_eq!(HashType::SHA256.compute(b""), 0x141cfc9842c4b0e3);
}

#[test]
fn sha512_truncates_to_first_eight_bytes() {
    assert_eq!(HashType::SHA512.compute(b"abc"), 0xba7a6193a135afdd);
}

#[test]
fn none_hash_is_zero() {
    assert_eq!(HashType::NONE.compute(b"anything"), 0);
    assert_eq!(HashType::default(), HashType::NONE);
}

#[test]
fn hkdf_matches_iterated_construction() {
    let mut seeded = [0u8; 64];
    let mut x: u32 = 12345;
    for b in seeded.iter_mut() {
        x = x.wrapping_mul(1103515245).wrapping_add(12345);
        *b = (x >> 16) as u8;
    }
    for input in [&b""[..], &b"abc"[..], &seeded[..]] {
        let h = HashType::HKDF.compute(input);
        assert_eq!(h, hkdf_reference(input));
        assert_ne!(h, HashType::SHA256.compute(input));
    }
}

#[test]
fn hkdf_regression_vectors() {
    let mut seeded = [0u8; 64];
    let mut x: u32 = 12345;
    for b in seeded.iter_mut() {
        x = x.wrapping_mul(1103515245).wrapping_add(12345);
        *b = (x >> 16) as u8;
    }
    assert_eq!(HashType::HKDF.compute(b""), 0xeb8fee76a706dbdf);
    assert_eq!(HashType::HKDF.compute(b"abc"), 0x3d4eda0ab8cf0d24);
    assert_eq!(HashType::HKDF.compute(&seeded), 0x16c3c407c522806f);
    assert_eq!(HashType::SHA512.compute(b""), 0xbdb8ef7e35e183cf);
}

#[test]
fn truncate_digest_reads_little_endian() {
    assert_eq!(truncate_digest(&[1, 2, 3, 4, 5, 6, 7, 8, 9]), 0x0807060504030201);
}

#[test]
fn hash_type_from_byte() {
    assert_eq!(HashType::try_from(0), Ok(HashType::NONE));
    assert_eq!(HashType::try_from(1), Ok(HashType::SHA512));
    assert_eq!(HashType::try_from(2), Ok(HashType::SHA256));
    assert_eq!(HashType::try_from(3), Ok(HashType::HKDF));
    assert_eq!(HashType::try_from(4), Err(Error::BadHashType));
}

#[test]
fn cursor_bounds() {
    let data = [1u8, 2, 3, 4, 5, 6, 7, 8];
    assert!(Ptr::new(&data, 8).is_ok());
    assert_eq!(Ptr::new(&data, 9).err(), Some(Error::IndexOutOfRange));
    let p = Ptr::new(&data, 4).unwrap();
    assert_eq!(p.add_offset(4).unwrap().index, 8);
    assert_eq!(p.add_offset(5).err(), Some(Error::OffsetOverflow));
    assert!(p.add_relative(0).unwrap().is_none());
    assert_eq!(p.add_relative(-4).unwrap().unwrap().index, 0);
    assert_eq!(p.add_relative(4).unwrap().unwrap().index, 8);
    assert_eq!(p.add_relative(-5).err(), Some(Error::RelativeUnderflow));
    assert_eq!(p.add_relative(5).err(), Some(Error::RelativeOverflow));
    assert_eq!(p.add_relative(isize::MIN).err(), Some(Error::RelativeUnderflow));
}

#[test]
fn typed_reads_are_little_endian() {
    let data = [0xFEu8, 0xFF, 0xFF, 0xFF, 0x01, 0, 0, 0, 0x80];
    let p = Ptr::new(&data, 0).unwrap();
    assert_eq!(p.get::<u32>(), Ok(0xFFFF_FFFE));
    assert_eq!(p.get::<i32>(), Ok(-2));
    assert_eq!(p.get::<u16>(), Ok(0xFFFE));
    assert_eq!(p.get::<i16>(), Ok(-2));
    assert_eq!(p.get::<u8>(), Ok(0xFE));
    assert_eq!(p.get::<i8>(), Ok(-2));
    assert_eq!(p.get::<u64>(), Ok(0x0000_0001_FFFF_FFFE));
    assert_eq!(p.get::<i64>(), Ok(0x0000_0001_FFFF_FFFE));
    assert_eq!(p.get::<bool>(), Ok(true));
    let last = Ptr::new(&data, 8).unwrap();
    assert_eq!(last.get::<i8>(), Ok(-128));
    assert_eq!(last.get::<u16>(), Err(Error::ReadNum));
    assert_eq!(Ptr::new(&data, 9).unwrap().get::<bool>(), Err(Error::ReadNum));
}

/// A buffer holding, at 0, a reference to a table with fields
/// `[u32 7, absent, u32 9]`.
fn one_table() -> Vec<u8> {
    let mut b = Vec::new();
    b.extend_from_slice(&14i32.to_le_bytes()); // root -> record at 14
    // vtable at 4: size 10, record size 12, offsets 4, 0, 8
    for v in [10u16, 12, 4, 0, 8] {
        b.extend_from_slice(&v.to_le_bytes());
    }
    b.extend_from_slice(&10i32.to_le_bytes()); // record at 14, vtable at 14 - 10 = 4
    b.extend_from_slice(&7u32.to_le_bytes());
    b.extend_from_slice(&9u32.to_le_bytes());
    b
}

#[test]
fn table_fields() {
    let data = one_table();
    let t = Table::from_ptr(Ptr::new(&data, 0).unwrap()).unwrap();
    assert_eq!(t.offset.index, 14);
    assert_eq!(t.fields, vec![4, 0, 8]);
    assert_eq!(t.get_ptr(0).unwrap().unwrap().index, 18);
    assert!(t.get_ptr(1).unwrap().is_none());
    assert!(t.get_ptr(7).unwrap().is_none());
    assert_eq!(t.get::<u32>(0), Ok(Some(7)));
    assert_eq!(t.get::<u32>(1), Ok(None));
    assert_eq!(t.get_or_default::<u32>(2), Ok(9));
    assert_eq!(t.get_or_default::<u32>(1), Ok(0));
    assert_eq!(t.get_or_default::<u64>(2), Err(Error::ReadNum));
    assert_eq!(t.get_or_error::<u32>(0), Ok(7));
    assert_eq!(t.get_or_error::<u32>(1), Err(Error::NullField));
}

#[test]
fn table_errors() {
    let mut data = one_table();
    data[4..6].copy_from_slice(&2u16.to_le_bytes());
    assert_eq!(Table::from_ptr(Ptr::new(&data, 0).unwrap()).err(), Some(Error::VtableTooSmall));
    let null = [0u8; 8];
    assert_eq!(Table::from_ptr(Ptr::new(&null, 0).unwrap()).err(), Some(Error::NullTable));
    let mut no_vtable = one_table();
    no_vtable[14..18].copy_from_slice(&0i32.to_le_bytes());
    assert_eq!(Table::from_ptr(Ptr::new(&no_vtable, 0).unwrap()).err(), Some(Error::NullVtable));
}

#[test]
fn strings_and_vectors() {
    let mut b = Vec::new();
    b.extend_from_slice(&8i32.to_le_bytes()); // string ref at 0 -> 8
    b.extend_from_slice(&0i32.to_le_bytes()); // null ref at 4
    b.extend_from_slice(&3u32.to_le_bytes());
    b.extend_from_slice(b"abc");
    let p = Ptr::new(&b, 0).unwrap();
    assert_eq!(p.get::<String>(), Ok("abc".to_string()));
    assert_eq!(Ptr::new(&b, 4).unwrap().get::<String>(), Ok(String::new()));
    assert_eq!(Ptr::new(&b, 4).unwrap().get::<Vec<u64>>(), Ok(vec![]));
    assert_eq!(p.get::<Vec<u8>>(), Ok(vec![b'a', b'b', b'c']));
    assert_eq!(p.get::<Vec<u16>>(), Err(Error::VectorStorage));
    let mut bad = b.clone();
    bad[12] = 0xFF;
    assert_eq!(Ptr::new(&bad, 0).unwrap().get::<String>(), Err(Error::StrEncoding));
    let mut long = b.clone();
    long[8] = 4;
    assert_eq!(Ptr::new(&long, 0).unwrap().get::<String>(), Err(Error::StrData));
}

#[test]
fn filename_rule() {
    assert!(verify_filename("Game Data_1.2+x-y").is_ok());
    assert!(verify_filename("übung").is_ok());
    assert!(verify_filename("").is_ok());
    assert_eq!(verify_filename("."), Err(Error::DotName));
    assert_eq!(verify_filename(".."), Err(Error::DotName));
    assert!(verify_filename("...").is_ok());
    assert_eq!(verify_filename("a/b"), Err(Error::IllegalChar));
    assert_eq!(verify_filename("a\\b"), Err(Error::IllegalChar));
}

#[test]
fn header_fields() {
    let mut b = Vec::new();
    b.extend_from_slice(b"RMAN");
    b.extend_from_slice(&[2, 1]);
    b.extend_from_slice(&0x0203u16.to_le_bytes());
    b.extend_from_slice(&28u32.to_le_bytes());
    b.extend_from_slice(&5u32.to_le_bytes());
    b.extend_from_slice(&0x1122334455667788u64.to_le_bytes());
    b.extend_from_slice(&9u32.to_le_bytes());
    let h = Header::read(&b).unwrap();
    assert_eq!(&h.magic, b"RMAN");
    assert_eq!(h.version, [2, 1]);
    assert_eq!(h.flags, 0x0203);
    assert_eq!(h.offset, 28);
    assert_eq!(h.size_compressed, 5);
    assert_eq!(h.checksum, 0x1122334455667788);
    assert_eq!(h.size_uncompressed, 9);
    assert_eq!(Header::read(&b[..27]).err(), Some(Error::HeaderShort));
}
