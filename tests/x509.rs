use rpki::ber::{Constructed, Error};
use rpki::x509::{update_once, BitString, Name, SignatureAlgorithm, SignedData, Time};

const PUBLIC_KEY: &str = "3082010a0282010100a258c6b05c81c10cd8f4b074b02831bf83076dbed2d66eee63040c89cd8978a662b85036eb863467cd96ba6eb28ecda4b2a85fdeca600899af15660f34bf4ba401b53c8c3f1155946117ae00ba14e532906ac3da7768e82c3d9e18e52a0c3c3a5e750c1e0191853399f51d10e8f2e9dddd80fd73b36960b4992a087a3848ff8a899b05e41696156c636ad575006bdcada8632bc0e3732b33a80c89425d0c0c2f68ed0d8aef77a3ddac32cd124f3dbe929a762b93ef39b28d73cb9751cc34b553468de31742d31b00673ff2553bf7cecbe641832de1667ccdf16c8d98f4d543424b1947a99268985bd1bd3a5e2a69296fe2406e2170ea7941a914925f19355c8f0203010001";
const SIGNATURE: &str = "462acbc2d181ce0ee546644a2c5d2c4eff6cb62636690967e0ff2a76280f930ac0dc91134ea2c5a7025bc1c24bb176c371aecf8967eee8dcf6a742dda95578d44ba502cd8033f87faa22c9cd3e1e84ba214999743f27fcbab9ab5fee235ac2df2730dc41d027811401cabb3b86164979eeb24da50ea0e91072872baf30a73d07678c69cb458f8bb78b72bcd2893733b79d726e37959fe84c96deafcab4305e7816d69e2730209af21e2732cbf7aa4ad402ee179b07919234538541dd2bfffa12716ade16b30d25280fc3554b9bda0f5f3ba1be573ecafafdff9eba94b9b136418dd6a340ea9597383a1d73106c68e9710e160f31a78c17d06f543d9bb8e1e893";

fn unhex(s: &str) -> Vec<u8> {
    (0..s.len()).step_by(2).map(|i| u8::from_str_radix(&s[i..i + 2], 16).unwrap()).collect()
}

fn value(tag: u8, content: &[u8]) -> Vec<u8> {
    let mut v = vec![tag];
    if content.len() < 0x80 {
        v.push(content.len() as u8);
    } else if content.len() > 0xFFFF {
        v.push(0x83);
        v.push((content.len() >> 16) as u8);
        v.push((content.len() >> 8) as u8);
        v.push(content.len() as u8);
    } else {
        v.push(0x82);
        v.push((content.len() >> 8) as u8);
        v.push(content.len() as u8);
    }
    v.extend_from_slice(content);
    v
}

fn utc(text: &str) -> Result<Time, Error> {
    Time::take_from(&mut Constructed::new(value(0x17, text.as_bytes())))
}

fn generalized(text: &str) -> Result<Time, Error> {
    Time::take_from(&mut Constructed::new(value(0x18, text.as_bytes())))
}

const SHA256_RSA: [u8; 9] = [42, 134, 72, 134, 247, 13, 1, 1, 11];

fn algorithm(with_null: bool) -> Vec<u8> {
    let mut c = value(0x06, &SHA256_RSA);
    if with_null {
        c.extend_from_slice(&[0x05, 0x00]);
    }
    value(0x30, &c)
}

#[test]
fn utc_time_years_pivot_at_fifty() {
    assert_eq!(utc("200101000000Z").unwrap().year(), 2020);
    assert_eq!(utc("500101000000Z").unwrap().year(), 1950);
    assert_eq!(utc("491231235959Z").unwrap().year(), 2049);
}

#[test]
fn generalized_time_matches_utc_time() {
    assert_eq!(generalized("20200101000000Z").unwrap(), utc("200101000000Z").unwrap());
    assert_eq!(generalized("20200101000000Z").unwrap().year(), 2020);
}

#[test]
fn time_rejects_invalid_dates_and_terminators() {
    assert_eq!(generalized("20200230000000Z"), Err(Error::Malformed));
    assert_eq!(generalized("20200101000000X"), Err(Error::Malformed));
    assert_eq!(utc("200101000000+"), Err(Error::Malformed));
    assert_eq!(utc("200101240000Z"), Err(Error::Malformed));
    assert_eq!(utc("2001010000000Z"), Err(Error::Malformed));
    assert_eq!(utc("2+0101000000Z"), Err(Error::Malformed));
    assert!(generalized("20240229000000Z").is_ok());
    assert_eq!(generalized("21000229000000Z"), Err(Error::Malformed));
}

#[test]
fn time_rejects_other_tags() {
    let mut cons = Constructed::new(value(0x04, b"200101000000Z"));
    assert_eq!(Time::take_from(&mut cons), Err(Error::Malformed));
}

#[test]
fn take_opt_from_reads_either_format() {
    let mut data = value(0x17, b"200101000000Z");
    data.extend(value(0x18, b"20210101000000Z"));
    data.extend(value(0x02, &[1]));
    let mut cons = Constructed::new(data);
    assert_eq!(Time::take_opt_from(&mut cons).unwrap().unwrap().year(), 2020);
    assert_eq!(Time::take_opt_from(&mut cons).unwrap().unwrap().year(), 2021);
    assert_eq!(Time::take_opt_from(&mut cons), Ok(None));
    assert!(!cons.is_exhausted());
}

#[test]
fn validity_bounds_are_inclusive() {
    let t = utc("200101000000Z").unwrap();
    let same = utc("200101000000Z").unwrap();
    let later = utc("200101000001Z").unwrap();
    let earlier = utc("191231235959Z").unwrap();
    assert!(t.validate_not_before_at(&same).is_ok());
    assert!(t.validate_not_after_at(&same).is_ok());
    assert!(t.validate_not_before_at(&later).is_ok());
    assert!(t.validate_not_before_at(&earlier).is_err());
    assert!(t.validate_not_after_at(&earlier).is_ok());
    assert!(t.validate_not_after_at(&later).is_err());
}

#[test]
fn validity_against_the_clock() {
    let past = utc("000101000000Z").unwrap();
    assert!(past.validate_not_before().is_ok());
    assert!(past.validate_not_after().is_err());
    let future = generalized("99991231235959Z").unwrap();
    assert!(future.validate_not_before().is_err());
    assert!(future.validate_not_after().is_ok());
}

#[test]
fn signature_algorithm_with_and_without_null() {
    let mut cons = Constructed::new(algorithm(true));
    assert_eq!(SignatureAlgorithm::take_from(&mut cons), Ok(SignatureAlgorithm::Sha256WithRsaEncryption));
    assert!(cons.is_exhausted());
    let mut cons = Constructed::new(algorithm(false));
    assert!(SignatureAlgorithm::take_from(&mut cons).is_ok());
}

#[test]
fn signature_algorithm_rejects_other_oids() {
    let sha1_rsa = [42u8, 134, 72, 134, 247, 13, 1, 1, 5];
    let mut c = value(0x06, &sha1_rsa);
    c.extend_from_slice(&[0x05, 0x00]);
    let mut cons = Constructed::new(value(0x30, &c));
    assert_eq!(SignatureAlgorithm::take_from(&mut cons), Err(Error::Malformed));
}

#[test]
fn signature_algorithm_rejects_trailing_values() {
    let mut c = value(0x06, &SHA256_RSA);
    c.extend_from_slice(&[0x05, 0x00, 0x05, 0x00]);
    let mut cons = Constructed::new(value(0x30, &c));
    assert_eq!(SignatureAlgorithm::take_from(&mut cons), Err(Error::Malformed));
    let mut c = value(0x06, &SHA256_RSA);
    c.extend_from_slice(&[0x05, 0x01, 0x00]);
    let mut cons = Constructed::new(value(0x30, &c));
    assert_eq!(SignatureAlgorithm::take_content_from(&mut Constructed::new(c)), Err(Error::Malformed));
    assert_eq!(SignatureAlgorithm::take_from(&mut cons), Err(Error::Malformed));
}

fn signed(tbs: &[u8], signature: &[u8]) -> Vec<u8> {
    let mut c = tbs.to_vec();
    c.extend(algorithm(true));
    let mut bits = vec![0u8];
    bits.extend_from_slice(signature);
    c.extend(value(0x03, &bits));
    value(0x30, &c)
}

#[test]
fn signed_data_keeps_the_encoding() {
    let tbs = [0x30, 0x03, 0x02, 0x01, 0x05];
    let mut cons = Constructed::new(signed(&tbs, &[0xAB, 0xCD]));
    let sd = SignedData::take_from(&mut cons).unwrap();
    assert_eq!(sd.data(), &tbs[..]);
    assert_eq!(sd.signature_algorithm(), SignatureAlgorithm::Sha256WithRsaEncryption);
    assert!(cons.is_exhausted());
}

#[test]
fn signed_data_rejects_missing_parts() {
    let c = value(0x02, &[5]);
    let mut cons = Constructed::new(value(0x30, &c));
    assert_eq!(SignedData::take_from(&mut cons), Err(Error::Malformed));
}

#[test]
fn signature_verifies_over_the_captured_bytes() {
    let tbs = [0x30, 0x03, 0x02, 0x01, 0x05];
    let key = unhex(PUBLIC_KEY);
    let sig = unhex(SIGNATURE);
    let sd = SignedData::take_from(&mut Constructed::new(signed(&tbs, &sig))).unwrap();
    assert!(sd.verify_signature(&key).is_ok());
    let other = [0x30, 0x03, 0x02, 0x01, 0x06];
    let sd = SignedData::take_from(&mut Constructed::new(signed(&other, &sig))).unwrap();
    assert!(sd.verify_signature(&key).is_err());
    let mut bad = sig.clone();
    bad[10] ^= 1;
    let sd = SignedData::take_from(&mut Constructed::new(signed(&tbs, &bad))).unwrap();
    assert!(sd.verify_signature(&key).is_err());
    assert!(sd.verify_signature(&[1, 2, 3]).is_err());
}

#[test]
fn bit_string_unused_bits() {
    let mut cons = Constructed::new(value(0x03, &[0x03, 0xF8]));
    let b = BitString::take_from(&mut cons).unwrap();
    assert_eq!(b.unused(), 3);
    assert_eq!(b.octet_slice(), None);
    let mut cons = Constructed::new(value(0x03, &[0x08, 0xF8]));
    assert_eq!(BitString::take_from(&mut cons), Err(Error::Malformed));
    let mut cons = Constructed::new(value(0x03, &[0x01]));
    assert_eq!(BitString::take_from(&mut cons), Err(Error::Malformed));
}

#[test]
fn name_keeps_sequence_content() {
    let inner = value(0x31, &value(0x13, b"RPKI"));
    let mut cons = Constructed::new(value(0x30, &inner));
    let name = Name::take_from(&mut cons).unwrap();
    assert_eq!(name.as_slice(), &inner[..]);
    let mut cons = Constructed::new(value(0x31, &inner));
    assert_eq!(Name::take_from(&mut cons), Err(Error::Malformed));
}

#[test]
fn long_form_lengths() {
    let content = vec![7u8; 300];
    let mut cons = Constructed::new(value(0x04, &content));
    assert_eq!(cons.take_value(), Ok((0x04, content)));
    let mut cons = Constructed::new(vec![0x04, 0x81, 0x02, 1, 2]);
    assert_eq!(cons.take_value(), Ok((0x04, vec![1, 2])));
    let mut cons = Constructed::new(vec![0x04, 0x05, 1, 2]);
    assert_eq!(cons.take_value(), Err(Error::Malformed));
}

#[test]
fn long_form_lengths_beyond_two_bytes() {
    let content = vec![9u8; 70000];
    let mut data = vec![0x04, 0x83, 0x01, 0x11, 0x70];
    data.extend_from_slice(&content);
    data.extend_from_slice(&[0x05, 0x00]);
    let mut cons = Constructed::new(data);
    assert_eq!(cons.take_value(), Ok((0x04, content)));
    assert_eq!(cons.take_value(), Ok((0x05, vec![])));
    assert!(cons.is_exhausted());
    let mut data = vec![0x04, 0x88, 0, 0, 0, 0, 0, 0, 0, 2, 7, 8];
    let mut cons = Constructed::new(data.clone());
    assert_eq!(cons.take_value(), Ok((0x04, vec![7, 8])));
    data[2] = 0xFF;
    let mut cons = Constructed::new(data);
    assert_eq!(cons.take_value(), Err(Error::Malformed));
    let mut cons = Constructed::new(vec![0x04, 0x80, 1, 0, 0]);
    assert_eq!(cons.take_value(), Err(Error::Malformed));
    let mut cons = Constructed::new(vec![0x04, 0x89, 0, 0, 0, 0, 0, 0, 0, 0, 1, 7]);
    assert_eq!(cons.take_value(), Err(Error::Malformed));
    let mut cons = Constructed::new(vec![0x04, 0x83, 0x01, 0x00]);
    assert_eq!(cons.take_value(), Err(Error::Malformed));
}

#[test]
fn large_signed_data_decodes() {
    let mut tbs_content = vec![0x04, 0x83, 0x01, 0x00, 0x00];
    tbs_content.extend(vec![1u8; 0x10000]);
    let tbs = value(0x30, &tbs_content);
    let data = signed(&tbs, &[0xAB]);
    let sd = SignedData::take_from(&mut Constructed::new(data)).unwrap();
    assert_eq!(sd.data(), &tbs[..]);
}

#[test]
fn update_once_sets_only_once() {
    let mut slot: Option<u32> = None;
    assert_eq!(update_once(&mut slot, || Ok(5)), Ok(()));
    assert_eq!(slot, Some(5));
    assert_eq!(update_once(&mut slot, || Ok(6)), Err(Error::Malformed));
    assert_eq!(slot, Some(5));
    let mut empty: Option<u32> = None;
    assert_eq!(update_once(&mut empty, || Err(Error::Malformed)), Err(Error::Malformed));
    assert_eq!(empty, None);
}
