use gemini_chat::ident::{decode, encode, fresh_id, ConvId, FormatError};

fn sample_id() -> ConvId {
    ConvId { hi: 0x0123456789abcdef, lo: 0xfedcba9876543210 }
}

#[test]
fn encode_canonical_form() {
    let id = sample_id();
    assert_eq!(encode(&id), "convo-01234567-89ab-cdef-fedc-ba9876543210.txt");
}

#[test]
fn encode_all_ones() {
    let id = ConvId { hi: 0x1111111111111111, lo: 0x1111111111111111 };
    assert_eq!(encode(&id), "convo-11111111-1111-1111-1111-111111111111.txt");
}

#[test]
fn encode_zero() {
    let id = ConvId { hi: 0, lo: 0 };
    assert_eq!(encode(&id), "convo-00000000-0000-0000-0000-000000000000.txt");
}

#[test]
fn round_trip_sample() {
    let id = sample_id();
    assert_eq!(decode(&encode(&id)), Ok(id));
}

#[test]
fn round_trip_extremes() {
    for id in [
        ConvId { hi: 0, lo: 0 },
        ConvId { hi: u64::MAX, lo: u64::MAX },
        ConvId { hi: 0, lo: 1 },
        ConvId { hi: 1 << 63, lo: 0 },
    ] {
        assert_eq!(decode(&encode(&id)), Ok(id));
    }
}

#[test]
fn round_trip_fresh() {
    let id = fresh_id();
    let name = encode(&id);
    assert_eq!(name.len(), 46);
    assert!(name.starts_with("convo-"));
    assert!(name.ends_with(".txt"));
    assert_eq!(decode(&name), Ok(id));
}

#[test]
fn fresh_ids_differ() {
    // 128 random bits: two draws colliding would mean the generator is broken
    let a = fresh_id();
    let b = fresh_id();
    assert_ne!(encode(&a), encode(&b));
}

#[test]
fn decode_known_name() {
    let r = decode("convo-11111111-1111-1111-1111-111111111111.txt");
    assert_eq!(r, Ok(ConvId { hi: 0x1111111111111111, lo: 0x1111111111111111 }));
}

#[test]
fn decode_rejects_missing_prefix() {
    assert_eq!(
        decode("11111111-1111-1111-1111-111111111111.txt"),
        Err(FormatError)
    );
    assert_eq!(
        decode("Convo-11111111-1111-1111-1111-111111111111.txt"),
        Err(FormatError)
    );
}

#[test]
fn decode_rejects_missing_suffix() {
    assert_eq!(decode("convo-11111111-1111-1111-1111-111111111111"), Err(FormatError));
    assert_eq!(
        decode("convo-11111111-1111-1111-1111-111111111111.log"),
        Err(FormatError)
    );
}

#[test]
fn decode_rejects_bad_middle() {
    // not hexadecimal
    assert_eq!(
        decode("convo-g1111111-1111-1111-1111-111111111111.txt"),
        Err(FormatError)
    );
    // uppercase is not the canonical form
    assert_eq!(
        decode("convo-A1111111-1111-1111-1111-111111111111.txt"),
        Err(FormatError)
    );
    // hyphens out of place
    assert_eq!(
        decode("convo-111111111111-1111-1111-111111111111.txt"),
        Err(FormatError)
    );
    // too short, too long, empty
    assert_eq!(decode("convo-1111-1111.txt"), Err(FormatError));
    assert_eq!(
        decode("convo-11111111-1111-1111-1111-1111111111112.txt"),
        Err(FormatError)
    );
    assert_eq!(decode(""), Err(FormatError));
    assert_eq!(decode("convo-.txt"), Err(FormatError));
}
