use starify::client::{unique_texts, PackedClient, Token};
use starify::codec::{decode, encode};

fn sample() -> PackedClient {
    PackedClient {
        client_id: "id".to_string(),
        client_secret: "secret".to_string(),
        user_id: "ann".to_string(),
        redirect_uri: "http://127.0.0.1:3000/authorize".to_string(),
        scopes: vec!["user-top-read".to_string(), "user-follow-read".to_string()],
        token: Token {
            access_token: "AT-1".to_string(),
            refresh_token: Some("RT-1".to_string()),
            expires_in: 3600,
            expires_at: Some(1700003600),
            scopes: vec!["user-top-read".to_string()],
        },
    }
}

fn empty() -> PackedClient {
    PackedClient {
        client_id: String::new(),
        client_secret: String::new(),
        user_id: String::new(),
        redirect_uri: String::new(),
        scopes: Vec::new(),
        token: Token {
            access_token: String::new(),
            refresh_token: None,
            expires_in: 0,
            expires_at: None,
            scopes: Vec::new(),
        },
    }
}

fn adler(bytes: &[u8]) -> u64 {
    let mut low: u64 = 1;
    let mut high: u64 = 0;
    for b in bytes {
        low = (low + *b as u64) % 65521;
        high = (high + low) % 65521;
    }
    high * 65536 + low
}

fn reseal(mut payload: Vec<u8>) -> Vec<u8> {
    let sum = adler(&payload);
    payload.extend_from_slice(&sum.to_le_bytes());
    payload
}

#[test]
fn decoding_an_encoding_gives_the_credential_back() {
    let client = sample();
    assert_eq!(decode(&encode(&client)), Some(sample()));
}

#[test]
fn round_trip_of_an_empty_credential() {
    assert_eq!(decode(&encode(&empty())), Some(empty()));
}

#[test]
fn round_trip_keeps_text_that_is_not_ascii() {
    let mut client = sample();
    client.user_id = "zoë-日本-🎵".to_string();
    client.token.refresh_token = Some("é".to_string());
    client.token.expires_in = -1;
    client.token.expires_at = Some(i64::MIN);
    let back = decode(&encode(&client)).unwrap();
    assert_eq!(back.user_id, "zoë-日本-🎵");
    assert_eq!(back.token.refresh_token, Some("é".to_string()));
    assert_eq!(back.token.expires_in, -1);
    assert_eq!(back.token.expires_at, Some(i64::MIN));
}

#[test]
fn encoding_of_an_empty_credential_is_exact() {
    let mut expected: Vec<u8> = vec![0x53, 0x54, 0x46, 0x31];
    // client_id, client_secret, user_id, redirect_uri: four empty texts
    expected.extend_from_slice(&[0u8; 32]);
    // scopes: an empty list
    expected.extend_from_slice(&[0u8; 8]);
    // access_token: an empty text
    expected.extend_from_slice(&[0u8; 8]);
    // refresh_token: none
    expected.push(0);
    // expires_in: zero
    expected.extend_from_slice(&[0u8; 8]);
    // expires_at: none
    expected.push(0);
    // token scopes: an empty list
    expected.extend_from_slice(&[0u8; 8]);
    let expected = reseal(expected);
    assert_eq!(encode(&empty()), expected);
    assert_eq!(expected.len(), 4 + 32 + 8 + 8 + 1 + 8 + 1 + 8 + 8);
}

#[test]
fn encoding_writes_lengths_little_endian_before_the_text() {
    let mut client = empty();
    client.client_id = "ab".to_string();
    let bytes = encode(&client);
    assert_eq!(&bytes[0..4], &[0x53, 0x54, 0x46, 0x31]);
    assert_eq!(&bytes[4..12], &[2, 0, 0, 0, 0, 0, 0, 0]);
    assert_eq!(&bytes[12..14], b"ab");
}

#[test]
fn checksum_of_the_payload_ends_the_record() {
    let bytes = encode(&sample());
    let end = bytes.len() - 8;
    assert_eq!(&bytes[end..], &adler(&bytes[..end]).to_le_bytes());
}

#[test]
fn every_single_damaged_byte_is_refused() {
    let bytes = encode(&sample());
    for i in 0..bytes.len() {
        let mut damaged = bytes.clone();
        damaged[i] ^= 0x01;
        assert_eq!(decode(&damaged), None, "byte {}", i);
    }
}

#[test]
fn truncated_records_are_refused() {
    let bytes = encode(&sample());
    for n in 0..bytes.len() {
        assert_eq!(decode(&bytes[..n]), None, "length {}", n);
    }
}

#[test]
fn trailing_bytes_are_refused() {
    let bytes = encode(&sample());
    let mut payload = bytes[..bytes.len() - 8].to_vec();
    payload.push(0);
    assert_eq!(decode(&reseal(payload)), None);
}

#[test]
fn wrong_marker_is_refused() {
    let bytes = encode(&sample());
    let mut payload = bytes[..bytes.len() - 8].to_vec();
    payload[3] = 0x32;
    assert_eq!(decode(&reseal(payload)), None);
}

#[test]
fn text_that_is_not_utf8_is_refused() {
    let mut client = empty();
    client.client_id = "ab".to_string();
    let bytes = encode(&client);
    let mut payload = bytes[..bytes.len() - 8].to_vec();
    payload[12] = 0xff;
    assert_eq!(decode(&reseal(payload)), None);
}

#[test]
fn unknown_tag_is_refused() {
    let bytes = encode(&empty());
    let mut payload = bytes[..bytes.len() - 8].to_vec();
    // the tag of the refresh token
    payload[4 + 32 + 8 + 8] = 2;
    assert_eq!(decode(&reseal(payload)), None);
}

#[test]
fn resealed_payload_reads_as_what_it_says() {
    let bytes = encode(&sample());
    let payload = bytes[..bytes.len() - 8].to_vec();
    assert_eq!(decode(&reseal(payload)), Some(sample()));
}

#[test]
fn count_larger_than_the_record_is_refused() {
    let bytes = encode(&empty());
    let mut payload = bytes[..bytes.len() - 8].to_vec();
    // the count of the scopes
    payload[4 + 32] = 0xff;
    payload[4 + 32 + 7] = 0xff;
    assert_eq!(decode(&reseal(payload)), None);
}

#[test]
fn cloned_credential_is_equal() {
    let client = sample();
    assert_eq!(client.clone(), sample());
    assert_eq!(client.token.clone(), sample().token);
}

#[test]
fn token_without_expiry_is_always_due() {
    let mut token = sample().token;
    assert!(!token.is_expired(1700003599));
    assert!(token.is_expired(1700003600));
    assert!(token.is_expired(1700003601));
    token.expires_at = None;
    assert!(token.is_expired(0));
}

#[test]
fn packing_fills_in_what_a_client_lacks() {
    let packed = PackedClient::pack(
        "ann".to_string(),
        "id".to_string(),
        None,
        "http://h/authorize".to_string(),
        vec!["a".to_string()],
        None,
        77,
    );
    assert_eq!(packed.client_secret, "");
    assert_eq!(packed.user_id, "ann");
    assert_eq!(packed.scopes, vec!["a".to_string()]);
    assert_eq!(packed.token, Token::blank(77));
    assert_eq!(packed.token.access_token, "");
    assert_eq!(packed.token.refresh_token, None);
    assert_eq!(packed.token.expires_in, 0);
    assert_eq!(packed.token.expires_at, Some(77));
    assert!(packed.token.is_expired(77));
    assert!(!packed.token.is_expired(76));
}

#[test]
fn packing_keeps_what_a_client_holds() {
    let packed = PackedClient::pack(
        "ann".to_string(),
        "id".to_string(),
        Some("secret".to_string()),
        "http://127.0.0.1:3000/authorize".to_string(),
        vec!["user-top-read".to_string(), "user-follow-read".to_string()],
        Some(sample().token),
        0,
    );
    assert_eq!(packed, sample());
}

#[test]
fn repeats_are_taken_out_in_order() {
    let texts = |items: &[&str]| items.iter().map(|t| t.to_string()).collect::<Vec<_>>();
    assert_eq!(unique_texts(texts(&["a", "b", "a", "c", "b"])), texts(&["a", "b", "c"]));
    assert_eq!(unique_texts(texts(&["a", "b"])), texts(&["a", "b"]));
    assert_eq!(unique_texts(texts(&["a", "a", "a"])), texts(&["a"]));
    assert_eq!(unique_texts(Vec::new()), Vec::<String>::new());
}

#[test]
fn normalising_makes_scopes_sets() {
    let mut client = sample();
    client.scopes.push("user-top-read".to_string());
    client.token.scopes.push("user-top-read".to_string());
    assert_eq!(client.normalized(), sample());
    assert_eq!(sample().normalized(), sample());
}

#[test]
fn packing_leaves_repeated_scopes_out() {
    let packed = PackedClient::pack(
        "ann".to_string(),
        "id".to_string(),
        None,
        "r".to_string(),
        vec!["a".to_string(), "a".to_string(), "b".to_string()],
        None,
        0,
    );
    assert_eq!(packed.scopes, vec!["a".to_string(), "b".to_string()]);
}
