use azalea_bot::cipher::decrypt_bytes;
use azalea_bot::key_cache::{cache_candidates, decrypt_and_parse_cache};

const FIXED: &[u8] = b"azalea-auth-cache-obfuscation-key";

fn compact() -> Vec<u8> {
    br#"[{"cache_key":"me@example.org","msa":{"expires_at":5}}]"#.to_vec()
}

fn pretty() -> Vec<u8> {
    b"[\n  {\n    \"email\": \"me@example.org\"\n  }\n]".to_vec()
}

fn read(contents: &[u8], created_secs: Option<u64>) -> Option<Vec<serde_json::Value>> {
    decrypt_and_parse_cache(contents, created_secs, |b: &[u8]| {
        serde_json::from_slice::<Vec<serde_json::Value>>(b).ok()
    })
}

fn email(contents: &[u8], created_secs: Option<u64>) -> Option<String> {
    let list = read(contents, created_secs)?;
    let first = list.first()?;
    let value = first.get("cache_key").or(first.get("email"))?;
    value.as_str().map(|s| s.to_string())
}

#[test]
fn key_is_repeated() {
    assert_eq!(decrypt_bytes(&[1, 2, 3, 4, 5], &[1, 0xff]), vec![0, 0xfd, 2, 0xfb, 4]);
    assert_eq!(decrypt_bytes(&[1, 2, 3], &[]), vec![1, 2, 3]);
    assert_eq!(decrypt_bytes(&[], &[9]), Vec::<u8>::new());
}

#[test]
fn key_applied_twice_gives_the_bytes_back() {
    for key in [&b""[..], b"0", b"1700000000", FIXED] {
        assert_eq!(decrypt_bytes(&decrypt_bytes(&compact(), key), key), compact());
    }
    assert_ne!(decrypt_bytes(&compact(), FIXED), compact());
}

#[test]
fn plain_file_is_read() {
    assert_eq!(email(&compact(), None).unwrap(), "me@example.org");
    assert_eq!(email(&pretty(), Some(1_700_000_000)).unwrap(), "me@example.org");
}

#[test]
fn file_under_the_fixed_key_is_read() {
    let file = decrypt_bytes(&pretty(), FIXED);
    assert_eq!(email(&file, None).unwrap(), "me@example.org");
}

#[test]
fn file_under_its_creation_time_is_read() {
    let file = decrypt_bytes(b"[{\"email\": \"a@b\"}]", b"1234567");
    assert_eq!(email(&file, Some(1_234_567)).unwrap(), "a@b");
    assert_eq!(email(&file, Some(1_234_568)), None);
    assert_eq!(email(&file, None), None);
}

#[test]
fn file_under_zero_is_read() {
    let file = decrypt_bytes(b"[{\"email\": \"a@b\"}]", b"0");
    assert_eq!(email(&file, None).unwrap(), "a@b");
    assert_eq!(email(&file, Some(42)).unwrap(), "a@b");
}

#[test]
fn timestamp_is_recovered_from_either_start() {
    for plain in [compact(), pretty()] {
        let file = decrypt_bytes(&plain, b"1712345678");
        assert_eq!(email(&file, None).unwrap(), "me@example.org");
        assert_eq!(email(&file, Some(1_799_999_999)).unwrap(), "me@example.org");
    }
}

#[test]
fn ten_digits_with_leading_zeros_are_recovered() {
    for plain in [compact(), pretty()] {
        let file = decrypt_bytes(&plain, b"0000000042");
        assert_eq!(email(&file, None).unwrap(), "me@example.org");
    }
}

#[test]
fn other_files_are_turned_down() {
    assert!(read(b"", None).is_none());
    assert!(read(b"no json", Some(3)).is_none());
    let nine = decrypt_bytes(&compact(), b"171234567");
    assert!(read(&nine, None).is_none());
    let other_start = decrypt_bytes(b"[ {\"cache_key\":\"a@b\"} ]", b"1712345678");
    assert!(read(&other_start, None).is_none());
}

#[test]
fn candidates_come_in_order() {
    let file = decrypt_bytes(&pretty(), b"1712345678");
    let list = cache_candidates(&file, Some(77));
    assert_eq!(list.len(), 5);
    assert_eq!(list[0], file);
    assert_eq!(list[1], decrypt_bytes(&file, FIXED));
    assert_eq!(list[2], decrypt_bytes(&file, b"77"));
    assert_eq!(list[3], decrypt_bytes(&file, b"0"));
    assert_eq!(list[4], pretty());
    assert_eq!(cache_candidates(b"short", None).len(), 3);
}

#[test]
fn first_answer_counts() {
    let all = decrypt_and_parse_cache(&compact(), Some(5), |b: &[u8]| Some(b.to_vec()));
    assert_eq!(all, Some(compact()));
    let second = decrypt_and_parse_cache(&compact(), Some(5), |b: &[u8]| {
        if b == compact().as_slice() {
            None
        } else {
            Some(b.to_vec())
        }
    });
    assert_eq!(second, Some(decrypt_bytes(&compact(), FIXED)));
    let none: Option<u8> = decrypt_and_parse_cache(&compact(), Some(5), |_b: &[u8]| None);
    assert_eq!(none, None);
}
