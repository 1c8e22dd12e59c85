use path_abs::codec::{check_escapes, decode, encode};
use path_abs::{Kind, PathAbs, PathDir, PathError, PathFile, Probe};

fn words(alphabet: &[char], max_len: usize) -> Vec<String> {
    let mut all = vec![String::new()];
    let mut last = vec![String::new()];
    for _ in 0..max_len {
        let mut next = Vec::new();
        for w in &last {
            for c in alphabet {
                let mut longer = w.clone();
                longer.push(*c);
                next.push(longer);
            }
        }
        all.extend(next.iter().cloned());
        last = next;
    }
    all
}

#[test]
fn encode_writes_escapes() {
    assert_eq!(encode(b"/home/user"), "/home/user");
    assert_eq!(encode(b"foo\xFF\nbar"), r"foo\xFF\nbar");
    assert_eq!(encode(b"a\\b"), r"a\\b");
    assert_eq!(encode(b"\t\r\x00\x7f"), r"\t\r\x00\x7F");
    assert_eq!(encode("/tmp/\u{e9}t\u{e9}".as_bytes()), "/tmp/\u{e9}t\u{e9}");
    assert_eq!(encode(b""), "");
}

#[test]
fn decode_reads_escapes() {
    assert_eq!(decode(r"\x41"), Ok(b"A".to_vec()));
    assert_eq!(decode(r"foo\xFF\nbar"), Ok(b"foo\xFF\nbar".to_vec()));
    assert_eq!(decode(r"a\\b\t"), Ok(b"a\\b\t".to_vec()));
    assert_eq!(decode(r"\u0000e9"), Ok("\u{e9}".as_bytes().to_vec()));
    assert_eq!(decode("/tmp/\u{e9}"), Ok("/tmp/\u{e9}".as_bytes().to_vec()));
    assert_eq!(decode(""), Ok(Vec::new()));
}

#[test]
fn decode_fails_on_what_is_no_stfu8() {
    for bad in [r"foo\bar", r"foo\", r"\x", r"\x1", r"\xax", r"\u12345", r"\u00DEED", r"\uzzzzzz"] {
        assert_eq!(decode(bad), Err(PathError::Decode), "{:?}", bad);
    }
}

#[test]
fn decode_fails_where_an_escape_ends_inside_a_character() {
    for bad in ["\\x1\u{e9}", "\\x\u{20ac}", "\\u12345\u{e9}", "\\u\u{e9}\u{e9}\u{20ac}", "a\\\\\\x0\u{1F600}"] {
        assert!(!check_escapes(bad), "{:?}", bad);
        assert_eq!(decode(bad), Err(PathError::Decode), "{:?}", bad);
    }
}

#[test]
fn escapes_that_fit_are_let_through() {
    for good in ["", "plain", r"\x41", r"\xzz", r"\", r"\q", "\\x\u{e9}", "\\\\x\u{20ac}", r"\x4", "\\u\u{e9}\u{e9}\u{e9}"] {
        assert!(check_escapes(good), "{:?}", good);
    }
}

#[test]
fn decode_agrees_with_stfu8_wherever_escapes_fit() {
    for w in words(&['\\', 'x', 'u', '4', '\u{e9}', '\u{20ac}'], 7) {
        if check_escapes(&w) {
            let direct = stfu8::decode_u8(&w).ok();
            assert_eq!(decode(&w).ok(), direct, "{:?}", w);
        } else {
            assert_eq!(decode(&w), Err(PathError::Decode), "{:?}", w);
        }
    }
}

#[test]
fn every_byte_string_comes_back() {
    for a in 0..=255u8 {
        for b in [0u8, b'/', b'\\', b'x', b'4', 0x80, 0xC3, 0xA9, 0xE2, 0xF0, 0xFF] {
            for bytes in [vec![a], vec![a, b], vec![b, a], vec![a, b, a], vec![b, b'\\', a, b]] {
                let text = encode(&bytes);
                assert!(check_escapes(&text), "{:?}", bytes);
                assert_eq!(decode(&text), Ok(bytes.clone()), "{:?}", bytes);
            }
        }
    }
}

#[test]
fn paths_round_trip_through_text() {
    let genuine = PathAbs::new(Ok(b"/data/caf\xC3\xA9/\xFFraw\\name".to_vec())).unwrap();
    let text = genuine.to_stfu8();
    assert_eq!(text, "/data/caf\u{e9}/\\xFFraw\\\\name");
    assert_eq!(PathAbs::from_stfu8(&text), Ok(genuine.clone()));
    assert_eq!(PathAbs::new(decode(&text).map_err(|_| path_abs::IoFault::Other)), Ok(genuine));
}

#[test]
fn mocks_round_trip_through_text() {
    for fake in [&b"src/lib.rs"[..], b"", b"\xED\xA0\x80", b"a\nb", b"../\\x41"] {
        let mocked = PathAbs::mock(fake);
        assert_eq!(PathAbs::from_stfu8(&mocked.to_stfu8()), Ok(mocked));
    }
}

#[test]
fn from_stfu8_fails_on_bad_text() {
    assert_eq!(PathAbs::from_stfu8(r"/a\b"), Err(PathError::Decode));
    assert_eq!(PathAbs::from_stfu8("/a\\x4\u{e9}"), Err(PathError::Decode));
}

#[test]
fn decoding_validates_nothing_until_the_path_is_resolved() {
    let text = PathAbs::mock(b"relative/path").to_stfu8();
    let raw = PathAbs::from_stfu8(&text).unwrap();
    assert_eq!(raw.as_bytes(), b"relative/path");
    assert_eq!(PathAbs::new(Ok(decode(&text).unwrap())), Err(PathError::NotCanonical));
}

#[test]
fn files_and_directories_encode_their_path() {
    let f = PathFile::new(Probe::Found(b"/d/\xFF".to_vec(), Kind::File)).unwrap();
    let d = PathDir::new(Probe::Found(b"/d".to_vec(), Kind::Dir)).unwrap();
    assert_eq!(f.to_stfu8(), r"/d/\xFF");
    assert_eq!(d.to_stfu8(), "/d");
    assert_eq!(PathFile::new(Probe::Found(decode(&f.to_stfu8()).unwrap(), Kind::File)), Ok(f));
}

#[test]
fn encoded_paths_survive_json() {
    let p = PathAbs::mock(b"/odd/\xFF\"quoted\"/\\back/\x01");
    let json = serde_json::to_string(&p.to_stfu8()).unwrap();
    let text: String = serde_json::from_str(&json).unwrap();
    assert_eq!(PathAbs::from_stfu8(&text), Ok(p));
}
