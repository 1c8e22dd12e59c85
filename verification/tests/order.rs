use path_abs::lexical::check_canonical;
use path_abs::names::{order_names, split};
use path_abs::PathAbs;
use std::path::Path;

fn words(alphabet: &[char], max_len: usize) -> Vec<String> {
    let mut all = vec![String::new()];
    let mut last = vec![String::new()];
    for _ in 0..max_len {
        let mut next = Vec::new();
        for w in &last {
            for c in alphabet {
                let mut longer = w.clone();
                longer.push(*c);
                next.push(longer);
            }
        }
        all.extend(next.iter().cloned());
        last = next;
    }
    all
}

fn sign(o: std::cmp::Ordering) -> i8 {
    match o {
        std::cmp::Ordering::Less => -1,
        std::cmp::Ordering::Equal => 0,
        std::cmp::Ordering::Greater => 1,
    }
}

#[test]
fn split_cuts_at_every_separator() {
    assert_eq!(split(b""), vec![b"".to_vec()]);
    assert_eq!(split(b"/"), vec![b"".to_vec(), b"".to_vec()]);
    assert_eq!(split(b"/a/b"), vec![b"".to_vec(), b"a".to_vec(), b"b".to_vec()]);
    assert_eq!(split(b"a//b/"), vec![b"a".to_vec(), b"".to_vec(), b"b".to_vec(), b"".to_vec()]);
    assert_eq!(split(b"lib.rs"), vec![b"lib.rs".to_vec()]);
}

#[test]
fn split_agrees_with_std_split() {
    for w in words(&['/', '.', 'a'], 7) {
        let expected: Vec<Vec<u8>> = w.as_bytes().split(|b| *b == b'/').map(|s| s.to_vec()).collect();
        assert_eq!(split(w.as_bytes()), expected, "{:?}", w);
    }
}

#[test]
fn order_names_is_dictionary_order_of_lists() {
    let lists = [
        vec![],
        vec![b"".to_vec()],
        vec![b"".to_vec(), b"a".to_vec()],
        vec![b"".to_vec(), b"a".to_vec(), b"b".to_vec()],
        vec![b"".to_vec(), b"a!".to_vec()],
        vec![b"a".to_vec()],
        vec![b"b".to_vec(), b"".to_vec()],
    ];
    for a in &lists {
        for b in &lists {
            assert_eq!(order_names(a, b), sign(a.cmp(b)), "{:?} {:?}", a, b);
        }
    }
}

#[test]
fn canonical_paths_order_as_std_orders_them() {
    let canonical: Vec<String> = words(&['/', '!', 'a', '.'], 6)
        .into_iter()
        .filter(|w| check_canonical(w.as_bytes()))
        .collect();
    assert!(canonical.len() > 300);
    for x in &canonical {
        let a = PathAbs::new(Ok(x.as_bytes().to_vec())).unwrap();
        for y in &canonical {
            let b = PathAbs::new(Ok(y.as_bytes().to_vec())).unwrap();
            let expected = Path::new(x).cmp(Path::new(y));
            assert_eq!(a.partial_cmp(&b), Some(expected), "{:?} {:?}", x, y);
            assert_eq!(a.cmp(&b), expected, "{:?} {:?}", x, y);
        }
    }
}

#[test]
fn the_separator_ranks_below_every_byte() {
    for byte in 1..=255u8 {
        if byte == b'/' {
            continue;
        }
        let inside = PathAbs::new(Ok(b"/a/b".to_vec())).unwrap();
        let mut text = b"/a".to_vec();
        text.push(byte);
        let beside = PathAbs::new(Ok(text)).unwrap();
        assert!(inside < beside, "{}", byte);
        assert!(PathAbs::new(Ok(b"/a".to_vec())).unwrap() < beside, "{}", byte);
    }
}

#[test]
fn mocks_order_consistently() {
    let all = words(&['/', '!', 'a'], 4);
    for x in &all {
        let a = PathAbs::mock(x.as_bytes());
        for y in &all {
            let b = PathAbs::mock(y.as_bytes());
            let o = a.partial_cmp(&b).unwrap();
            assert_eq!(o, a.cmp(&b), "{:?} {:?}", x, y);
            assert_eq!(o == std::cmp::Ordering::Equal, x == y, "{:?} {:?}", x, y);
            assert_eq!(Some(o.reverse()), b.partial_cmp(&a), "{:?} {:?}", x, y);
        }
    }
}
