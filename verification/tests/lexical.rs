use path_abs::lexical::{check_canonical, child, order_bytes, parent_len, same_bytes};
use std::path::Path;

fn std_parent(text: &str) -> Option<String> {
    Path::new(text).parent().map(|p| p.to_str().unwrap().to_string())
}

fn our_parent(text: &str) -> Option<String> {
    parent_len(text.as_bytes()).map(|n| text[..n].to_string())
}

fn words(alphabet: &[char], max_len: usize) -> Vec<String> {
    let mut all = vec![String::new()];
    let mut last = vec![String::new()];
    for _ in 0..max_len {
        let mut next = Vec::new();
        for w in &last {
            for c in alphabet {
                let mut longer = w.clone();
                longer.push(*c);
                next.push(longer);
            }
        }
        all.extend(next.iter().cloned());
        last = next;
    }
    all
}

#[test]
fn parent_of_plain_paths() {
    assert_eq!(our_parent("/foo/bar"), Some("/foo".to_string()));
    assert_eq!(our_parent("/foo"), Some("/".to_string()));
    assert_eq!(our_parent("/"), None);
    assert_eq!(our_parent(""), None);
    assert_eq!(our_parent("foo"), Some("".to_string()));
    assert_eq!(our_parent("src/lib.rs"), Some("src".to_string()));
}

#[test]
fn parent_skips_empty_and_dot_segments() {
    assert_eq!(our_parent("foo/bar/"), Some("foo".to_string()));
    assert_eq!(our_parent("a//b"), Some("a".to_string()));
    assert_eq!(our_parent("a/./b"), Some("a".to_string()));
    assert_eq!(our_parent("/a/."), Some("/".to_string()));
    assert_eq!(our_parent("/."), None);
    assert_eq!(our_parent("//"), None);
    assert_eq!(our_parent("./foo"), Some(".".to_string()));
    assert_eq!(our_parent("."), Some("".to_string()));
    assert_eq!(our_parent(".."), Some("".to_string()));
    assert_eq!(our_parent("/.."), Some("/".to_string()));
}

#[test]
fn parent_agrees_with_std_on_every_short_text() {
    for w in words(&['/', '.', 'a'], 8) {
        assert_eq!(our_parent(&w), std_parent(&w), "parent of {:?}", w);
    }
}

#[test]
fn canonical_form_is_told_apart() {
    for good in ["/", "/a", "/a/b", "/a/.b", "/a/b.", "/..a", "/a/...", "/tmp/x y/z"] {
        assert!(check_canonical(good.as_bytes()), "{:?}", good);
    }
    for bad in [
        "", "a", "a/b", "./a", "//", "//a", "/a/", "/a//b", "/.", "/..", "/a/.", "/a/..", "/a/./b",
        "/a/../b", "/a\0b",
    ] {
        assert!(!check_canonical(bad.as_bytes()), "{:?}", bad);
    }
}

#[test]
fn canonical_texts_are_those_that_std_keeps_whole() {
    for w in words(&['/', '.', 'a'], 8) {
        let p = Path::new(&w);
        let rebuilt: std::path::PathBuf = p.components().collect();
        let kept = p.is_absolute()
            && rebuilt.to_str() == Some(w.as_str())
            && !p.components().any(|c| c == std::path::Component::ParentDir);
        assert_eq!(check_canonical(w.as_bytes()), kept, "{:?}", w);
    }
}

#[test]
fn child_joins_with_one_separator() {
    assert_eq!(child(b"/", b"a.txt"), b"/a.txt".to_vec());
    assert_eq!(child(b"/proj", b"src"), b"/proj/src".to_vec());
    assert_eq!(child(b"", b"src"), b"src".to_vec());
    assert_eq!(child(b"rel/", b"x"), b"rel/x".to_vec());
}

#[test]
fn child_agrees_with_std_join() {
    for d in words(&['/', '.', 'a'], 5) {
        for n in ["a", "b.c", "..."] {
            let joined = Path::new(&d).join(n);
            assert_eq!(child(d.as_bytes(), n.as_bytes()), joined.to_str().unwrap().as_bytes(), "{:?} {:?}", d, n);
        }
    }
}

#[test]
fn parent_of_child_is_the_directory() {
    for d in ["/", "/a", "/a/b", "/x.y/z"] {
        for n in ["a", "b.c", "...", ".hidden"] {
            let c = child(d.as_bytes(), n.as_bytes());
            assert!(check_canonical(&c));
            let up = parent_len(&c).unwrap();
            assert_eq!(c[..up].to_vec(), d.as_bytes().to_vec());
        }
    }
}

#[test]
fn same_bytes_compares_whole_strings() {
    assert!(same_bytes(b"", b""));
    assert!(same_bytes(b"/a/b", b"/a/b"));
    assert!(!same_bytes(b"/a/b", b"/a/c"));
    assert!(!same_bytes(b"/a", b"/a/"));
    assert!(!same_bytes(b"/a/", b"/a"));
}

#[test]
fn order_bytes_is_dictionary_order() {
    assert_eq!(order_bytes(b"", b""), 0);
    assert_eq!(order_bytes(b"", b"a"), -1);
    assert_eq!(order_bytes(b"a", b""), 1);
    assert_eq!(order_bytes(b"/a", b"/a/b"), -1);
    assert_eq!(order_bytes(b"/b", b"/a/b"), 1);
    assert_eq!(order_bytes(b"/a\xff", b"/a\xff"), 0);
    assert_eq!(order_bytes(&[0x7f], &[0x80]), -1);
}

#[test]
fn order_bytes_agrees_with_slice_order() {
    let all = words(&['/', '.', 'a'], 4);
    for a in &all {
        for b in &all {
            let expected = match a.as_bytes().cmp(b.as_bytes()) {
                std::cmp::Ordering::Less => -1,
                std::cmp::Ordering::Equal => 0,
                std::cmp::Ordering::Greater => 1,
            };
            assert_eq!(order_bytes(a.as_bytes(), b.as_bytes()), expected, "{:?} {:?}", a, b);
            assert_eq!(same_bytes(a.as_bytes(), b.as_bytes()), a == b);
        }
    }
}
