use path_abs::{IoFault, Kind, PathAbs, PathDir, PathError, Probe};
use std::path::Path;

fn bytes_of(p: &Path) -> Vec<u8> {
    p.to_str().unwrap().as_bytes().to_vec()
}

fn resolve(p: &Path) -> Result<Vec<u8>, IoFault> {
    match p.canonicalize() {
        Ok(found) => Ok(bytes_of(&found)),
        Err(e) => Err(match e.kind() {
            std::io::ErrorKind::NotFound => IoFault::NotFound,
            std::io::ErrorKind::PermissionDenied => IoFault::PermissionDenied,
            std::io::ErrorKind::AlreadyExists => IoFault::AlreadyExists,
            _ => IoFault::Other,
        }),
    }
}

fn kind_of(p: &Path) -> Kind {
    if p.is_file() {
        Kind::File
    } else if p.is_dir() {
        Kind::Dir
    } else {
        Kind::Other
    }
}

fn probe(p: &Path) -> Probe {
    match resolve(p) {
        Ok(text) => Probe::Found(text, kind_of(p)),
        Err(fault) => Probe::Unresolved(fault),
    }
}

#[test]
fn what_the_system_resolves_is_admitted() {
    let tmp = tempdir::TempDir::new("path_abs_live").unwrap();
    let abs = PathAbs::new(resolve(tmp.path())).unwrap();
    assert_eq!(PathAbs::new(resolve(Path::new(std::str::from_utf8(abs.as_bytes()).unwrap()))), Ok(abs.clone()));
    let dir = abs.clone().into_dir(kind_of(tmp.path())).unwrap();
    assert_eq!(abs.into_file(kind_of(tmp.path())), Err(PathError::NotAFile));
    assert_eq!(dir.as_bytes(), bytes_of(&tmp.path().canonicalize().unwrap()).as_slice());
}

#[test]
fn a_missing_path_is_not_found() {
    let tmp = tempdir::TempDir::new("path_abs_live").unwrap();
    let missing = tmp.path().join("dne");
    assert_eq!(PathAbs::new(resolve(&missing)), Err(PathError::Resolve(IoFault::NotFound)));
}

#[test]
fn a_directory_lists_its_own_entries() {
    let tmp = tempdir::TempDir::new("path_abs_live").unwrap();
    let sub = tempdir::TempDir::new_in(tmp.path(), "b").unwrap();
    let dir = PathDir::new(probe(tmp.path())).unwrap();
    let mut items = Vec::new();
    for entry in tmp.path().read_dir().unwrap() {
        let name = entry.unwrap().file_name();
        let text = dir.child_text(name.to_str().unwrap().as_bytes());
        items.push(Ok(probe(Path::new(std::str::from_utf8(&text).unwrap()))));
    }
    let listed = dir.list(items);
    assert_eq!(listed.len(), 1);
    let entry = listed.into_iter().next().unwrap().unwrap();
    assert!(entry.is_dir());
    assert_eq!(entry.as_abs().as_bytes(), bytes_of(&sub.path().canonicalize().unwrap()).as_slice());
    assert_eq!(entry.parent_dir(), Some(dir));
}
