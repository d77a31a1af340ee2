//! Paths and search paths against the standard library.
use dsh_client::os::{join_search_path, split_search_path, OsText};
use std::path::Path;

fn paths_over(alphabet: &[char], len: usize) -> Vec<String> {
    let mut all = vec![String::new()];
    let mut last = vec![String::new()];
    for _ in 0..len {
        let mut next = Vec::new();
        for text in &last {
            for c in alphabet {
                let mut longer = text.clone();
                longer.push(*c);
                next.push(longer);
            }
        }
        all.extend(next.iter().cloned());
        last = next;
    }
    all
}

fn shown(path: &OsText) -> String {
    String::from_utf8(path.bytes.clone()).unwrap()
}

#[test]
fn join_like_std() {
    let paths = paths_over(&['/', '.', 'a'], 4);
    for base in &paths {
        for part in &paths {
            let want = Path::new(base).join(part);
            assert_eq!(shown(&OsText::of(base).join_str(part)), want.to_str().unwrap());
            assert_eq!(
                shown(&OsText::of(base).join(&OsText::of(part))),
                want.to_str().unwrap()
            );
        }
    }
}

#[test]
fn parent_like_std() {
    for path in paths_over(&['/', '.', 'a'], 8) {
        let want = Path::new(&path).parent().map(|p| p.to_str().unwrap().to_string());
        assert_eq!(OsText::of(&path).parent().map(|p| shown(&p)), want, "{path:?}");
    }
}

#[test]
fn parent_of_a_binary() {
    let node = OsText::of("/opt/node/bin/node");
    assert_eq!(node.parent(), Some(OsText::of("/opt/node/bin")));
    assert_eq!(OsText::of("/").parent(), None);
    assert_eq!(OsText::of("node").parent(), Some(OsText::of("")));
}

#[test]
fn bytes_of_any_kind() {
    let home = OsText { bytes: vec![0x2F, 0xFF, 0xFE] };
    assert_eq!(home.join_str("x").bytes, vec![0x2F, 0xFF, 0xFE, 0x2F, b'x']);
    assert_eq!(OsText::of("启").bytes, "启".as_bytes().to_vec());
    assert_eq!(home.clone(), home);
}

#[test]
fn search_path_taken_apart() {
    let dirs = split_search_path(&OsText::of("/usr/bin:/bin::."));
    assert_eq!(
        dirs,
        vec![OsText::of("/usr/bin"), OsText::of("/bin"), OsText::of(""), OsText::of(".")]
    );
    assert_eq!(split_search_path(&OsText::of("")), vec![OsText::of("")]);
    assert_eq!(split_search_path(&OsText::of(":")), vec![OsText::of(""), OsText::of("")]);
}

#[test]
fn search_path_put_together() {
    let dirs = vec![OsText::of("/a"), OsText::of(""), OsText::of("/b")];
    assert_eq!(join_search_path(&dirs), Some(OsText::of("/a::/b")));
    assert_eq!(join_search_path(&vec![OsText::of("/a:b")]), None);
    assert_eq!(join_search_path(&Vec::new()), Some(OsText::of("")));
}

#[test]
fn search_path_taken_apart_and_put_together() {
    for s in paths_over(&[':', 'a'], 7) {
        let dirs = split_search_path(&OsText::of(&s));
        let want: Vec<OsText> = s.split(':').map(|dir| OsText::of(dir)).collect();
        assert_eq!(dirs, want);
        assert_eq!(join_search_path(&dirs), Some(OsText::of(&s)));
        let mut more = vec![OsText::of("/first")];
        more.extend(dirs);
        assert_eq!(join_search_path(&more), Some(OsText::of(&format!("/first:{s}"))));
        assert_eq!(
            split_search_path(&OsText::of(&format!("/first:{s}")))[0],
            OsText::of("/first")
        );
    }
}
