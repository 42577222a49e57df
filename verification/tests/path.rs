use std::path::{Path, PathBuf};

use nsbox::path::{parent_of, _Path, NEW_ROOT_DIR, OLD_ROOT_DIR, ROOT_INIT_PATH};

const SAMPLES: [&str; 26] = [
    "", "/", "//", ".", "./", "..", "a", "a/", "/a", "//a", "a/b", "a//b", "/a/b/", "./a", "a/.",
    "a/./b", "/./a", "/.", "../a", "a/..", "a/../b", ".hidden", "a.", "/etc/ld.so.conf.d", "é/ü",
    "././a",
];

fn text(path: &Path) -> &str {
    path.to_str().unwrap()
}

#[test]
fn pushing_a_string() {
    for a in SAMPLES {
        for b in SAMPLES {
            let mut expected = PathBuf::from(a);
            expected.push(b);
            assert_eq!((_Path::from(a) / b).as_path(), text(&expected));
            assert_eq!((&_Path::from(a) / b).as_path(), text(&expected));
            assert_eq!(_Path::from(a).with(b).as_path(), text(&expected));
        }
    }
}

#[test]
fn joining_a_path() {
    for a in SAMPLES {
        for b in SAMPLES {
            let mut expected = PathBuf::from(a);
            expected.extend(Path::new(b));
            assert_eq!((_Path::from(a) / &_Path::from(b)).as_path(), text(&expected));
            assert_eq!((&_Path::from(a) / &_Path::from(b)).as_path(), text(&expected));
            assert_eq!(_Path::from(a).join(&_Path::from(b)).as_path(), text(&expected));
        }
    }
}

#[test]
fn going_below_a_root() {
    for a in SAMPLES {
        for b in SAMPLES {
            let path = Path::new(b);
            let relative =
                if path.is_absolute() { path.strip_prefix("/").unwrap() } else { path };
            let mut expected = PathBuf::from(a);
            expected.extend(relative);
            assert_eq!(_Path::from(a).rebase(b).as_path(), text(&expected));
        }
    }
}

#[test]
fn from_parts() {
    for a in SAMPLES {
        for b in SAMPLES {
            for c in ["", "x", "/x"] {
                let expected = PathBuf::from_iter([a, b, c]);
                assert_eq!(_Path::from_iter(&vec![a, b, c]).as_path(), text(&expected));
            }
        }
    }
    assert_eq!(_Path::from_iter(&vec![]).as_path(), "");
    assert_eq!(_Path::from_iter(&vec![ROOT_INIT_PATH, NEW_ROOT_DIR]).as_path(), "/tmp/new-root");
    assert_eq!(_Path::from_iter(&vec!["/", OLD_ROOT_DIR]).as_path(), "/old-root");
}

#[test]
fn parents() {
    for a in SAMPLES {
        for b in SAMPLES {
            for path in [a.to_string(), format!("{}/{}", a, b), format!("{}{}", a, b)] {
                let expected = Path::new(&path).parent().map(|p| text(p).to_string());
                assert_eq!(parent_of(&path), expected, "{}", path);
            }
        }
    }
    assert_eq!(parent_of("/new-root/etc/bash"), Some("/new-root/etc".to_string()));
    assert_eq!(parent_of("/"), None);
}

#[test]
fn shown_in_quotes() {
    assert_eq!(_Path::from("/new-root/etc").display(), "\"/new-root/etc\"");
    assert_eq!(_Path::from("").display(), "\"\"");
    assert_eq!(_Path::from("a\"b\n").display(), "\"a\\\"b\\n\"");
    for path in SAMPLES {
        assert_eq!(_Path::from(path).display(), format!("{:?}", PathBuf::from(path)));
    }
}

#[test]
fn as_text() {
    let path = _Path::from("/dev");
    let s: &str = (&path).into();
    assert_eq!(s, "/dev");
    assert_eq!(path.copy().as_path(), "/dev");
}
