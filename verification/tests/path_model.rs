use filedock::local::LocalFileSystem;
use filedock::paths::{components_of, parent_of, starts_with_path, strip_prefix_chars};
use filedock::text::chars_of;
use filedock::webdav::{child_path, file_name_of};
use std::path::{Component, Path};

const SAMPLES: &[&str] = &[
    "", "/", "//", "a", "a/", "a//", "/a", "//a", "/a/", "a/b", "a//b", "a/b/", "/a/b", "/a/b/",
    ".", "./", "./.", "./a", "./a/b", "a/.", "a/./b", "a/./", "..", "../a", "a/..", "/a/..",
    "/..", "/.", "/./a", "a/b/c.txt", "/data/x/../y", "x y/z", "é/ü",
];

fn std_components(p: &str) -> Vec<String> {
    Path::new(p)
        .components()
        .map(|c| match c {
            Component::RootDir => "/".to_string(),
            Component::CurDir => ".".to_string(),
            Component::ParentDir => "..".to_string(),
            Component::Normal(n) => n.to_str().unwrap().to_string(),
            Component::Prefix(_) => unreachable!(),
        })
        .collect()
}

fn text(v: &[char]) -> String {
    v.iter().collect()
}

#[test]
fn components_agree_with_std() {
    for p in SAMPLES {
        let ours: Vec<String> = components_of(&chars_of(p)).iter().map(|c| text(c)).collect();
        assert_eq!(ours, std_components(p), "components of {:?}", p);
    }
}

#[test]
fn parent_agrees_with_std() {
    for p in SAMPLES {
        let std_parent = Path::new(p).parent().map(|q| q.to_str().unwrap().to_string());
        assert_eq!(parent_of(p), std_parent, "parent of {:?}", p);
    }
}

#[test]
fn file_name_agrees_with_std() {
    for p in SAMPLES {
        let std_name = Path::new(p).file_name().map(|n| n.to_str().unwrap().to_string()).unwrap_or_default();
        assert_eq!(file_name_of(p), std_name, "file name of {:?}", p);
    }
}

#[test]
fn join_agrees_with_std() {
    for base in SAMPLES {
        for p in SAMPLES {
            let std_joined = Path::new(base).join(p).to_str().unwrap().to_string();
            assert_eq!(child_path(base, p), std_joined, "{:?} joined with {:?}", base, p);
        }
    }
}

#[test]
fn starts_with_and_strip_prefix_agree_with_std() {
    for p in SAMPLES {
        for base in SAMPLES {
            let ours = starts_with_path(&chars_of(p), &chars_of(base));
            assert_eq!(ours, Path::new(p).starts_with(base), "{:?} starts with {:?}", p, base);
            let stripped = strip_prefix_chars(&chars_of(p), &chars_of(base)).map(|v| text(&v));
            let std_stripped = Path::new(p).strip_prefix(base).ok().map(|q| q.to_str().unwrap().to_string());
            assert_eq!(stripped, std_stripped, "{:?} without {:?}", p, base);
        }
    }
}

#[test]
fn to_relative_agrees_with_std_strip_prefix() {
    for root in ["/data", "/data/", "data", "/"] {
        let fs = LocalFileSystem::new(root.to_string());
        for p in SAMPLES {
            let ours = fs.to_relative(p).ok();
            let std_rel = Path::new(p).strip_prefix(root).ok().map(|q| q.to_str().unwrap().to_string());
            assert_eq!(ours, std_rel, "{:?} relative to {:?}", p, root);
        }
    }
}
