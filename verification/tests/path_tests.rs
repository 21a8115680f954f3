use ocinoco::archive::to_relative_path;
use ocinoco::path::FsPath;

#[test]
fn normalizes_relative_and_absolute_paths() {
    assert_eq!(
        to_relative_path(&FsPath::new("/etc/config")),
        FsPath::new("./etc/config")
    );
    assert_eq!(
        to_relative_path(&FsPath::new("etc/config")),
        FsPath::new("./etc/config")
    );
}

#[test]
fn relative_path_of_relative_path_is_unchanged() {
    let once = to_relative_path(&FsPath::new("/usr/bin"));
    assert_eq!(to_relative_path(&once), once);
    assert_eq!(once.render(), "./usr/bin");
}

#[test]
fn parses_components_like_std() {
    assert_eq!(FsPath::new("a//b/./c/").render(), "a/b/c");
    assert_eq!(FsPath::new("./a").render(), "./a");
    assert_eq!(FsPath::new("/./a/..").render(), "/a/..");
    assert_eq!(FsPath::new(".").render(), ".");
    assert_eq!(FsPath::new("").render(), "");
    assert_eq!(FsPath::new("/").render(), "/");
    assert_eq!(FsPath::new("//").render(), "/");
    assert_eq!(FsPath::new("a/./b"), FsPath::new("a/b"));
    assert_ne!(FsPath::new("./a"), FsPath::new("a"));
    assert!(FsPath::new("/x").is_absolute());
    assert!(!FsPath::new("x").is_absolute());
    assert_eq!(FsPath::new("/a/b").len(), 2);
}

#[test]
fn text_round_trips() {
    for text in ["/usr/bin/tool", "./x/y", "rel", "/", "", "."] {
        let path = FsPath::new(text);
        assert_eq!(FsPath::new(&path.render()), path);
    }
}

#[test]
fn joins_like_std() {
    let base = FsPath::new("/app");
    assert_eq!(base.join(&FsPath::new("bin/tool")).render(), "/app/bin/tool");
    assert_eq!(base.join(&FsPath::new("/etc")).render(), "/etc");
    assert_eq!(base.join(&FsPath::new("./x")).render(), "/app/x");
    assert_eq!(FsPath::new("").join(&FsPath::new("./x")).render(), "./x");
    assert_eq!(FsPath::new(".").join(&FsPath::new("x")).render(), "./x");
    assert_eq!(FsPath::new("/a/b").strip_root().render(), "a/b");
    assert_eq!(FsPath::new("a/b").strip_root().render(), "a/b");
}

#[test]
fn strips_prefixes_and_parents_like_std() {
    let path = FsPath::new("/root/dir/file");
    assert_eq!(
        path.strip_prefix(&FsPath::new("/root")).map(|p| p.render()),
        Some("dir/file".to_string())
    );
    assert_eq!(path.strip_prefix(&FsPath::new("/ro")), None);
    assert_eq!(path.strip_prefix(&FsPath::new("root")), None);
    assert_eq!(
        path.strip_prefix(&FsPath::new("")).map(|p| p.render()),
        Some("/root/dir/file".to_string())
    );
    assert_eq!(path.parent().map(|p| p.render()), Some("/root/dir".to_string()));
    assert_eq!(FsPath::new("/").parent(), None);
    assert_eq!(FsPath::new("a").parent().map(|p| p.render()), Some(String::new()));
    assert_eq!(FsPath::new("./a").parent().map(|p| p.render()), Some(".".to_string()));
    assert!(FsPath::new(".").is_current_dir());
    assert!(FsPath::new("").is_empty());
    assert_eq!(path.prefix(1).render(), "/root");
}

#[test]
fn joining_what_a_prefix_leaves_gives_the_path_back() {
    let path = FsPath::new("/srv/source/bin/tool");
    for base in ["/srv", "/srv/source", "/", ""] {
        let base = FsPath::new(base);
        let rest = path.strip_prefix(&base).unwrap();
        assert_eq!(base.join(&rest), path);
    }
}
