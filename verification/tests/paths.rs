use luciole::paths::{
    components, data_path_in, db_path, glossary_path, join_path, models_dir, notes_dir, path_starts_with, root,
    root_in, settings_path, speakers_db_path, transcripts_dir,
};

#[test]
fn join_is_pathbuf_push() {
    assert_eq!(join_path("a", "b"), "a/b");
    assert_eq!(join_path("a/", "b"), "a/b");
    assert_eq!(join_path("", "b"), "b");
    assert_eq!(join_path("a", "/b"), "/b");
    assert_eq!(join_path("/", "etc"), "/etc");
    assert_eq!(root_in("/home/alice"), "/home/alice/.luciole");
}

#[test]
fn components_follow_std() {
    for p in ["/a/b/c", "a//b/", "./a/./b", ".", "", "/", "../x/..", "//a", "a/.", "./"] {
        let ours = components(p);
        let std: Vec<String> = std::path::Path::new(p)
            .components()
            .map(|c| match c {
                std::path::Component::RootDir => "/".to_string(),
                std::path::Component::CurDir => ".".to_string(),
                std::path::Component::ParentDir => "..".to_string(),
                std::path::Component::Normal(n) => n.to_string_lossy().into_owned(),
                std::path::Component::Prefix(_) => unreachable!(),
            })
            .collect();
        assert_eq!(ours, std, "{p}");
    }
}

#[test]
fn starts_with_compares_components() {
    let cases = [
        ("/a/b/c", "/a/b", true),
        ("/a/bc", "/a/b", false),
        ("/a/./b", "/a/b", true),
        ("/a/b", "/a/b/", true),
        ("a", "/a", false),
        ("/a", "/", true),
        ("/notes/../etc", "/notes", true),
        ("x", "", true),
        ("/a/b", "/a/b/c", false),
    ];
    for (p, b, want) in cases {
        assert_eq!(path_starts_with(p, b), want, "{p} {b}");
        assert_eq!(std::path::Path::new(p).starts_with(b), want, "{p} {b}");
    }
}

#[test]
fn data_layout_under_home() {
    if let Some(r) = root() {
        assert!(r.ends_with("/.luciole") || r.ends_with(".luciole"), "{r}");
        assert_eq!(notes_dir().unwrap(), join_path(&r, "notes"));
        assert_eq!(transcripts_dir().unwrap(), join_path(&r, "transcripts"));
        assert_eq!(models_dir().unwrap(), join_path(&r, "models"));
        assert_eq!(settings_path().unwrap(), join_path(&r, "settings.json"));
        assert_eq!(glossary_path().unwrap(), join_path(&r, "glossaire.yaml"));
        assert_eq!(db_path().unwrap(), join_path(&r, "db.sqlite"));
        assert_eq!(speakers_db_path().unwrap(), join_path(&r, "speakers.db"));
        assert!(path_starts_with(&notes_dir().unwrap(), &r));
    }
}

#[test]
fn data_paths_for_a_given_home() {
    assert_eq!(data_path_in("/home/alice", "notes"), "/home/alice/.luciole/notes");
    assert_eq!(data_path_in("/home/alice/", "settings.json"), "/home/alice/.luciole/settings.json");
    assert_eq!(data_path_in("/", "glossaire.yaml"), "/.luciole/glossaire.yaml");
}
