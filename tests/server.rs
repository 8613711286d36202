use http_server::args::{parse_args, ArgsError};
use http_server::content_type::path_to_content_type;
use http_server::loader::{add_file, build_table};
use http_server::paths::{index_dir_of, normalize_key};
use http_server::resolver::{resolve, Resolution};
use http_server::table::{AssetTable, FileData};
use http_server::walk::{merge_listing, walk_step, EntryKind, WalkStep};

fn site() -> Vec<(String, Vec<u8>)> {
    vec![
        ("/srv/site/index.html".to_string(), b"<h1>Hi</h1>".to_vec()),
        ("/srv/site/style.css".to_string(), b"body{}".to_vec()),
        ("/srv/site/docs/index.html".to_string(), b"<p>docs</p>".to_vec()),
    ]
}

fn sorted_keys(t: &AssetTable) -> Vec<String> {
    let mut k = t.keys();
    k.sort();
    k
}

fn expect_serve(t: &AssetTable, path: &str, content_type: &str, data: &[u8]) {
    match resolve(t, path) {
        Resolution::Serve { content_type: c, data: d } => {
            assert_eq!(c, content_type);
            assert_eq!(d, data.to_vec());
        }
        _ => panic!("expected {} to be served", path),
    }
}

#[test]
fn content_type_by_extension() {
    assert_eq!(path_to_content_type("a/b/c.json"), "application/json");
    assert_eq!(path_to_content_type("noext"), "application/octet-stream");
    assert_eq!(path_to_content_type("weird.JSON"), "application/octet-stream");
    assert_eq!(path_to_content_type("/index.html"), "text/html");
    assert_eq!(path_to_content_type("/s.css"), "text/css");
    assert_eq!(path_to_content_type("/f.xml"), "text/xml");
    assert_eq!(path_to_content_type("/f.txt"), "text/plain");
    assert_eq!(path_to_content_type("/f.csv"), "text/csv");
    assert_eq!(path_to_content_type("/app.js"), "application/javascript");
    assert_eq!(path_to_content_type("/f.pdf"), "application/pdf");
    assert_eq!(path_to_content_type("/f.zip"), "application/zip");
    assert_eq!(path_to_content_type("/f.gif"), "image/gif");
    assert_eq!(path_to_content_type("/f.jpeg"), "image/jpeg");
    assert_eq!(path_to_content_type("/f.jpg"), "image/jpeg");
    assert_eq!(path_to_content_type("/f.png"), "image/png");
    assert_eq!(path_to_content_type("/favicon.ico"), "image/vnd.microsoft.icon");
}

#[test]
fn content_type_uses_last_dot() {
    assert_eq!(path_to_content_type("/a.tar.zip"), "application/zip");
    assert_eq!(path_to_content_type("/v1.2/readme"), "application/octet-stream");
    assert_eq!(path_to_content_type("/trailing."), "application/octet-stream");
    assert_eq!(path_to_content_type(""), "application/octet-stream");
    assert_eq!(path_to_content_type(".html"), "text/html");
}

#[test]
fn key_is_relative_path_with_leading_slash() {
    assert_eq!(normalize_key("/srv/site", "/srv/site/docs/a.txt"), "/docs/a.txt");
    assert_eq!(normalize_key("site/", "site/x.css"), "/x.css");
    assert_eq!(normalize_key("C:\\site", "C:\\site\\docs\\a.txt"), "/docs/a.txt");
}

#[test]
fn key_strips_only_first_occurrence() {
    assert_eq!(normalize_key("/a", "/a/b/a/c"), "/b/a/c");
    assert_eq!(normalize_key("x", "yx/z"), "/y/z");
    assert_eq!(normalize_key("/none", "/other/f"), "/other/f");
    assert_eq!(normalize_key("", "f"), "/f");
}

#[test]
fn index_directory_keeps_prefix() {
    assert_eq!(index_dir_of("/docs/index.html"), Some("/docs/".to_string()));
    assert_eq!(index_dir_of("/index.html"), Some("/".to_string()));
    assert_eq!(index_dir_of("/myindex.html"), Some("/my".to_string()));
    assert_eq!(index_dir_of("/index.htm"), None);
    assert_eq!(index_dir_of("/index.html.bak"), None);
}

#[test]
fn table_insert_overwrites() {
    let mut t = AssetTable::new();
    assert_eq!(t.len(), 0);
    t.insert("/a".to_string(), FileData { content_type: "text/plain".to_string(), data: vec![1] });
    t.insert("/b".to_string(), FileData { content_type: "text/plain".to_string(), data: vec![2] });
    t.insert("/a".to_string(), FileData { content_type: "text/css".to_string(), data: vec![3] });
    assert_eq!(t.len(), 2);
    let a = t.get(&"/a".to_string()).unwrap();
    assert_eq!(a.content_type, "text/css");
    assert_eq!(a.data, vec![3]);
    assert!(t.contains_key(&"/b".to_string()));
    assert!(!t.contains_key(&"/c".to_string()));
    assert!(t.get(&"/c".to_string()).is_none());
}

#[test]
fn duplicate_is_equal_copy() {
    let f = FileData { content_type: "image/png".to_string(), data: vec![0, 255, 7] };
    let g = f.duplicate();
    assert_eq!(g.content_type, "image/png");
    assert_eq!(g.data, vec![0, 255, 7]);
}

#[test]
fn end_to_end_site() {
    let t = build_table("/srv/site", site());
    assert_eq!(
        sorted_keys(&t),
        vec!["/", "/docs/", "/docs/index.html", "/index.html", "/style.css"]
    );
    expect_serve(&t, "/", "text/html", b"<h1>Hi</h1>");
    expect_serve(&t, "/index.html", "text/html", b"<h1>Hi</h1>");
    expect_serve(&t, "/style.css", "text/css", b"body{}");
    expect_serve(&t, "/docs/", "text/html", b"<p>docs</p>");
    expect_serve(&t, "/docs/index.html", "text/html", b"<p>docs</p>");
    match resolve(&t, "/docs") {
        Resolution::Redirect { location } => assert_eq!(location, "/docs/"),
        _ => panic!("expected a redirect"),
    }
    match resolve(&t, "/missing.txt") {
        Resolution::NotFound { message } => {
            assert!(message.contains("/missing.txt"));
            assert_eq!(message, "Couldn't find '/missing.txt'");
        }
        _ => panic!("expected not found"),
    }
}

#[test]
fn directory_alias_holds_same_asset() {
    let t = build_table("/srv/site", site());
    let a = t.get(&"/docs/index.html".to_string()).unwrap();
    let b = t.get(&"/docs/".to_string()).unwrap();
    assert_eq!(a.content_type, b.content_type);
    assert_eq!(a.data, b.data);
}

#[test]
fn loading_twice_gives_equal_tables() {
    let t1 = build_table("/srv/site", site());
    let t2 = build_table("/srv/site", site());
    let k1 = sorted_keys(&t1);
    assert_eq!(k1, sorted_keys(&t2));
    for k in &k1 {
        let a = t1.get(k).unwrap();
        let b = t2.get(k).unwrap();
        assert_eq!(a.content_type, b.content_type);
        assert_eq!(a.data, b.data);
    }
}

#[test]
fn later_file_wins_on_same_key() {
    let files = vec![
        ("/d/x.txt".to_string(), vec![1u8]),
        ("/d\\x.txt".to_string(), vec![2u8]),
    ];
    let t = build_table("/d", files);
    assert_eq!(t.len(), 1);
    expect_serve(&t, "/x.txt", "text/plain", &[2]);
}

#[test]
fn add_file_stores_alias() {
    let mut t = AssetTable::new();
    add_file(&mut t, "/w", "/w/a/index.html", b"A".to_vec());
    assert_eq!(t.len(), 2);
    expect_serve(&t, "/a/", "text/html", b"A");
    expect_serve(&t, "/a/index.html", "text/html", b"A");
}

#[test]
fn resolve_outcomes() {
    let mut t = AssetTable::new();
    t.insert("/x/".to_string(), FileData { content_type: "text/html".to_string(), data: vec![9] });
    expect_serve(&t, "/x/", "text/html", &[9]);
    match resolve(&t, "/x") {
        Resolution::Redirect { location } => assert_eq!(location, "/x/"),
        _ => panic!("expected a redirect"),
    }
    match resolve(&t, "/y") {
        Resolution::NotFound { message } => assert_eq!(message, "Couldn't find '/y'"),
        _ => panic!("expected not found"),
    }
    match resolve(&AssetTable::new(), "") {
        Resolution::NotFound { message } => assert_eq!(message, "Couldn't find ''"),
        _ => panic!("expected not found"),
    }
}

#[test]
fn walk_skips_links() {
    assert!(matches!(walk_step(&EntryKind::File), WalkStep::Collect));
    assert!(matches!(walk_step(&EntryKind::Directory), WalkStep::Descend));
    assert!(matches!(walk_step(&EntryKind::Other), WalkStep::Skip));
}

#[test]
fn failed_sublisting_adds_nothing() {
    let mut found = vec!["a".to_string()];
    merge_listing(&mut found, None);
    assert_eq!(found, vec!["a".to_string()]);
    merge_listing(&mut found, Some(vec!["b".to_string(), "c".to_string()]));
    assert_eq!(found, vec!["a".to_string(), "b".to_string(), "c".to_string()]);
}

#[test]
fn args_take_one_directory() {
    let r = parse_args(&vec!["site".to_string()]);
    assert_eq!(r.ok(), Some("site".to_string()));
    match parse_args(&vec![]) {
        Err(ArgsError::MissingDirectory) => {}
        _ => panic!("expected a missing directory"),
    }
    match parse_args(&vec!["a".to_string(), "b".to_string()]) {
        Err(ArgsError::UnexpectedArgument { arg }) => assert_eq!(arg, "b"),
        _ => panic!("expected an unexpected argument"),
    }
    match parse_args(&vec!["a".to_string(), "-v".to_string()]) {
        Err(ArgsError::UnknownFlag { flag }) => assert_eq!(flag, "-v"),
        _ => panic!("expected an unknown flag"),
    }
}

#[test]
fn listing_order_does_not_matter() {
    let mut reversed = site();
    reversed.reverse();
    let t1 = build_table("/srv/site", site());
    let t2 = build_table("/srv/site", reversed);
    let k1 = sorted_keys(&t1);
    assert_eq!(k1, sorted_keys(&t2));
    for k in &k1 {
        assert_eq!(t1.get(k).unwrap().data, t2.get(k).unwrap().data);
        assert_eq!(t1.get(k).unwrap().content_type, t2.get(k).unwrap().content_type);
    }
}
