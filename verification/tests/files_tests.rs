use aer::files::catalog_entry;
use aer::files::collect_entries;
use aer::files::file_paths;
use aer::files::get_files;
use aer::files::get_files_by_extensions;
use aer::files::list_by_category;
use aer::files::list_entries;
use aer::files::CatalogError;
use aer::files::FileInfo;
use aer::files::FileType;
use aer::files::ListError;
use aer::fingerprint::fingerprint_of_content;
use aer::fingerprint::MemoryStore;
use aer::matcher::compile;
use aer::matcher::CompiledMatcher;
use aer::registry::default_type_builder;
use aer::registry::Registry;

fn default_registry() -> Registry {
    default_type_builder().finalize().unwrap()
}

#[test]
fn test_file_type_from_path() {
    let path = "test_data/1.jpg";
    assert_eq!(FileType::from_path(path), Some(FileType::Image));

    let path = "test_data/1.png";
    assert_eq!(FileType::from_path(path), Some(FileType::Image));

    let path = "test_data/1.gif";
    assert_eq!(FileType::from_path(path), Some(FileType::Image));

    let path = "test_data/1.webp";
    assert_eq!(FileType::from_path(path), Some(FileType::Image));

    let path = "test_data/1.webm";
    assert_eq!(FileType::from_path(path), Some(FileType::Video));

    let path = "test_data/1.mp4";
    assert_eq!(FileType::from_path(path), Some(FileType::Video));

    let path = "test_data/1.flac";
    assert_eq!(FileType::from_path(path), Some(FileType::Audio));

    let path = "test_data/1.mp3";
    assert_eq!(FileType::from_path(path), Some(FileType::Audio));

    let path = "test_data/1.txt";
    assert_eq!(FileType::from_path(path), Some(FileType::Other));

    let path = "test_data/1";
    assert_eq!(FileType::from_path(path), None);
}

#[test]
fn test_file_type_is_case_insensitive() {
    assert_eq!(FileType::from_path("test_data/1.JPG"), Some(FileType::Image));
    assert_eq!(FileType::from_path("test_data/1.Jpeg"), Some(FileType::Image));
    assert_eq!(FileType::from_path("test_data/1.MP4"), Some(FileType::Video));
    assert_eq!(FileType::from_path("test_data/1.FLAC"), Some(FileType::Audio));
    assert_eq!(FileType::from_path("test_data/1.TXT"), Some(FileType::Other));
}

#[test]
fn test_file_info_from_path() {
    let path = "test_data/1.jpg";
    let base = "test_data";
    let info = FileInfo::from_path(path, base, None, None);
    assert_eq!(info.url, "/media/1.jpg");
    assert_eq!(info.name, "1.jpg");
    assert_eq!(info.path, "1.jpg");
    assert_eq!(info.type_, FileType::Image);
    assert_eq!(info.extension, "jpg");

    let path = "test_data/1.mp4";
    let base = "test_data";
    let info = FileInfo::from_path(path, base, None, None);
    assert_eq!(info.url, "/media/1.mp4");
    assert_eq!(info.name, "1.mp4");
    assert_eq!(info.path, "1.mp4");
    assert_eq!(info.type_, FileType::Video);
    assert_eq!(info.extension, "mp4");
}

#[test]
fn test_file_info_from_path_uses_store_hit() {
    // A value already cached under the root-relative key is the row's
    // fingerprint; no content is needed or read.
    let info = FileInfo::from_path("test_data/1.jpg", "test_data", Some("12345".to_string()), None);
    assert_eq!(info.hash, "12345");
}

#[test]
fn test_file_type_ignores_directory_dots() {
    assert_eq!(FileType::from_path("a.dir/file"), None);
    assert_eq!(FileType::from_path(".gitignore"), None);
    assert_eq!(FileType::from_path("x/.hidden"), None);
    assert_eq!(FileType::from_path("x/archive.tar.gz"), Some(FileType::Other));
}

#[test]
fn test_catalog_entry_lowercases_and_hashes() {
    let row = catalog_entry("root/Sub/Photo.JPG", "root", None, Some(b"picture bytes"));
    assert_eq!(row.path, "Sub/Photo.JPG");
    assert_eq!(row.url, "/media/Sub/Photo.JPG");
    assert_eq!(row.name, "Photo.JPG");
    assert_eq!(row.extension, "jpg");
    // Classification compares the lowercased extension.
    assert_eq!(row.type_, FileType::Image);
    // A store miss hashes the content handed in.
    assert_eq!(row.hash, fingerprint_of_content(b"picture bytes"));
}

#[test]
fn test_catalog_entry_prefers_cached_fingerprint() {
    let row = catalog_entry(
        "root/a.jpg",
        "root",
        Some("cached-digest".to_string()),
        Some(b"newer bytes"),
    );
    assert_eq!(row.hash, "cached-digest");
}

#[test]
fn test_catalog_entry_without_extension_uses_sentinel() {
    let row = catalog_entry("root/README", "root", None, None);
    assert_eq!(row.extension, "");
    assert_eq!(row.type_, FileType::Other);
    assert_eq!(row.path, "README");
    // Unreadable content on a miss leaves the fingerprint marked empty.
    assert_eq!(row.hash, "");
}

fn scenario_paths() -> Vec<String> {
    vec![
        "root/a.jpg".to_string(),
        "root/b.gif".to_string(),
        "root/c.mp4".to_string(),
        "root/d.txt".to_string(),
    ]
}

fn scenario_contents() -> Vec<Option<Vec<u8>>> {
    vec![
        Some(b"jpg bytes".to_vec()),
        Some(b"gif bytes".to_vec()),
        Some(b"mp4 bytes".to_vec()),
        Some(b"txt bytes".to_vec()),
    ]
}

fn names_of(rows: &[FileInfo]) -> Vec<&str> {
    rows.iter().map(|r| r.name.as_str()).collect()
}

#[test]
fn test_scenario_list_all_returns_every_file() {
    let mut store = MemoryStore::new();
    let rows = collect_entries(
        &scenario_paths(),
        &scenario_contents(),
        "root",
        &CompiledMatcher::match_all(),
        &mut store,
    )
    .unwrap();
    assert_eq!(rows.len(), 4);
    assert_eq!(names_of(&rows), vec!["a.jpg", "b.gif", "c.mp4", "d.txt"]);
    // Each row carries its content's fingerprint, now also cached.
    assert_eq!(rows[0].hash, fingerprint_of_content(b"jpg bytes"));
    assert_eq!(store.get("a.jpg"), Some(rows[0].hash.clone()));
}

#[test]
fn test_scenario_images_filter() {
    let reg = default_registry();
    let m = compile(&reg, Some("images")).unwrap();
    let mut store = MemoryStore::new();
    let rows =
        collect_entries(&scenario_paths(), &scenario_contents(), "root", &m, &mut store).unwrap();
    assert_eq!(names_of(&rows), vec!["a.jpg", "b.gif"]);
}

#[test]
fn test_scenario_media_filter() {
    let reg = default_registry();
    let mut store = MemoryStore::new();
    let rows = list_entries(
        &scenario_paths(),
        &scenario_contents(),
        "root",
        Some("media"),
        &reg,
        &mut store,
    )
    .unwrap();
    assert_eq!(names_of(&rows), vec!["a.jpg", "b.gif", "c.mp4"]);
}

#[test]
fn test_scenario_repeated_listing_serves_cached_fingerprints() {
    let reg = default_registry();
    let mut store = MemoryStore::new();
    let rows1 = list_entries(
        &scenario_paths(),
        &scenario_contents(),
        "root",
        Some("media"),
        &reg,
        &mut store,
    )
    .unwrap();
    // A second listing with changed (even unreadable) content returns the
    // cached fingerprints: the files are not re-hashed.
    let changed: Vec<Option<Vec<u8>>> = vec![None, None, None, None];
    let rows2 = list_entries(&scenario_paths(), &changed, "root", Some("media"), &reg, &mut store)
        .unwrap();
    for (a, b) in rows1.iter().zip(rows2.iter()) {
        assert_eq!(a.hash, b.hash);
        assert_ne!(a.hash, "");
    }
}

#[test]
fn test_scenario_bogus_category_is_a_bad_request() {
    let reg = default_registry();
    match list_by_category("root_that_is_never_walked", Some("bogus"), &reg) {
        Err(e) => assert_eq!(e, CatalogError::UnknownCategory),
        Ok(_) => panic!("an unknown category must fail"),
    }
    let mut store = MemoryStore::new();
    match list_entries(&scenario_paths(), &scenario_contents(), "root", Some("bogus"), &reg, &mut store) {
        Err(e) => assert_eq!(e, CatalogError::UnknownCategory),
        Ok(_) => panic!("an unknown category must fail"),
    }
}

#[test]
fn test_collect_rejects_path_outside_root() {
    let paths = vec!["root/a.jpg".to_string(), "elsewhere/x.jpg".to_string()];
    let contents: Vec<Option<Vec<u8>>> = vec![None, None];
    let mut store = MemoryStore::new();
    let r = collect_entries(&paths, &contents, "root", &CompiledMatcher::match_all(), &mut store);
    assert_eq!(r.unwrap_err(), ListError::PathNotUnderRoot);
}

#[test]
fn test_file_paths_keeps_only_regular_files() {
    let entries = vec![
        ("root".to_string(), false),
        ("root/a.jpg".to_string(), true),
        ("root/sub".to_string(), false),
        ("root/sub/b.gif".to_string(), true),
    ];
    assert_eq!(
        file_paths(&entries),
        vec!["root/a.jpg".to_string(), "root/sub/b.gif".to_string()]
    );
}

#[test]
fn test_walk_of_missing_root_yields_nothing() {
    let files = get_files("aer_no_such_directory_anywhere");
    assert!(files.is_empty());
    let reg = default_registry();
    let all = list_by_category("aer_no_such_directory_anywhere", None, &reg).unwrap();
    assert!(all.is_empty());
    let gifs = get_files_by_extensions(
        "aer_no_such_directory_anywhere",
        &vec!["gif".to_string()],
    );
    assert!(gifs.is_empty());
}
