use aer::matcher::compile;
use aer::matcher::FilterError;
use aer::registry::default_type_builder;
use aer::registry::CategoryDef;
use aer::registry::Registry;
use aer::registry::RegistryBuilder;
use aer::registry::RegistryBuildError;

fn default_registry() -> Registry {
    default_type_builder().finalize().unwrap()
}

#[test]
fn test_default_table_finalizes() {
    default_registry();
}

#[test]
fn test_register_duplicate_name_fails() {
    let mut b = RegistryBuilder::new();
    let first = b.register(
        "solo",
        CategoryDef::Primitive {
            extensions: vec!["solo".to_string()],
        },
    );
    assert!(first.is_ok());
    let second = b.register(
        "solo",
        CategoryDef::Primitive {
            extensions: vec!["other".to_string()],
        },
    );
    assert_eq!(second, Err(RegistryBuildError::DuplicateName));
}

#[test]
fn test_finalize_rejects_cycle() {
    let mut b = RegistryBuilder::new();
    b.register(
        "a",
        CategoryDef::Composite {
            references: vec!["b".to_string()],
        },
    )
    .unwrap();
    b.register(
        "b",
        CategoryDef::Composite {
            references: vec!["a".to_string()],
        },
    )
    .unwrap();
    match b.finalize() {
        Err(e) => assert_eq!(e, RegistryBuildError::CycleDetected),
        Ok(_) => panic!("a cyclic table must not finalize"),
    }
}

#[test]
fn test_finalize_rejects_self_reference() {
    let mut b = RegistryBuilder::new();
    b.register(
        "selfish",
        CategoryDef::Composite {
            references: vec!["selfish".to_string()],
        },
    )
    .unwrap();
    match b.finalize() {
        Err(e) => assert_eq!(e, RegistryBuildError::CycleDetected),
        Ok(_) => panic!("a self-referencing table must not finalize"),
    }
}

#[test]
fn test_finalize_rejects_unknown_reference() {
    let mut b = RegistryBuilder::new();
    b.register(
        "a",
        CategoryDef::Composite {
            references: vec!["nonexistent".to_string()],
        },
    )
    .unwrap();
    match b.finalize() {
        Err(e) => assert_eq!(e, RegistryBuildError::UnknownReference),
        Ok(_) => panic!("an unresolved reference must not finalize"),
    }
}

#[test]
fn test_compile_unknown_category_fails() {
    let reg = default_registry();
    match compile(&reg, Some("bogus")) {
        Err(e) => assert_eq!(e, FilterError::UnknownCategory),
        Ok(_) => panic!("an unknown name must not compile"),
    }
}

#[test]
fn test_compile_none_accepts_everything() {
    let reg = default_registry();
    let m = compile(&reg, None).unwrap();
    assert!(m.accepts("jpg"));
    assert!(m.accepts("txt"));
    assert!(m.accepts(""));
}

#[test]
fn test_category_closures_accept_their_extensions() {
    let reg = default_registry();
    let table: &[(&str, &[&str])] = &[
        ("jpg", &["jpg", "jpeg"]),
        ("png", &["png"]),
        ("gif", &["gif"]),
        ("mp4", &["mp4"]),
        ("flac", &["flac"]),
        ("mp3", &["mp3"]),
        ("webp", &["webp"]),
        ("webm", &["webm"]),
        ("images", &["jpg", "jpeg", "png", "gif", "webp"]),
        ("videos", &["mp4", "webm"]),
        ("animations", &["mp4", "webm", "gif"]),
        ("audio", &["mp3"]),
        ("v8", &["webp", "webm"]),
        (
            "media",
            &["jpg", "jpeg", "png", "gif", "webp", "mp4", "webm", "mp3"],
        ),
    ];
    for (name, exts) in table {
        let m = compile(&reg, Some(name)).unwrap();
        for e in *exts {
            assert!(m.accepts(e), "{} must accept {}", name, e);
        }
        assert!(!m.accepts("txt"), "{} must reject txt", name);
        assert!(!m.accepts(""), "{} must reject the empty token", name);
    }
}

#[test]
fn test_accepts_is_case_insensitive() {
    let reg = default_registry();
    let m = compile(&reg, Some("images")).unwrap();
    assert!(m.accepts("JPG"));
    assert!(m.accepts("Jpeg"));
    assert!(m.accepts("webp"));
    assert!(!m.accepts("TXT"));
}

#[test]
fn test_media_closure_is_transitive() {
    let reg = default_registry();
    let media = compile(&reg, Some("media")).unwrap();
    for part in ["images", "videos", "audio"] {
        let sub = compile(&reg, Some(part)).unwrap();
        for e in [
            "jpg", "jpeg", "png", "gif", "webp", "mp4", "webm", "mp3", "flac", "txt",
        ] {
            if sub.accepts(e) {
                assert!(media.accepts(e), "media must accept {} via {}", e, part);
            }
        }
    }
}

#[test]
fn test_compile_is_idempotent() {
    let reg = default_registry();
    for name in [
        "jpg", "png", "gif", "mp4", "flac", "mp3", "webp", "webm", "images", "videos",
        "animations", "audio", "v8", "media",
    ] {
        let m1 = compile(&reg, Some(name)).unwrap();
        let m2 = compile(&reg, Some(name)).unwrap();
        for e in [
            "jpg", "jpeg", "png", "gif", "webp", "mp4", "webm", "mp3", "flac", "txt", "",
        ] {
            assert_eq!(m1.accepts(e), m2.accepts(e));
        }
    }
}
