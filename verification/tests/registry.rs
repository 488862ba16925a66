use kraken::error::ScaffoldError;
use kraken::registry::{
    add_feature, add_kraken_toml, check_feature, check_listing, check_marking, has_feature, is_set,
    kraken_toml_exists, listing_outcome, manifest_lists, mark_in_manifest, read_setting,
    same_value,
};

const FRESH: &str = "[kraken]\nlanguage = \"rs\"\nframework = \"axum\"\n\n[features]\n";

#[test]
fn a_fresh_manifest_has_the_two_tables() {
    assert_eq!(add_kraken_toml("rs", "axum"), FRESH);
    assert_eq!(
        add_kraken_toml("ts", "next"),
        "[kraken]\nlanguage = \"ts\"\nframework = \"next\"\n\n[features]\n"
    );
}

#[test]
fn without_a_manifest_the_registry_is_not_initialized() {
    assert_eq!(has_feature(None, "askama"), Err(ScaffoldError::NotInitialized));
    assert_eq!(check_feature(None, "askama"), Ok(()));
    assert!(!kraken_toml_exists(&None));
    assert!(kraken_toml_exists(&Some(String::new())));
}

#[test]
fn a_fresh_manifest_lists_no_feature() {
    assert_eq!(has_feature(Some(FRESH), "askama"), Ok(false));
    assert_eq!(check_feature(Some(FRESH), "askama"), Ok(()));
    assert_eq!(manifest_lists(FRESH, "askama"), Some(false));
    assert_eq!(manifest_lists("", "askama"), Some(false));
}

#[test]
fn marking_writes_the_feature_and_keeps_the_rest() {
    let mut manifest = Some(String::from(FRESH));
    assert_eq!(add_feature(&mut manifest, "askama"), Ok(()));
    assert_eq!(
        manifest.as_deref(),
        Some("[kraken]\nlanguage = \"rs\"\nframework = \"axum\"\n\n[features]\naskama = true\n")
    );
    assert_eq!(has_feature(manifest.as_deref(), "askama"), Ok(true));
    assert_eq!(has_feature(manifest.as_deref(), "htmx"), Ok(false));
    assert_eq!(check_feature(manifest.as_deref(), "askama"), Err(ScaffoldError::AlreadyExists));
}

#[test]
fn marking_keeps_comments_and_unknown_keys() {
    let text = "# project\n[kraken]\nlanguage = \"rs\" # fast\nframework = \"axum\"\nextra = [1, 2]\n\n[features]\nhtmx = true\n\n[other]\nkey = 'v'\n";
    let mut manifest = Some(String::from(text));
    assert_eq!(add_feature(&mut manifest, "askama"), Ok(()));
    assert_eq!(
        manifest.as_deref(),
        Some("# project\n[kraken]\nlanguage = \"rs\" # fast\nframework = \"axum\"\nextra = [1, 2]\n\n[features]\nhtmx = true\naskama = true\n\n[other]\nkey = 'v'\n")
    );
    assert_eq!(has_feature(manifest.as_deref(), "htmx"), Ok(true));
    assert_eq!(has_feature(manifest.as_deref(), "askama"), Ok(true));
}

#[test]
fn marking_twice_writes_nothing_the_second_time() {
    let mut manifest = Some(String::from("[features]\naskama = true # kept\n"));
    assert_eq!(add_feature(&mut manifest, "askama"), Ok(()));
    assert_eq!(manifest.as_deref(), Some("[features]\naskama = true # kept\n"));
}

#[test]
fn a_feature_set_to_false_is_not_installed_and_marking_sets_it() {
    let text = "[features]\naskama = false\n";
    assert_eq!(has_feature(Some(text), "askama"), Ok(false));
    assert_eq!(check_feature(Some(text), "askama"), Ok(()));
    let mut manifest = Some(String::from(text));
    assert_eq!(add_feature(&mut manifest, "askama"), Ok(()));
    assert_eq!(manifest.as_deref(), Some("[features]\naskama = true\n"));
    assert_eq!(has_feature(manifest.as_deref(), "askama"), Ok(true));
}

#[test]
fn only_the_boolean_true_counts_as_installed() {
    for value in ["false", "1", "\"true\"", "[true]", "{ on = true }", "1.0"] {
        let text = format!("[features]\naskama = {}\n", value);
        assert_eq!(has_feature(Some(&text), "askama"), Ok(false), "{}", value);
        let mut manifest = Some(text);
        assert_eq!(add_feature(&mut manifest, "askama"), Ok(()));
        assert_eq!(has_feature(manifest.as_deref(), "askama"), Ok(true), "{}", value);
    }
    assert_eq!(has_feature(Some("[features.askama]\nx = 1\n"), "askama"), Ok(false));
    assert!(is_set(Some(true)));
    assert!(!is_set(Some(false)));
    assert!(!is_set(None));
}

#[test]
fn the_settings_are_read_and_kept() {
    let text = "[kraken]\nlanguage = \"rs\"\nframework = \"axum\"\n\n[features]\n";
    assert_eq!(read_setting(text, "language").as_deref(), Some("rs"));
    assert_eq!(read_setting(text, "framework").as_deref(), Some("axum"));
    assert_eq!(read_setting(text, "missing"), None);
    assert_eq!(read_setting("[kraken]\nlanguage = 3\n", "language"), None);
    assert_eq!(read_setting("language = \"rs\"\n", "language"), None);
    assert_eq!(read_setting("[kraken\n", "language"), None);
    let mut manifest = Some(String::from(text));
    assert_eq!(add_feature(&mut manifest, "askama"), Ok(()));
    let after = manifest.unwrap();
    assert_eq!(read_setting(&after, "language").as_deref(), Some("rs"));
    assert_eq!(read_setting(&after, "framework").as_deref(), Some("axum"));
    assert_eq!(has_feature(Some(&after), "askama"), Ok(true));
}

#[test]
fn same_value_compares_texts_that_may_be_missing() {
    assert!(same_value(&None, &None));
    assert!(same_value(&Some(String::from("rs")), &Some(String::from("rs"))));
    assert!(!same_value(&Some(String::from("rs")), &Some(String::from("ts"))));
    assert!(!same_value(&Some(String::new()), &None));
    assert!(!same_value(&None, &Some(String::new())));
}

#[test]
fn marking_without_a_manifest_does_nothing() {
    let mut manifest: Option<String> = None;
    assert_eq!(add_feature(&mut manifest, "askama"), Ok(()));
    assert_eq!(manifest, None);
}

#[test]
fn a_manifest_without_features_gets_them() {
    let mut manifest = Some(String::from("[kraken]\nlanguage = \"rs\"\n"));
    assert_eq!(has_feature(manifest.as_deref(), "askama"), Ok(false));
    assert_eq!(add_feature(&mut manifest, "askama"), Ok(()));
    assert_eq!(has_feature(manifest.as_deref(), "askama"), Ok(true));
    let text = manifest.unwrap();
    assert!(text.contains("[kraken]\nlanguage = \"rs\"\n"));
    assert!(text.contains("askama = true"));
}

#[test]
fn an_inline_table_of_features_is_read_and_written() {
    let text = "features = { htmx = true }\n";
    assert_eq!(has_feature(Some(text), "htmx"), Ok(true));
    assert_eq!(has_feature(Some(text), "askama"), Ok(false));
    let marked = mark_in_manifest(text, "askama").unwrap();
    assert_eq!(has_feature(Some(&marked), "askama"), Ok(true));
    assert_eq!(has_feature(Some(&marked), "htmx"), Ok(true));
}

#[test]
fn a_text_that_is_not_toml_is_malformed() {
    let text = "[features\naskama = true\n";
    assert_eq!(manifest_lists(text, "askama"), None);
    assert_eq!(mark_in_manifest(text, "askama"), None);
    assert_eq!(has_feature(Some(text), "askama"), Err(ScaffoldError::ManifestMalformed));
    assert_eq!(check_feature(Some(text), "askama"), Err(ScaffoldError::ManifestMalformed));
    let mut manifest = Some(String::from(text));
    assert_eq!(add_feature(&mut manifest, "askama"), Err(ScaffoldError::ManifestMalformed));
    assert_eq!(manifest.as_deref(), Some(text));
}

#[test]
fn features_that_are_no_table_cannot_be_marked() {
    for text in ["features = 3\n", "features = [1]\n", "[[features]]\nx = 1\n"] {
        assert_eq!(has_feature(Some(text), "askama"), Ok(false));
        assert_eq!(mark_in_manifest(text, "askama"), None);
        let mut manifest = Some(String::from(text));
        assert_eq!(add_feature(&mut manifest, "askama"), Err(ScaffoldError::ManifestMalformed));
        assert_eq!(manifest.as_deref(), Some(text));
    }
}

#[test]
fn a_name_that_needs_quotes_is_written_with_them() {
    let mut manifest = Some(String::from(FRESH));
    assert_eq!(add_feature(&mut manifest, "my feature"), Ok(()));
    assert_eq!(has_feature(manifest.as_deref(), "my feature"), Ok(true));
    assert_eq!(has_feature(manifest.as_deref(), "my"), Ok(false));
}

#[test]
fn a_listing_is_read_for_the_one_who_asked() {
    assert_eq!(listing_outcome(Some(true)), Ok(true));
    assert_eq!(listing_outcome(Some(false)), Ok(false));
    assert_eq!(listing_outcome(None), Err(ScaffoldError::ManifestMalformed));
    assert_eq!(check_listing(Ok(true)), Err(ScaffoldError::AlreadyExists));
    assert_eq!(check_listing(Ok(false)), Ok(()));
    assert_eq!(check_listing(Err(ScaffoldError::NotInitialized)), Ok(()));
    assert_eq!(
        check_listing(Err(ScaffoldError::ManifestMalformed)),
        Err(ScaffoldError::ManifestMalformed)
    );
}

#[test]
fn a_marked_manifest_lists_the_feature_whatever_its_shape() {
    let manifests = [
        "",
        "\n",
        "# only a comment\n",
        "[features]",
        "[features]\r\nhtmx = true\r\n",
        "[kraken]\nlanguage = \"rs\"\n[features]\n[other]\nx = 1\n",
        "features = {}\n",
        "features = { a = 1, b = \"two\" }\n[t]\n",
        "features.htmx = true\n",
        "[features.nested]\nx = 1\n",
        "[kraken]\nfeatures = 1\n",
        "[[bin]]\nname = \"a\"\n[features]\n",
        "\"features\" = { }\n",
        "[features] # trailing\n   spaced   =   true   \n",
        "title = \"é ü\"\n[features]\n\"é\" = true\n",
    ];
    for text in manifests {
        for name in ["askama", "htmx", "a", "my feature", "é", "a.b", ""] {
            let before = has_feature(Some(text), name);
            let mut manifest = Some(String::from(text));
            let report = add_feature(&mut manifest, name);
            assert_eq!(before.is_ok(), report.is_ok(), "{:?} {:?}", text, name);
            if report.is_ok() {
                assert_eq!(has_feature(manifest.as_deref(), name), Ok(true), "{:?} {:?}", text, name);
                if before == Ok(true) {
                    assert_eq!(manifest.as_deref(), Some(text));
                }
                let again = manifest.clone();
                assert_eq!(add_feature(&mut manifest, name), Ok(()));
                assert_eq!(manifest, again);
            } else {
                assert_eq!(manifest.as_deref(), Some(text));
            }
        }
    }
}

#[test]
fn marking_leaves_the_other_tables_as_they_were() {
    let text = "[kraken]\nlanguage = \"rs\"\nframework = \"axum\"\n\n[features]\n";
    let mut manifest = Some(String::from(text));
    assert_eq!(add_feature(&mut manifest, "askama"), Ok(()));
    assert_eq!(add_feature(&mut manifest, "htmx"), Ok(()));
    let after = manifest.unwrap();
    assert!(after.starts_with("[kraken]\nlanguage = \"rs\"\nframework = \"axum\"\n\n[features]\n"));
    assert_eq!(after, format!("{}askama = true\nhtmx = true\n", text));
}

#[test]
fn a_marking_is_judged_without_being_made() {
    assert_eq!(check_marking(None, "askama"), Ok(()));
    assert_eq!(check_marking(Some(FRESH), "askama"), Ok(()));
    assert_eq!(check_marking(Some("[features]\naskama = true\n"), "askama"), Ok(()));
    assert_eq!(check_marking(Some("[features]\naskama = false\n"), "askama"), Ok(()));
    assert_eq!(check_marking(Some("features = 3\n"), "askama"), Err(ScaffoldError::ManifestMalformed));
    assert_eq!(check_marking(Some("[features\n"), "askama"), Err(ScaffoldError::ManifestMalformed));
}
