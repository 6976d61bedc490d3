use std::path::PathBuf;

use imagegen::output::{
    auto_paths, indexed_paths, indexed_paths_from, join, plan_paths, plan_paths_with, slugify,
};

fn as_paths(v: Vec<String>) -> Vec<PathBuf> {
    v.into_iter().map(PathBuf::from).collect()
}

#[test]
fn slugify_basic() {
    assert_eq!(slugify("A cat, sitting on a mat!", 48), "a-cat-sitting-on-a-mat");
}

#[test]
fn slugify_truncates() {
    let slug = slugify("word ".repeat(30).as_str(), 20);
    assert!(slug.len() <= 20);
    assert!(!slug.ends_with('-'));
}

#[test]
fn slugify_unicode_and_symbols() {
    assert_eq!(slugify("héllo wörld 🎨", 48), "h-llo-w-rld");
    assert_eq!(slugify("---", 48), "");
}

#[test]
fn slugify_shape_on_samples() {
    for text in ["  Hello,   World  ", "ABC--def__GHI", "x", "", "日本語 text 123"] {
        let s = slugify(text, 8);
        assert!(s.len() <= 8);
        assert!(s.chars().all(|c| c.is_ascii_lowercase() || c.is_ascii_digit() || c == '-'));
        assert!(!s.starts_with('-') && !s.ends_with('-'));
        assert!(!s.contains("--"));
    }
    assert_eq!(slugify("ABC--def__GHI", 48), "abc-def-ghi");
    assert_eq!(slugify("abcdefghij", 4), "abcd");
}

#[test]
fn explicit_file_single() {
    let paths = as_paths(plan_paths(Some("out/pic.png"), "x", "png", 1));
    assert_eq!(paths, vec![PathBuf::from("out/pic.png")]);
}

#[test]
fn explicit_file_multi_gets_indexed() {
    let paths = as_paths(plan_paths(Some("pic.jpeg"), "x", "jpeg", 3));
    assert_eq!(
        paths,
        vec![
            PathBuf::from("pic-1.jpeg"),
            PathBuf::from("pic-2.jpeg"),
            PathBuf::from("pic-3.jpeg"),
        ]
    );
}

#[test]
fn trailing_slash_means_directory() {
    let paths = as_paths(plan_paths(Some("outdir/"), "sunset beach", "png", 2));
    assert_eq!(paths.len(), 2);
    for p in &paths {
        assert!(p.starts_with("outdir"));
        let name = p.file_name().unwrap().to_str().unwrap();
        assert!(name.starts_with("sunset-beach-"));
        assert!(name.ends_with(".png"));
    }
    assert_ne!(paths[0], paths[1]);
}

#[test]
fn default_paths_use_slug_and_extension() {
    let paths = as_paths(plan_paths(None, "Neon city at night", "webp", 1));
    assert_eq!(paths.len(), 1);
    let name = paths[0].file_name().unwrap().to_str().unwrap();
    assert!(name.starts_with("neon-city-at-night-"));
    assert!(name.ends_with(".webp"));
}

#[test]
fn planned_paths_count_and_distinct() {
    for n in [0usize, 1, 2, 5, 12] {
        for out in [None, Some("dir/"), Some("img.png"), Some("noext")] {
            let paths = plan_paths(out, "p", "png", n);
            assert_eq!(paths.len(), n);
            for i in 0..paths.len() {
                for j in 0..i {
                    assert_ne!(paths[i], paths[j]);
                }
            }
        }
    }
}

#[test]
fn auto_paths_exact_names() {
    assert_eq!(
        auto_paths("out", "Sunset Beach", "png", 1, "20240101-120000"),
        vec!["out/sunset-beach-20240101-120000.png".to_string()]
    );
    assert_eq!(
        auto_paths(".", "!!!", "jpeg", 2, "S"),
        vec!["./imagegen-S-1.jpeg".to_string(), "./imagegen-S-2.jpeg".to_string()]
    );
    assert_eq!(auto_paths("", "cat", "webp", 1, "T"), vec!["cat-T.webp".to_string()]);
}

#[test]
fn indexed_paths_defaults() {
    assert_eq!(
        indexed_paths_from(None, None, None, 2),
        vec!["./image-1.png".to_string(), "./image-2.png".to_string()]
    );
    assert_eq!(
        indexed_paths_from(Some("a/b".into()), Some("pic".into()), Some("gif".into()), 1),
        vec!["a/b/pic-1.gif".to_string()]
    );
    assert_eq!(
        as_paths(plan_paths(Some("a/b/.hidden"), "x", "png", 2)),
        vec![PathBuf::from("a/b/.hidden-1.png"), PathBuf::from("a/b/.hidden-2.png")]
    );
}

#[test]
fn join_separators() {
    assert_eq!(join("a", "b"), "a/b");
    assert_eq!(join("a/", "b"), "a/b");
    assert_eq!(join("", "b"), "b");
    assert_eq!(join("a", "/abs"), "/abs");
}

#[test]
fn slugify_is_idempotent() {
    for text in ["A cat, sitting on a mat!", "---x---", "héllo wörld 🎨", "Under_score  and  SPACES"] {
        let once = slugify(text, 48);
        assert_eq!(slugify(&once, 48), once);
    }
}

#[test]
fn plan_paths_with_follows_the_given_answers() {
    let s = |v: &str| Some(v.to_string());
    // An explicit file that is no directory: itself for one image.
    assert_eq!(
        plan_paths_with(Some("out/pic.png"), false, "T", s("out"), s("pic"), s("png"), "x", "png", 1),
        vec!["out/pic.png".to_string()]
    );
    // Several images: numbered siblings from parent, stem and extension; the
    // requested extension does not matter here.
    assert_eq!(
        plan_paths_with(Some("pic.jpeg"), false, "T", s(""), s("pic"), s("jpeg"), "x", "png", 3),
        vec!["pic-1.jpeg".to_string(), "pic-2.jpeg".to_string(), "pic-3.jpeg".to_string()]
    );
    // An existing directory spelled without a separator gets automatic names.
    assert_eq!(
        plan_paths_with(Some("shots"), true, "20240102-030405", s(""), s("shots"), None, "Red car", "webp", 2),
        vec![
            "shots/red-car-20240102-030405-1.webp".to_string(),
            "shots/red-car-20240102-030405-2.webp".to_string(),
        ]
    );
    // A trailing separator means a directory whatever the disk says.
    assert_eq!(
        plan_paths_with(Some("new/"), false, "S", s(""), s("new"), None, "", "png", 1),
        vec!["new/imagegen-S.png".to_string()]
    );
    // No output argument: the current directory.
    assert_eq!(
        plan_paths_with(None, false, "S", None, None, None, "cat", "png", 1),
        vec!["./cat-S.png".to_string()]
    );
}

#[test]
fn indexed_paths_use_path_parts() {
    assert_eq!(
        indexed_paths("shots/final.webp", 2),
        vec!["shots/final-1.webp".to_string(), "shots/final-2.webp".to_string()]
    );
    assert_eq!(indexed_paths("noext", 1), vec!["noext-1.png".to_string()]);
}

#[test]
fn default_stamp_is_digits_and_dashes() {
    let paths = plan_paths(None, "", "png", 1);
    let name = paths[0].strip_prefix("./imagegen-").unwrap().strip_suffix(".png").unwrap();
    assert_eq!(name.len(), 15);
    assert!(name.chars().all(|c| c.is_ascii_digit() || c == '-' || c == '+'));
}
