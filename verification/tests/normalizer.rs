use rust_semverx::normalizer::{
    canonicalize_package_id, detect_homograph_attack, normalize_unicode_path, paths_are_equivalent,
    CanonicalPath, UnicodeNormalizer,
};

#[test]
fn test_basic_normalization() {
    let mut normalizer = UnicodeNormalizer::new();

    // Test ASCII passthrough
    assert_eq!(normalizer.normalize_string("hello"), "hello");

    // Test case normalization
    assert_eq!(normalizer.normalize_string("HeLLo"), "hello");
}

#[test]
fn test_homograph_normalization() {
    let mut normalizer = UnicodeNormalizer::new();

    // Test Cyrillic lookalikes
    assert_eq!(
        normalizer.normalize_string("\u{043d}\u{0435}ll\u{043e}"),
        "\u{043d}ello"
    );

    // Test mixed scripts
    let mixed = "p\u{0430}ckage"; // p with Cyrillic 'а'
    assert_eq!(normalizer.normalize_string(mixed), "package");
}

#[test]
fn test_path_normalization() {
    // Test basic path normalization
    assert_eq!(normalize_unicode_path("/usr//local///bin/"), "/usr/local/bin");

    // Test directory traversal prevention
    assert_eq!(normalize_unicode_path("/usr/../etc/passwd"), "/usr/_/etc/passwd");

    // Test Windows-style paths
    assert_eq!(normalize_unicode_path("C:\\Users\\Public"), "C:/Users/Public");
}

#[test]
fn test_homograph_detection() {
    let suspicious = "p\u{0430}ckage"; // p with Cyrillic 'а'
    let attacks = detect_homograph_attack(suspicious);
    assert_eq!(attacks.len(), 1);
    assert_eq!(attacks[0], '\u{0430}');
}

#[test]
fn test_package_canonicalization() {
    assert_eq!(canonicalize_package_id("My-Package.Name"), "my_package_name");

    assert_eq!(canonicalize_package_id("PACKAGE NAME 2.0"), "package_name_2_0");
}

#[test]
fn test_path_equivalence() {
    assert!(paths_are_equivalent("/usr/local/bin", "/usr//local///bin/"));

    assert!(paths_are_equivalent(
        "p\u{0430}ckage/bin", // Cyrillic 'а'
        "package/bin"
    ));

    assert!(!paths_are_equivalent("/usr/bin", "/usr/local/bin"));
}

#[test]
fn test_normalization() {
    let normalizer = UnicodeNormalizer::new();
    let input = "caf\u{221a}\u{00a9}";
    let normalized = normalizer.normalize(input);
    assert!(!normalized.is_empty());
}

#[test]
fn normalize_composes_characters() {
    let normalizer = UnicodeNormalizer::new();
    assert_eq!(normalizer.normalize("e\u{0301}"), "\u{00e9}");
    assert_eq!(normalizer.normalize("plain"), "plain");
}

#[test]
fn strings_lose_ligatures_and_hidden_characters() {
    let mut normalizer = UnicodeNormalizer::new();
    assert_eq!(normalizer.normalize_string("o\u{FB00}ice"), "office");
    assert_eq!(normalizer.normalize_string("\u{FB01}x \u{FB02}y"), "fix fly");
    assert_eq!(normalizer.normalize_string("a\u{200B}b\u{FEFF}"), "ab");
    assert_eq!(normalizer.normalize_string("a//b\\c"), "a/b/c");
    assert_eq!(normalizer.normalize_string("a///b"), "a//b");
    assert_eq!(normalizer.normalize_string("\u{0130}"), "i\u{0307}");
    // the second time the answer comes from memory
    let remembered = normalizer.cache_stats();
    assert_eq!(remembered, 6);
    assert_eq!(normalizer.normalize_string("o\u{FB00}ice"), "office");
    assert_eq!(normalizer.cache_stats(), remembered);
    normalizer.clear_cache();
    assert_eq!(normalizer.cache_stats(), 0);
    assert_eq!(normalizer.normalize_string("o\u{FB00}ice"), "office");
}

#[test]
fn characters_are_reduced_one_by_one() {
    let normalizer = UnicodeNormalizer::default();
    assert_eq!(normalizer.normalize_char('\u{0441}'), Some('c'));
    assert_eq!(normalizer.normalize_char('\u{03C4}'), Some('t'));
    assert_eq!(normalizer.normalize_char('\u{200D}'), Some('\0'));
    assert_eq!(normalizer.normalize_char('c'), None);
}

#[test]
fn paths_keep_case_and_lose_dots() {
    assert_eq!(normalize_unicode_path(""), "");
    assert_eq!(normalize_unicode_path("/"), "/");
    assert_eq!(normalize_unicode_path("a/./b"), "a/b");
    assert_eq!(normalize_unicode_path(".hidden./x"), "hidden/x");
    assert_eq!(normalize_unicode_path("Dir\\.\\File"), "Dir/File");
    assert_eq!(normalize_unicode_path("a/.../b"), "a/_/b");
    assert_eq!(CanonicalPath::normalize("/usr//lib/").0, "/usr/lib");
    assert_eq!(detect_homograph_attack("plain"), Vec::<char>::new());
    assert_eq!(detect_homograph_attack("\u{03B1}\u{200B}z\u{FB01}"), vec!['\u{03B1}', '\u{200B}', '\u{FB01}']);
}
