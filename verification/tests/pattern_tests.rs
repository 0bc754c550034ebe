use archivus::FileUtils;

#[test]
fn test_wildcard_match() {
    let utils = FileUtils::new();

    assert!(utils.matches_pattern("test.txt", "*.txt"));
    assert!(utils.matches_pattern("arquivo.rs", "*.rs"));
    assert!(utils.matches_pattern("test", "t?st"));
    assert!(!utils.matches_pattern("test.txt", "*.rs"));
}

#[test]
fn test_star_matches_everything() {
    let utils = FileUtils::new();
    assert!(utils.matches_pattern("anything", "*"));
    assert!(utils.matches_pattern("", "*"));
    assert!(utils.matches_pattern("a.b.c", "*"));
}

#[test]
fn test_literal_match_case_insensitive() {
    let utils = FileUtils::new();
    assert!(utils.matches_pattern("TEST.TXT", "test.txt"));
    assert!(utils.matches_pattern("ReadMe.MD", "readme.md"));
    assert!(!utils.matches_pattern("readme.md", "readme.txt"));
}

#[test]
fn test_name_matches_itself() {
    let utils = FileUtils::new();
    assert!(utils.matches_pattern("Exact.Name", "Exact.Name"));
    assert!(utils.matches_pattern("a*b", "a*b"));
    assert!(utils.matches_pattern("wh?t", "wh?t"));
}

#[test]
fn test_question_mark_needs_one_char() {
    let utils = FileUtils::new();
    assert!(!utils.matches_pattern("te", "t?st"));
    assert!(!utils.matches_pattern("tesst", "t?st"));
    assert!(utils.matches_pattern("TeSt", "t?st"));
}

#[test]
fn test_wildcard_combinations() {
    let utils = FileUtils::new();
    assert!(utils.matches_pattern("report_2024.txt", "report_*.txt"));
    assert!(utils.matches_pattern("a", "*a*"));
    assert!(!utils.matches_pattern("b", "*a*"));
    assert!(utils.matches_pattern("abc", "a*c"));
    assert!(!utils.matches_pattern("abd", "a*c"));
}

#[test]
fn test_adversarial_pattern_stays_fast() {
    let utils = FileUtils::new();
    let name = "a".repeat(2000);
    let pattern = format!("{}b", "*".repeat(2000));
    assert!(!utils.matches_pattern(&name, &pattern));
    let pattern2 = format!("{}a", "*".repeat(2000));
    assert!(utils.matches_pattern(&name, &pattern2));
}

#[test]
fn test_has_extension() {
    let utils = FileUtils::new();
    assert!(utils.has_extension("documento.pdf", "pdf"));
    assert!(utils.has_extension("IMAGEM.JPG", "jpg"));
    assert!(utils.has_extension("arquivo.TXT", "txt"));
    assert!(utils.has_extension("dir.d/arquivo.backup.txt", "txt"));
    assert!(!utils.has_extension("dir.d/arquivo", "txt"));
    assert!(!utils.has_extension("sem_extensao", "txt"));
    assert!(!utils.has_extension(".gitignore", "gitignore"));
}
