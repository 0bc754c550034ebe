use archivus::FileUtils;
use archivus::filter::FileFilter;
use archivus::info::FileInfo;
use archivus::traverse::Entry;

fn file(path: &str, size: u64) -> Entry {
    Entry { info: FileInfo::new(path.to_string(), size, false, true, None), children: Vec::new() }
}

fn dir(path: &str, children: Vec<Entry>) -> Entry {
    Entry { info: FileInfo::new(path.to_string(), 0, true, false, None), children }
}

fn sample_tree() -> Vec<Entry> {
    vec![
        file("root/a.txt", 5),
        file("root/b.TXT", 3),
        dir(
            "root/sub",
            vec![file("root/sub/c.md", 1), file("root/sub/d.txt", 7)],
        ),
        file("root/e.rs", 2),
    ]
}

#[test]
fn test_file_exists() {
    let utils = FileUtils::new();
    let snapshot = vec![file("test_file.txt", 17)];

    assert!(utils.file_exists(&snapshot, "test_file.txt"));
    assert!(!utils.file_exists(&snapshot, "arquivo_inexistente.txt"));
}

#[test]
fn test_existence_checks_by_kind() {
    let utils = FileUtils::new();
    let snapshot = sample_tree();
    assert!(utils.file_exists(&snapshot, "root/sub/c.md"));
    assert!(!utils.file_exists(&snapshot, "root/sub"));
    assert!(utils.directory_exists(&snapshot, "root/sub"));
    assert!(!utils.directory_exists(&snapshot, "root/a.txt"));
    assert!(utils.path_exists(&snapshot, "root/a.txt"));
    assert!(utils.path_exists(&snapshot, "root/sub"));
    assert!(!utils.path_exists(&snapshot, "root/nothing"));
}

#[test]
fn test_list_files_and_directories() {
    let utils = FileUtils::new();
    let files = utils.list_files(sample_tree());
    let names: Vec<String> = files.iter().map(|f| f.name.clone()).collect();
    assert_eq!(names, vec!["a.txt", "b.TXT", "e.rs"]);

    let dirs = utils.list_directories(sample_tree());
    assert_eq!(dirs.len(), 1);
    assert_eq!(dirs[0].name, "sub");

    let all = utils.list_all(sample_tree());
    assert_eq!(all.len(), 4);
}

#[test]
fn test_list_with_filter_recursive_order() {
    let utils = FileUtils::new();
    let mut filter = FileFilter::default();
    filter.recursive = true;
    let items = utils.list_with_filter(sample_tree(), &filter);
    let names: Vec<String> = items.iter().map(|f| f.name.clone()).collect();
    // Pre-order: an entry stands before its descendants, siblings keep
    // their order.
    assert_eq!(names, vec!["a.txt", "b.TXT", "sub", "c.md", "d.txt", "e.rs"]);
}

#[test]
fn test_filtered_out_directory_is_still_walked() {
    let utils = FileUtils::new();
    let mut filter = FileFilter::default();
    filter.recursive = true;
    filter.include_directories = false;
    let items = utils.list_with_filter(sample_tree(), &filter);
    let names: Vec<String> = items.iter().map(|f| f.name.clone()).collect();
    // The directory itself is filtered out, but its files still appear.
    assert_eq!(names, vec!["a.txt", "b.TXT", "c.md", "d.txt", "e.rs"]);
}

#[test]
fn test_nonrecursive_entries_appear_in_recursive_parent_listing() {
    let utils = FileUtils::new();
    let filter = FileFilter::default();
    let sub_only = utils.list_with_filter(
        vec![file("root/sub/c.md", 1), file("root/sub/d.txt", 7)],
        &filter,
    );
    let mut recursive = FileFilter::default();
    recursive.recursive = true;
    let parent = utils.list_with_filter(sample_tree(), &recursive);
    for item in &sub_only {
        assert!(parent.iter().any(|p| p.path == item.path));
    }
}

#[test]
fn test_empty_snapshot() {
    let utils = FileUtils::new();
    assert!(utils.list_all(Vec::new()).is_empty());
    let mut recursive = FileFilter::default();
    recursive.recursive = true;
    assert!(utils.list_with_filter(Vec::new(), &recursive).is_empty());
    assert!(!utils.path_exists(&Vec::new(), "anything"));
    let stats = utils.directory_stats(Vec::new());
    assert_eq!(stats.file_count, 0);
    assert_eq!(stats.directory_count, 0);
    assert_eq!(stats.total_size, 0);
    assert!(stats.largest_file_name.is_none());
    assert!(stats.extensions.is_empty());
}

#[test]
fn test_default_filter_keeps_everything() {
    let filter = FileFilter::default();
    assert!(filter.extensions.is_none());
    assert!(filter.min_size.is_none());
    assert!(filter.max_size.is_none());
    assert!(filter.include_directories);
    assert!(filter.include_files);
    assert!(!filter.recursive);

    let utils = FileUtils::new();
    let items = utils.list_with_filter(sample_tree(), &filter);
    assert_eq!(items.len(), 4);
}

#[test]
fn test_size_bounds_are_inclusive() {
    let utils = FileUtils::new();
    let mut filter = FileFilter::default();
    filter.min_size = Some(3);
    filter.max_size = Some(5);
    let items = utils.list_with_filter(sample_tree(), &filter);
    let names: Vec<String> = items.iter().map(|f| f.name.clone()).collect();
    // 5 and 3 stand exactly on the bounds and stay; 2 is below; the
    // directory has size 0 and is rejected by the minimum.
    assert_eq!(names, vec!["a.txt", "b.TXT"]);
}

#[test]
fn test_filter_clauses_toggle_independently() {
    let utils = FileUtils::new();
    let entry = FileInfo::new("root/a.txt".to_string(), 5, false, true, None);

    let all = FileFilter::default();
    assert!(utils.matches_filter(&entry, &all));

    let mut no_files = FileFilter::default();
    no_files.include_files = false;
    assert!(!utils.matches_filter(&entry, &no_files));

    let mut wrong_ext = FileFilter::default();
    wrong_ext.extensions = Some(vec!["md".to_string()]);
    assert!(!utils.matches_filter(&entry, &wrong_ext));

    let mut right_ext = FileFilter::default();
    right_ext.extensions = Some(vec!["TXT".to_string()]);
    assert!(utils.matches_filter(&entry, &right_ext));

    let mut min_too_high = FileFilter::default();
    min_too_high.min_size = Some(6);
    assert!(!utils.matches_filter(&entry, &min_too_high));

    let mut max_too_low = FileFilter::default();
    max_too_low.max_size = Some(4);
    assert!(!utils.matches_filter(&entry, &max_too_low));
}

#[test]
fn test_directories_pass_extension_filter() {
    let utils = FileUtils::new();
    let d = FileInfo::new("root/sub".to_string(), 0, true, false, None);
    let mut filter = FileFilter::default();
    filter.extensions = Some(vec!["txt".to_string()]);
    // Only files are held to the extension set.
    assert!(utils.matches_filter(&d, &filter));
}

#[test]
fn test_find_by_extension_case_insensitive() {
    let utils = FileUtils::new();
    let snapshot = vec![
        file("dir/a.txt", 5),
        file("dir/b.TXT", 3),
        file("dir/c.md", 1),
    ];
    let found = utils.find_by_extension(snapshot, "txt", false);
    let names: Vec<String> = found.iter().map(|f| f.name.clone()).collect();
    assert_eq!(names, vec!["a.txt", "b.TXT"]);
}

#[test]
fn test_find_by_name_wildcards() {
    let utils = FileUtils::new();
    let found = utils.find_by_name(sample_tree(), "*.txt", true);
    let names: Vec<String> = found.iter().map(|f| f.name.clone()).collect();
    assert_eq!(names, vec!["a.txt", "b.TXT", "d.txt"]);

    let found_flat = utils.find_by_name(sample_tree(), "*.txt", false);
    let names_flat: Vec<String> = found_flat.iter().map(|f| f.name.clone()).collect();
    assert_eq!(names_flat, vec!["a.txt", "b.TXT"]);
}

#[test]
fn test_find_by_size() {
    let utils = FileUtils::new();
    let found = utils.find_by_size(sample_tree(), Some(3), Some(7), true);
    let names: Vec<String> = found.iter().map(|f| f.name.clone()).collect();
    assert_eq!(names, vec!["a.txt", "b.TXT", "d.txt"]);

    let none = utils.find_by_size(sample_tree(), Some(100), None, true);
    assert!(none.is_empty());
}
