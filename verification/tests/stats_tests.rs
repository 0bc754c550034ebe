use archivus::FileUtils;
use archivus::info::FileInfo;
use archivus::traverse::Entry;

fn file(path: &str, size: u64) -> Entry {
    Entry { info: FileInfo::new(path.to_string(), size, false, true, None), children: Vec::new() }
}

fn dir(path: &str, children: Vec<Entry>) -> Entry {
    Entry { info: FileInfo::new(path.to_string(), 0, true, false, None), children }
}

fn aggregation_tree() -> Vec<Entry> {
    vec![
        file("root/x.txt", 10),
        file("root/y.txt", 20),
        file("root/z.md", 5),
        dir("root/sub", Vec::new()),
    ]
}

#[test]
fn test_directory_stats_aggregation() {
    let utils = FileUtils::new();
    let stats = utils.directory_stats(aggregation_tree());
    assert_eq!(stats.file_count, 3);
    assert_eq!(stats.directory_count, 1);
    assert_eq!(stats.total_size, 35);
    assert_eq!(stats.largest_file_size, 20);
    assert_eq!(stats.largest_file_name.as_deref(), Some("y.txt"));
}

#[test]
fn test_directory_stats_extension_counts() {
    let utils = FileUtils::new();
    let stats = utils.directory_stats(vec![
        file("r/a.txt", 1),
        file("r/b.TXT", 2),
        file("r/c.md", 3),
        file("r/noext", 4),
    ]);
    // Extensions are lowercased at construction; extensionless files are
    // counted nowhere in this table.
    let mut pairs: Vec<(String, usize)> = stats.extensions.clone();
    pairs.sort();
    assert_eq!(
        pairs,
        vec![("md".to_string(), 1), ("txt".to_string(), 2)]
    );
}

#[test]
fn test_directory_stats_counts_nested() {
    let utils = FileUtils::new();
    let stats = utils.directory_stats(vec![
        file("r/a.txt", 10),
        dir("r/sub", vec![file("r/sub/b.txt", 20), file("r/sub/c.txt", 5)]),
    ]);
    assert_eq!(stats.file_count, 3);
    assert_eq!(stats.directory_count, 1);
    assert_eq!(stats.total_size, 35);
    assert_eq!(stats.largest_file_size, 20);
    assert_eq!(stats.largest_file_name.as_deref(), Some("b.txt"));
}

#[test]
fn test_largest_file_first_wins_ties() {
    let utils = FileUtils::new();
    let stats = utils.directory_stats(vec![
        file("r/first.bin", 9),
        file("r/second.bin", 9),
    ]);
    assert_eq!(stats.largest_file_size, 9);
    assert_eq!(stats.largest_file_name.as_deref(), Some("first.bin"));
}

#[test]
fn test_stats_of_all_empty_files() {
    let utils = FileUtils::new();
    let stats = utils.directory_stats(vec![file("r/a.txt", 0), file("r/b.txt", 0)]);
    assert_eq!(stats.file_count, 2);
    assert_eq!(stats.total_size, 0);
    assert_eq!(stats.largest_file_size, 0);
    // No file ever exceeded zero, so none is named.
    assert!(stats.largest_file_name.is_none());
}

#[test]
fn test_directory_size_and_counts() {
    let utils = FileUtils::new();
    assert_eq!(utils.directory_size(aggregation_tree()), 35);
    assert_eq!(utils.count_files(aggregation_tree(), false), 3);
    assert_eq!(utils.count_files(aggregation_tree(), true), 3);
    assert_eq!(utils.count_directories(aggregation_tree(), false), 1);

    let nested = vec![dir("r/sub", vec![file("r/sub/a.txt", 7)])];
    assert_eq!(utils.count_files(nested, false), 0);
    let nested2 = vec![dir("r/sub", vec![file("r/sub/a.txt", 7)])];
    assert_eq!(utils.count_files(nested2, true), 1);
}

#[test]
fn test_files_to_hashmap_keys_by_name() {
    let utils = FileUtils::new();
    let listing = vec![
        FileInfo::new("r/a.txt".to_string(), 1, false, true, None),
        FileInfo::new("r/b.txt".to_string(), 2, false, true, None),
        FileInfo::new("other/a.txt".to_string(), 3, false, true, None),
    ];
    let map = utils.files_to_hashmap(listing);
    // Keys are unique: the later record of a shared name replaced the
    // earlier one.
    assert_eq!(map.len(), 2);
    let a = map.iter().find(|(k, _)| k == "a.txt").unwrap();
    assert_eq!(a.1.size, 3);
    let b = map.iter().find(|(k, _)| k == "b.txt").unwrap();
    assert_eq!(b.1.size, 2);
}

#[test]
fn test_group_by_extension_with_sentinel() {
    let utils = FileUtils::new();
    let listing = vec![
        FileInfo::new("r/a.txt".to_string(), 1, false, true, None),
        FileInfo::new("r/noext".to_string(), 2, false, true, None),
        FileInfo::new("r/b.TXT".to_string(), 3, false, true, None),
    ];
    let groups = utils.group_by_extension(listing);
    assert_eq!(groups.len(), 2);
    let txt = groups.iter().find(|(k, _)| k == "txt").unwrap();
    assert_eq!(txt.1.len(), 2);
    assert_eq!(txt.1[0].name, "a.txt");
    assert_eq!(txt.1[1].name, "b.TXT");
    let none = groups.iter().find(|(k, _)| k == "sem_extensao").unwrap();
    assert_eq!(none.1.len(), 1);
    assert_eq!(none.1[0].name, "noext");
}

#[test]
fn test_group_by_extension_skips_directories() {
    let utils = FileUtils::new();
    let listing = vec![
        FileInfo::new("r/a.txt".to_string(), 1, false, true, None),
        FileInfo::new("r/sub.txt".to_string(), 0, true, false, None),
    ];
    let groups = utils.group_by_extension(listing);
    assert_eq!(groups.len(), 1);
    let txt = groups.iter().find(|(k, _)| k == "txt").unwrap();
    assert_eq!(txt.1.len(), 1);
    assert_eq!(txt.1[0].name, "a.txt");
}

#[test]
fn test_file_info_parsing() {
    let info = FileInfo::new("dir.d/Arquivo.Backup.TXT".to_string(), 42, false, true, Some(7));
    assert_eq!(info.name, "Arquivo.Backup.TXT");
    assert_eq!(info.extension.as_deref(), Some("txt"));
    assert_eq!(info.size, 42);
    assert!(info.is_file);
    assert!(!info.is_directory);
    assert_eq!(info.modified, Some(7));

    let hidden = FileInfo::new("home/.gitignore".to_string(), 1, false, true, None);
    assert_eq!(hidden.name, ".gitignore");
    assert!(hidden.extension.is_none());

    let plain = FileInfo::new("readme".to_string(), 1, false, true, None);
    assert_eq!(plain.name, "readme");
    assert!(plain.extension.is_none());
}
