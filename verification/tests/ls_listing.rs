use tinyutils::ls::listing::{is_listed, list_dir, Config};

fn names(list: &[&str]) -> Vec<String> {
    list.iter().map(|name| name.to_string()).collect()
}

#[test]
fn test_list_dir_basic() {
    let config = Config { include_dot_files: false };
    let entries = list_dir(&names(&["file1.txt", "file2.txt", "file3.txt"]), &config);
    assert_eq!(entries.len(), 3);
    assert!(entries.contains(&"file1.txt".to_string()));
    assert!(entries.contains(&"file2.txt".to_string()));
    assert!(entries.contains(&"file3.txt".to_string()));
}

#[test]
fn test_list_dir_hides_dotfiles_by_default() {
    let config = Config { include_dot_files: false };
    let entries = list_dir(&names(&["visible.txt", ".hidden"]), &config);
    assert_eq!(entries.len(), 1);
    assert!(entries.contains(&"visible.txt".to_string()));
    assert!(!entries.contains(&".hidden".to_string()));
}

#[test]
fn test_list_dir_shows_dotfiles_with_flag() {
    let config = Config { include_dot_files: true };
    let entries = list_dir(&names(&["visible.txt", ".hidden"]), &config);
    assert_eq!(entries.len(), 2);
    assert!(entries.contains(&"visible.txt".to_string()));
    assert!(entries.contains(&".hidden".to_string()));
}

#[test]
fn test_list_dir_includes_subdirectories() {
    let config = Config { include_dot_files: false };
    let entries = list_dir(&names(&["file.txt", "subdir"]), &config);
    assert_eq!(entries.len(), 2);
    assert!(entries.contains(&"file.txt".to_string()));
    assert!(entries.contains(&"subdir".to_string()));
}

#[test]
fn test_list_dir_sorted() {
    let config = Config { include_dot_files: false };
    let entries = list_dir(&names(&["zebra.txt", "apple.txt", "mango.txt"]), &config);
    assert_eq!(entries, vec!["apple.txt", "mango.txt", "zebra.txt"]);
}

#[test]
fn test_list_dir_empty() {
    let config = Config { include_dot_files: false };
    let entries = list_dir(&names(&[]), &config);
    assert!(entries.is_empty());
}

#[test]
fn list_dir_sorts_what_it_was_given_unsorted() {
    let config = Config { include_dot_files: true };
    let entries = list_dir(&names(&["b", ".b", "a", "B", "ab", "", "a", "é", "z"]), &config);
    assert_eq!(entries, vec!["", ".b", "B", "a", "a", "ab", "b", "z", "é"]);
    let config = Config { include_dot_files: false };
    let entries = list_dir(&names(&["b", ".b", "a", "B", "ab", "", "a", "é", "z"]), &config);
    assert_eq!(entries, vec!["", "B", "a", "a", "ab", "b", "z", "é"]);
}

#[test]
fn hidden_names_start_with_a_dot() {
    assert!(is_listed("file", false));
    assert!(is_listed("file.txt", false));
    assert!(is_listed("a.", false));
    assert!(is_listed("", false));
    assert!(is_listed("é.txt", false));
    assert!(!is_listed(".hidden", false));
    assert!(!is_listed(".", false));
    assert!(!is_listed("..", false));
    assert!(is_listed(".hidden", true));
    assert!(is_listed(".", true));
    assert!(is_listed("file", true));
}
