use dirbuf::file_helper::{PathError, PathHelper};

fn strings(items: &[&str]) -> Vec<String> {
    items.iter().map(|s| s.to_string()).collect()
}

#[test]
fn new_keeps_the_path_and_the_start_directory() {
    let path = PathHelper::new("sub", "/home/u");
    assert_eq!(path.get_path_str(), "sub");
    assert_eq!(path.start_directory(), "/home/u");
    let copy = PathHelper::from_path(path.clone());
    assert_eq!(copy.get_path_str(), "sub");
    assert_eq!(copy.get_absolute_path(), "/home/u/sub");
}

#[test]
fn absolute_path_of_the_start_directory() {
    assert_eq!(PathHelper::new(".", "/home/u").get_absolute_path(), "/home/u");
    assert_eq!(PathHelper::new("./", "/home/u").get_absolute_path(), "/home/u");
    assert_eq!(PathHelper::new("", "/home/u").get_absolute_path(), "/home/u");
}

#[test]
fn absolute_path_below_the_start_directory() {
    assert_eq!(PathHelper::new("./a/b", "/home/u").get_absolute_path(), "/home/u/a/b");
    assert_eq!(PathHelper::new("a", "/home/u").get_absolute_path(), "/home/u/a");
}

#[test]
fn absolute_path_above_the_start_directory() {
    assert_eq!(PathHelper::new("..", "/home/u").get_absolute_path(), "/home");
    assert_eq!(PathHelper::new("../", "/home/u").get_absolute_path(), "/home");
    assert_eq!(PathHelper::new("../..", "/home/u").get_absolute_path(), "");
    assert_eq!(PathHelper::new("../x", "/home/u").get_absolute_path(), "/home/x");
    assert_eq!(PathHelper::new("./../../x/y", "/a/b/c").get_absolute_path(), "/a/x/y");
    assert_eq!(PathHelper::new("..", "").get_absolute_path(), "");
}

#[test]
fn cd_into_a_directory() {
    let mut path = PathHelper::new(".", "/home/u");
    assert_eq!(path.cd_target("sub"), Some("./sub".to_string()));
    assert_eq!(path.cd("sub", true), Some(()));
    assert_eq!(path.get_path_str(), "./sub");
    assert_eq!(path.cd("/deeper", true), Some(()));
    assert_eq!(path.get_path_str(), "./sub/deeper");
    assert_eq!(path.get_absolute_path(), "/home/u/sub/deeper");
}

#[test]
fn cd_up_cuts_the_last_component() {
    let mut path = PathHelper::new("./sub/deeper", "/home/u");
    assert_eq!(path.cd("..", true), Some(()));
    assert_eq!(path.get_path_str(), "./sub");
    assert_eq!(path.cd("../", true), Some(()));
    assert_eq!(path.get_path_str(), ".");
    // from the start directory upwards the path grows
    assert_eq!(path.cd("..", true), Some(()));
    assert_eq!(path.get_path_str(), "./..");
    assert_eq!(path.cd("..", true), Some(()));
    assert_eq!(path.get_path_str(), "./../..");
    assert_eq!(path.get_absolute_path(), "");
}

#[test]
fn cd_with_a_slash_at_the_end() {
    let mut path = PathHelper::new("./sub/", "/home/u");
    assert_eq!(path.cd_target("x"), Some("./sub/x".to_string()));
    assert_eq!(path.cd_target(".."), Some("./sub".to_string()));
    let up = PathHelper::new("../", "/home/u");
    assert_eq!(up.cd_target("x"), Some("../x".to_string()));
    assert_eq!(up.cd_target(".."), Some("../..".to_string()));
    assert_eq!(path.cd("x", true), Some(()));
}

#[test]
fn cd_fails_where_the_path_does_not_exist() {
    let mut path = PathHelper::new(".", "/home/u");
    assert_eq!(path.cd("sub", false), None);
    assert_eq!(path.get_path_str(), ".");
}

#[test]
fn cd_fails_without_a_directory_to_start_from() {
    let mut path = PathHelper::new(".", "");
    assert_eq!(path.cd_target("sub"), None);
    assert_eq!(path.cd("sub", true), None);
    assert_eq!(path.get_path_str(), ".");
}

#[test]
fn get_parent_is_one_cd_up() {
    let path = PathHelper::new("./sub", "/home/u");
    let parent = path.get_parent(true).unwrap();
    assert_eq!(parent.get_path_str(), ".");
    assert_eq!(path.get_path_str(), "./sub");
    assert!(path.get_parent(false).is_none());
}

#[test]
fn sim_cd_names_the_path_below() {
    let path = PathHelper::new("./sub", "/home/u");
    assert_eq!(path.sim_cd("x", true), Some("./sub/x".to_string()));
    assert_eq!(path.sim_cd("x", false), None);
    assert_eq!(path.sim_cd_target("x"), "./sub/x");
    assert_eq!(path.get_path_str(), "./sub");
}

#[test]
fn set_path_replaces_the_path() {
    let mut path = PathHelper::new("./sub", "/home/u");
    assert_eq!(path.set_path("other", false), None);
    assert_eq!(path.get_path_str(), "./sub");
    assert_eq!(path.set_path("other", true), Some(()));
    assert_eq!(path.get_path_str(), "other");
}

#[test]
fn get_file_name_is_the_final_component() {
    assert_eq!(PathHelper::new("a/b.txt", "/").get_file_name(), Some("b.txt".to_string()));
    assert_eq!(PathHelper::new("/usr/bin/", "/").get_file_name(), Some("bin".to_string()));
    assert_eq!(PathHelper::new("foo.txt/.", "/").get_file_name(), Some("foo.txt".to_string()));
    assert_eq!(PathHelper::new("foo.txt/.//", "/").get_file_name(), Some("foo.txt".to_string()));
    assert_eq!(PathHelper::new("foo.txt/..", "/").get_file_name(), None);
    assert_eq!(PathHelper::new("/", "/").get_file_name(), None);
    assert_eq!(PathHelper::new(".", "/").get_file_name(), None);
    assert_eq!(PathHelper::new("", "/").get_file_name(), None);
}

#[test]
fn get_file_name_agrees_with_the_standard_library() {
    for p in ["a/b.txt", "/usr/bin/", "foo.txt/.", "foo.txt/.//", "foo.txt/..", "/", ".", "", "./x", "..", "a//b", "./"] {
        let ours = PathHelper::new(p, "/").get_file_name();
        let theirs = std::path::Path::new(p).file_name().map(|n| n.to_str().unwrap().to_string());
        assert_eq!(ours, theirs, "{}", p);
    }
}

#[test]
fn dir_names_are_trimmed_for_showing() {
    let path = PathHelper::new(".", "/home/u");
    let names = strings(&["./a", "././b", "c", "../d"]);
    assert_eq!(path.get_dir_names_printable(&names, true), strings(&["a", "b", "c", "../d"]));
    assert_eq!(path.get_dir_names_printable(&names, false), names);
    assert_eq!(path.get_dir_names_trimmed(&names), strings(&["a", "b", "c", "d"]));
    assert_eq!(path.get_dir_names_trimmed(&strings(&["./../../x"])), strings(&["x"]));
}

#[test]
fn listing_lengths() {
    let path = PathHelper::new(".", "/home/u");
    let names = strings(&["./abc", "./sub/äö"]);
    assert_eq!(path.get_file_count(&names), 2);
    assert_eq!(path.get_line_length(&names, 0), Ok(3));
    assert_eq!(path.get_line_length(&names, 1), Ok(2));
    assert_eq!(path.get_line_length(&names, 2), Err(PathError::OutOfBounds));
    assert_eq!(PathError::OutOfBounds.message(), "y is out of bounds");
    assert_eq!(PathHelper::trim_path("a/b/c.txt"), "c.txt");
}
