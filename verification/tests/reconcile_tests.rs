use dirbuf::buffer_storage::{BufferStorage, FileEntry, FileType, Listed, State};
use dirbuf::reconcile::{
    condense_path_name, entry_path, operation_of, reconciliation_plan, relative_directory,
    FsOperation,
};

fn entry(name: &str, dir: &str, state: State, file_type: FileType) -> FileEntry {
    FileEntry {
        original_name: name.to_string(),
        name: name.to_string(),
        original_dir: dir.to_string(),
        dir: dir.to_string(),
        state,
        file_type,
    }
}

#[test]
fn relative_directory_is_what_follows_the_start_directory() {
    assert_eq!(relative_directory("/home/u", "/home/u"), "");
    assert_eq!(relative_directory("/home/u/sub", "/home/u"), "sub");
    assert_eq!(relative_directory("/home/u/a/b", "/home/u"), "a/b");
    // a directory that is not below the start directory stays as it is
    assert_eq!(relative_directory("/home", "/home/u"), "/home");
    assert_eq!(relative_directory("/home/user2", "/home/u"), "/home/user2");
    assert_eq!(relative_directory("/etc", ""), "/etc");
    assert_eq!(relative_directory("./x", "/home/u"), "x");
    assert_eq!(relative_directory("", "/home/u"), "");
}

#[test]
fn entry_path_puts_the_name_below_the_directory() {
    assert_eq!(entry_path("/home/u", "a.txt", "/home/u"), "a.txt");
    assert_eq!(entry_path("/home/u/sub", "a.txt", "/home/u"), "sub/a.txt");
    assert_eq!(entry_path("/etc", "a.txt", "/home/u"), "/etc/a.txt");
    assert_eq!(entry_path("/home/u/sub/", "a.txt", "/home/u"), "sub/a.txt");
}

#[test]
fn condense_path_name_marks_directories() {
    let file = entry("a.txt", "/home/u", State::Deleted, FileType::File);
    assert_eq!(condense_path_name(&file, "/home/u"), "a.txt");
    let dir = entry("sub", "/home/u/x", State::Deleted, FileType::Directory);
    assert_eq!(condense_path_name(&dir, "/home/u"), "x/sub/");
}

#[test]
fn each_state_has_its_operation() {
    let pwd = "/home/u";
    let deleted = entry("a", pwd, State::Deleted, FileType::Directory);
    assert_eq!(operation_of(&deleted, pwd), Some(FsOperation::Delete("a/".to_string())));
    let mut modified = entry("a", pwd, State::Modified, FileType::File);
    modified.name = " b ".to_string();
    assert_eq!(
        operation_of(&modified, pwd),
        Some(FsOperation::Rename("a".to_string(), "b".to_string()))
    );
    let created = entry("n ", pwd, State::Created, FileType::File);
    assert_eq!(operation_of(&created, pwd), Some(FsOperation::CreateFile("n".to_string())));
    let created = entry("n/", "/home/u/x", State::Created, FileType::File);
    assert_eq!(
        operation_of(&created, pwd),
        Some(FsOperation::CreateDirectory("x/n/".to_string()))
    );
    let mut moved = entry("a", "/home/u/x", State::Moved, FileType::File);
    moved.dir = "/home/u/y".to_string();
    assert_eq!(
        operation_of(&moved, pwd),
        Some(FsOperation::Move("x/a".to_string(), "y".to_string()))
    );
    moved.dir = pwd.to_string();
    assert_eq!(
        operation_of(&moved, pwd),
        Some(FsOperation::Move("x/a".to_string(), ".".to_string()))
    );
    let unmodified = entry("a", pwd, State::Unmodified, FileType::File);
    assert_eq!(operation_of(&unmodified, pwd), None);
}

#[test]
fn the_plan_groups_by_operation() {
    let mut storage = BufferStorage::new();
    let items: Vec<Listed> = ["a", "b", "c", "d"]
        .iter()
        .map(|n| Listed { name: n.to_string(), file_type: FileType::File })
        .collect();
    storage.add_view("/home/u".to_string(), "/home/u", &items);
    storage.add_view("/home/u/s".to_string(), "/home/u", &items);
    assert!(reconciliation_plan(&storage, "/home/u").is_empty());
    let mut view = storage.get_view("/home/u").unwrap();
    view.add_file("n", FileType::File);
    view.set_path("a", "/home/u/s");
    view.set_name("b", "b2");
    view.delete_file("c");
    storage.update_view("/home/u", view);
    let mut view = storage.get_view("/home/u/s").unwrap();
    view.delete_file("d");
    view.set_name("a", "a2");
    storage.update_view("/home/u/s", view);
    assert_eq!(
        reconciliation_plan(&storage, "/home/u"),
        vec![
            FsOperation::Delete("c".to_string()),
            FsOperation::Delete("s/d".to_string()),
            FsOperation::Rename("b".to_string(), "b2".to_string()),
            FsOperation::Rename("s/a".to_string(), "s/a2".to_string()),
            FsOperation::CreateFile("n".to_string()),
            FsOperation::Move("a".to_string(), "s".to_string()),
        ]
    );
}
