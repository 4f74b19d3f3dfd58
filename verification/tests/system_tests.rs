use dirbuf::system::{
    create_command, get_dir_preview, get_file_permission, get_file_preview, get_file_size,
    last_word_of, lines_of, try_get_hostnamectl,
};

#[test]
fn lines_of_cuts_like_the_standard_library() {
    for text in ["", "a", "a\n", "a\nb", "a\r\nb\r\n", "\n", "\n\n", "a\r", "a\r\n\r", "\r\n", "a\n\nb"] {
        let theirs: Vec<String> = text.lines().map(|l| l.to_string()).collect();
        assert_eq!(lines_of(text), theirs, "{:?}", text);
    }
}

#[test]
fn the_last_word_of_a_line() {
    assert_eq!(last_word_of("-rw-r--r-- 1 u u 0 Jan  1 00:00 a.txt"), "a.txt");
    assert_eq!(last_word_of("a.txt  "), "a.txt");
    assert_eq!(last_word_of("   "), "");
    assert_eq!(last_word_of(""), "");
}

#[test]
fn the_permissions_of_a_file() {
    assert_eq!(get_file_permission("-rw-r--r-- 1 u u 0 Jan  1 00:00 a.txt\n"), "-rw-r--r--");
    assert_eq!(
        get_file_permission("total 8\ndrwxr-xr-x 2 u u 4096 Jan  1 00:00 x\n-rw-r--r-- 1 u u 0 Jan  1 00:00 y\n"),
        "-rw-r--r--"
    );
    assert_eq!(get_file_permission("total 0\n"), "");
    assert_eq!(get_file_permission(""), "");
}

#[test]
fn the_size_of_a_file() {
    assert_eq!(get_file_size("4.0K\ta.txt\n"), "4.0K");
    assert_eq!(get_file_size("12K\tsub/x\n16K\tsub\n"), "16K");
    assert_eq!(get_file_size(""), "");
}

#[test]
fn the_host_name_of_hostnamectl() {
    let output = " Static hostname: box\n       Icon name: computer\n";
    assert_eq!(try_get_hostnamectl(output), Some("box".to_string()));
    assert_eq!(try_get_hostnamectl("Icon name: computer\n"), None);
    assert_eq!(try_get_hostnamectl(""), None);
    assert_eq!(
        try_get_hostnamectl("Static hostname: a\nStatic hostname: b:c\n"),
        Some("b".to_string())
    );
}

#[test]
fn the_preview_of_a_file() {
    assert_eq!(get_file_preview("  one\ntwo\n"), Some("one\ntwo".to_string()));
    assert_eq!(get_file_preview(""), None);
    assert_eq!(get_file_preview("head: error reading 'x'"), None);
}

#[test]
fn the_preview_of_a_directory() {
    let output = "total 4\n-rw-r--r-- 1 u u 0 Jan  1 00:00 a.txt\ndrwxr-xr-x 2 u u 4096 Jan  1 00:00 sub\n";
    assert_eq!(get_dir_preview(output), "a.txt\nsub");
    assert_eq!(get_dir_preview("total 0\n"), "");
    assert_eq!(get_dir_preview(""), "");
}

#[test]
fn the_command_that_creates() {
    assert_eq!(create_command("a.txt"), "touch");
    assert_eq!(create_command("sub/"), "mkdir");
    assert_eq!(create_command(""), "touch");
}
