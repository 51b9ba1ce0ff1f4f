//! The command that shows an entry in the file manager.

use camembert::reveal_in::{command_for, Platform};

#[test]
fn windows_selects_the_entry_inside_its_parent() {
    let (program, args) = command_for(br"C:\Users\demo\big file.bin", Platform::Windows);
    assert_eq!(program, "explorer.exe");
    assert_eq!(args, vec![br"/select,C:\Users\demo\big file.bin".to_vec()]);
}

#[test]
fn windows_arg_has_no_space_after_the_comma() {
    let (_, args) = command_for(br"C:\x", Platform::Windows);
    let arg = String::from_utf8_lossy(&args[0]);
    assert!(arg.starts_with("/select,C:"), "{arg}");
    assert!(!arg.starts_with("/select, "), "no space after the comma");
}

#[test]
fn windows_preserves_non_ascii_names_exactly() {
    let path = "C:\\r\u{e9}sum\u{e9}\\日本語.txt";
    let (_, args) = command_for(path.as_bytes(), Platform::Windows);
    assert_eq!(
        args,
        vec!["/select,C:\\r\u{e9}sum\u{e9}\\日本語.txt".as_bytes().to_vec()]
    );
}

#[test]
fn macos_reveals_the_entry_itself() {
    let (program, args) = command_for(b"/Users/demo/file.txt", Platform::MacOs);
    assert_eq!(program, "open");
    assert_eq!(args, vec![b"-R".to_vec(), b"/Users/demo/file.txt".to_vec()]);
}

#[test]
fn linux_opens_the_parent_directory_not_the_entry() {
    let (program, args) = command_for(b"/home/demo/big-dir/file.bin", Platform::OtherUnix);
    assert_eq!(program, "xdg-open");
    assert_eq!(args, vec![b"/home/demo/big-dir".to_vec()]);
}

#[test]
fn linux_falls_back_to_the_path_itself_when_it_has_no_parent() {
    let (_, args) = command_for(b"/", Platform::OtherUnix);
    assert_eq!(args, vec![b"/".to_vec()]);
}

#[test]
fn linux_preserves_non_utf8_bytes_exactly() {
    let (_, args) = command_for(b"/home/demo/bad-\xffname", Platform::OtherUnix);
    assert_eq!(args, vec![b"/home/demo".to_vec()]);
}

#[test]
fn trailing_separators_belong_to_no_name() {
    let (_, args) = command_for(b"/home/demo/dir//", Platform::OtherUnix);
    assert_eq!(args, vec![b"/home/demo".to_vec()]);
    let (_, args) = command_for(b"name", Platform::OtherUnix);
    assert_eq!(args, vec![b"".to_vec()]);
}
