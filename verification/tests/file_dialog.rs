use gpui_window::file_dialog::{
    select_current_folder_label, MixedPathDialog, SELECT_CURRENT_FOLDER,
};

#[test]
fn nothing_is_selected_without_the_button() {
    let dialog = MixedPathDialog::new(7);
    assert_eq!(dialog.cookie, 7);
    assert!(!dialog.on_button_clicked(2));
    assert_eq!(dialog.finish(), None);
}

#[test]
fn the_button_selects_the_current_folder_and_closes() {
    let mut dialog = MixedPathDialog::new(1);
    assert_eq!(select_current_folder_label(), "Select current folder");
    assert!(dialog.on_button_clicked(SELECT_CURRENT_FOLDER));
    assert!(dialog.on_folder_read(Some(String::from("C:\\work"))));
    assert_eq!(dialog.finish(), Some(String::from("C:\\work")));
}

#[test]
fn a_folder_that_cannot_be_read_changes_nothing() {
    let mut dialog = MixedPathDialog::new(1);
    assert!(!dialog.on_folder_read(None));
    assert_eq!(dialog.selected, None);
    assert!(dialog.on_folder_read(Some(String::from("a"))));
    assert!(dialog.on_folder_read(Some(String::from("b"))));
    assert!(!dialog.on_folder_read(None));
    assert_eq!(dialog.finish(), Some(String::from("b")));
}
