use idem::reading::check_extension;
use idem::reading::FileExtensionError;

#[test]
fn a_path_that_ends_in_id_is_accepted() {
    assert_eq!(check_extension("a.id"), Ok(()));
    assert_eq!(check_extension("dir/program.id"), Ok(()));
    assert_eq!(check_extension(".id"), Ok(()));
    assert_eq!(check_extension("a.id.id"), Ok(()));
    assert_eq!(check_extension("\u{e9}.id"), Ok(()));
}

#[test]
fn any_other_path_is_refused() {
    for path in ["", "a", "id", "a.idx", "a.id ", "a.ID", "a.i", "aid", "a.id/b", "a.di"] {
        assert_eq!(check_extension(path), Err(FileExtensionError { path: path.to_string() }));
    }
}

#[test]
fn the_error_names_the_path() {
    assert_eq!(
        check_extension("a.txt").unwrap_err().to_string(),
        "a.txt's file extension is not `.id`"
    );
}
