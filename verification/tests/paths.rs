use exoshell::paths::{ApplicationPaths, BaseDir, DirPath};

fn describe(d: &DirPath) -> (BaseDir, Vec<String>) {
    (d.base, d.components.clone())
}

#[test]
fn directory_creation_is_idempotent() {
    // Creating the directory is the caller's file-system work; what the
    // library decides is the path, and asking twice names the same one.
    let paths = ApplicationPaths::from("application-paths-test");
    let first = describe(&paths.config_dir());
    let second = describe(&paths.config_dir());
    assert_eq!(first, second);
    assert_eq!(
        (BaseDir::ConfigLocal, vec!["application-paths-test".to_string()]),
        first
    );
}

#[test]
fn path_layout() {
    let paths = ApplicationPaths::from("app");
    assert_eq!("app", paths.app_name());
    let d = paths.config_dir();
    assert_eq!((BaseDir::ConfigLocal, vec!["app".to_string()]), (d.base, d.components));
    let f = paths.config_file("toml");
    assert_eq!("config.toml", f.file_name);
    assert_eq!(vec!["app".to_string()], f.dir.components);
    let d = paths.logs_dir();
    assert_eq!((BaseDir::DataLocal, vec!["app".to_string(), "logs".to_string()]), (d.base, d.components));
    let f = paths.log_file();
    assert_eq!("main.log", f.file_name);
    assert_eq!(BaseDir::DataLocal, f.dir.base);
    let d = paths.data_dir();
    assert_eq!((BaseDir::DataLocal, vec!["app".to_string(), "data".to_string()]), (d.base, d.components));
}
