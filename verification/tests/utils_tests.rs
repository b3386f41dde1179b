use dotpatina::patina_file::PatinaFile;
use dotpatina::utils::{is_absolute, join_path, normalize_path, parent_dir, Error};

#[test]
fn test_normalize_path() {
    let path = normalize_path("path/to/file.txt");
    assert_eq!("path/to/file.txt", path.unwrap());
}

#[test]
fn test_normalize_path_with_dotdot() {
    let path = normalize_path("path/to/../file.txt");
    assert_eq!("path/file.txt", path.unwrap());
}

#[test]
fn test_normalize_path_with_multiple_slashes() {
    let path = normalize_path("path/to///file.txt");
    assert_eq!("path/to/file.txt", path.unwrap());
}

#[test]
fn test_normalize_path_home_dir() {
    let home_dir = dirs::home_dir().unwrap();
    let home_dir = home_dir.to_str().unwrap().to_string();

    let path = normalize_path("~/path/to/file.txt");
    assert_eq!(format!("{}/path/to/file.txt", home_dir), path.unwrap());
}

#[test]
fn test_normalize_path_with_hidden_dir() {
    let home_dir = dirs::home_dir().unwrap();
    let home_dir = home_dir.to_str().unwrap().to_string();

    let path = normalize_path("~/.dotpatina/file.txt");
    assert_eq!(format!("{}/.dotpatina/file.txt", home_dir), path.unwrap());
}

#[test]
fn test_parent_dir() {
    assert_eq!(parent_dir("tests/patina.toml"), "tests");
    assert_eq!(parent_dir("patina.toml"), "");
    assert_eq!(parent_dir("/patina.toml"), "/");
    assert_eq!(parent_dir("a/b/c.toml"), "a/b");
}

#[test]
fn test_join_path() {
    assert_eq!(join_path("tests", "fixtures/a.txt"), "tests/fixtures/a.txt");
    assert_eq!(join_path("tests/", "a.txt"), "tests/a.txt");
    assert_eq!(join_path("", "a.txt"), "a.txt");
}

#[test]
fn test_is_absolute() {
    assert!(is_absolute("/tmp/x"));
    assert!(!is_absolute("tmp/x"));
    assert!(!is_absolute(""));
}

#[test]
fn test_patina_file_new() {
    let patina_file = PatinaFile::new("template.txt", "target.txt");

    assert_eq!("template.txt".to_string(), patina_file.template);
    assert_eq!("target.txt".to_string(), patina_file.target);
    assert!(patina_file.tags.is_empty());
}

#[test]
fn test_patina_file_with_tags() {
    let patina_file = PatinaFile::new_with_tags("template.txt", "target.txt", vec![
        "aaa", "bbb", "ccc",
    ]);

    assert_eq!("template.txt".to_string(), patina_file.template);
    assert_eq!("target.txt".to_string(), patina_file.target);
    assert_eq!(patina_file.tags.len(), 3);
    assert_eq!(patina_file.tags[0], "aaa");
    assert_eq!(patina_file.tags[1], "bbb");
    assert_eq!(patina_file.tags[2], "ccc");
}

#[test]
fn test_patina_file_contains_tag() {
    let patina_file = PatinaFile::new_with_tags("template.txt", "target.txt", vec![
        "aaa", "bbb", "ccc",
    ]);

    assert!(patina_file.contains_tag("aaa"));
    assert!(patina_file.contains_tag("bbb"));
    assert!(patina_file.contains_tag("ccc"));
    assert!(!patina_file.contains_tag("ddd"));
}

#[test]
fn test_error_messages() {
    assert_eq!(
        Error::FileRead("a.toml".to_string(), "gone".to_string()).message(),
        "a.toml: gone"
    );
    assert_eq!(Error::TomlParse("bad".to_string()).message(), "bad");
    assert_eq!(
        Error::GetUserInput("closed".to_string()).message(),
        "closed"
    );
    assert!(Error::GetUserInput("closed".to_string()).message().contains("closed"));
    assert!(!Error::TomlParse("bad".to_string()).is_file_read());
    assert!(Error::TomlParse("bad".to_string()).is_toml_parse());
}
