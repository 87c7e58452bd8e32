use ilo_lawa::ramfs::{FileEntry, FileSystem, FileType};

#[test]
fn new_entries() {
    let f = FileEntry::new_file("a".to_string(), b"abc".to_vec());
    assert_eq!(f.name, "a");
    assert!(matches!(f.file_type, FileType::Regular));
    assert_eq!(f.size, 3);
    assert_eq!(f.data, b"abc".to_vec());
    assert!(f.children.is_empty());
    let d = FileEntry::new_directory("d".to_string());
    assert!(matches!(d.file_type, FileType::Directory));
    assert_eq!(d.size, 0);
    assert!(d.data.is_empty());
}

#[test]
fn default_listing() {
    let mut fs = FileSystem::new();
    assert_eq!(
        fs.list_directory(),
        vec!["d bin 0 bytes", "d home 0 bytes", "d etc 0 bytes", "- README.txt 57 bytes"]
    );
    assert_eq!(
        fs.read_file("README.txt").unwrap(),
        b"Welcome to ilo-lawa OS!\nThis is a simple RAM filesystem.\n".to_vec()
    );
    assert_eq!(fs.get_current_path(), "/");
}

#[test]
fn created_file_reads_back() {
    let mut fs = FileSystem::new();
    fs.create_file("hello.txt", b"hi there".to_vec()).unwrap();
    assert_eq!(fs.read_file("hello.txt").unwrap(), b"hi there".to_vec());
    assert_eq!(fs.list_directory().last().unwrap(), "- hello.txt 8 bytes");
}

#[test]
fn ram_create_errors() {
    let mut fs = FileSystem::new();
    let long = "x".repeat(256);
    assert_eq!(fs.create_file(&long, Vec::new()), Err("Filename too long".to_string()));
    assert!(fs.create_file(&"y".repeat(255), Vec::new()).is_ok());
    assert_eq!(
        fs.create_file("big", vec![0u8; 1024 * 1024 + 1]),
        Err("File too large".to_string())
    );
    assert!(fs.create_file("fits", vec![0u8; 1024 * 1024]).is_ok());
    assert_eq!(
        fs.create_file("bin", Vec::new()),
        Err("File already exists: bin".to_string())
    );
    assert_eq!(
        fs.create_directory("README.txt"),
        Err("Already exists: README.txt".to_string())
    );
    assert_eq!(fs.create_directory(&long), Err("Directory name too long".to_string()));
}

#[test]
fn navigation() {
    let mut fs = FileSystem::new();
    fs.change_directory("home").unwrap();
    assert_eq!(fs.get_current_path(), "/home");
    fs.create_directory("user").unwrap();
    fs.change_directory("user").unwrap();
    assert_eq!(fs.get_current_path(), "/home/user");
    assert_eq!(fs.list_directory(), Vec::<String>::new());
    assert_eq!(
        fs.change_directory("missing"),
        Err("Directory not found: missing".to_string())
    );
    assert_eq!(fs.get_current_path(), "/home/user");
    fs.change_directory("..").unwrap();
    assert_eq!(fs.get_current_path(), "/home");
    fs.change_directory("/").unwrap();
    assert_eq!(fs.get_current_path(), "/");
    fs.change_directory("..").unwrap();
    assert_eq!(fs.get_current_path(), "/");
    assert_eq!(
        fs.change_directory("README.txt"),
        Err("Directory not found: README.txt".to_string())
    );
}

#[test]
fn reading_and_removing() {
    let mut fs = FileSystem::new();
    assert_eq!(fs.read_file("bin"), Err("File not found: bin".to_string()));
    assert_eq!(fs.read_file("nope"), Err("File not found: nope".to_string()));
    fs.remove_file("README.txt").unwrap();
    assert_eq!(
        fs.remove_file("README.txt"),
        Err("File not found: README.txt".to_string())
    );
    assert_eq!(fs.remove_file("etc"), Err("File not found: etc".to_string()));
    assert_eq!(fs.list_directory(), vec!["d bin 0 bytes", "d home 0 bytes", "d etc 0 bytes"]);
}

#[test]
fn ram_removing_undoes_creating() {
    let mut fs = FileSystem::new();
    fs.change_directory("etc").unwrap();
    let before = fs.list_directory();
    fs.create_file("motd", b"hello".to_vec()).unwrap();
    assert_eq!(fs.read_file("motd").unwrap(), b"hello".to_vec());
    fs.remove_file("motd").unwrap();
    assert_eq!(fs.list_directory(), before);
}
