use ilo_lawa::fs::memory::MemoryFileSystem;
use ilo_lawa::fs::{self as vfs, FileSystem, FileSystemError};

fn names(fs: &mut MemoryFileSystem, path: &str) -> Vec<(String, bool, u64)> {
    fs.list_directory(path)
        .unwrap()
        .into_iter()
        .map(|e| (e.name, e.is_directory, e.size))
        .collect()
}

#[test]
fn starts_with_default_tree() {
    let mut fs = MemoryFileSystem::new();
    assert_eq!(fs.get_current_directory(), "/");
    assert_eq!(
        names(&mut fs, "/"),
        vec![
            ("bin".to_string(), true, 0),
            ("home".to_string(), true, 0),
            ("etc".to_string(), true, 0),
            ("README.txt".to_string(), false, 24),
        ]
    );
    assert_eq!(fs.read_file("README.txt").unwrap(), b"Welcome to ilo-lawa OS!\n".to_vec());
    assert_eq!(fs.read_file("/README.txt").unwrap(), b"Welcome to ilo-lawa OS!\n".to_vec());
}

#[test]
fn listing_lines() {
    let mut fs = MemoryFileSystem::new();
    assert_eq!(
        vfs::list_directory(&mut fs, "."),
        vec!["d bin 0 bytes", "d home 0 bytes", "d etc 0 bytes", "- README.txt 24 bytes"]
    );
    assert_eq!(vfs::list_directory(&mut fs, "home"), Vec::<String>::new());
    assert_eq!(vfs::list_directory(&mut fs, "nowhere"), Vec::<String>::new());
}

#[test]
fn written_file_reads_back() {
    let mut fs = MemoryFileSystem::new();
    fs.create_file("notes.txt").unwrap();
    assert_eq!(fs.read_file("notes.txt").unwrap(), Vec::<u8>::new());
    fs.write_file("notes.txt", b"first").unwrap();
    fs.write_file("/notes.txt", b"second").unwrap();
    assert_eq!(fs.read_file("notes.txt").unwrap(), b"second".to_vec());
    assert!(fs.path_exists("notes.txt"));
    assert!(fs.is_file("notes.txt"));
    assert!(!fs.is_directory("notes.txt"));
}

#[test]
fn read_and_write_errors() {
    let mut fs = MemoryFileSystem::new();
    assert!(matches!(fs.read_file("missing"), Err(FileSystemError::NotFound)));
    assert!(matches!(fs.read_file("bin"), Err(FileSystemError::NotAFile)));
    assert!(matches!(fs.write_file("missing", b"x"), Err(FileSystemError::NotFound)));
    assert!(matches!(fs.write_file("/etc", b"x"), Err(FileSystemError::NotAFile)));
}

#[test]
fn oversized_write_is_refused() {
    let mut fs = MemoryFileSystem::new();
    fs.create_file("big").unwrap();
    let data = vec![0u8; 10 * 1024 * 1024 + 1];
    match fs.write_file("big", &data) {
        Err(e) => assert_eq!(
            e.debug_string(),
            "Custom(\"File too large: 10485761 bytes (max: 10485760 bytes)\")"
        ),
        Ok(()) => panic!("write should fail"),
    }
    assert_eq!(fs.read_file("big").unwrap(), Vec::<u8>::new());
}

#[test]
fn create_errors() {
    let mut fs = MemoryFileSystem::new();
    assert!(matches!(fs.create_file("README.txt"), Err(FileSystemError::AlreadyExists)));
    assert!(matches!(fs.create_directory("bin"), Err(FileSystemError::AlreadyExists)));
    assert!(matches!(fs.create_file(""), Err(FileSystemError::InvalidPath)));
    assert!(matches!(fs.create_file("/"), Err(FileSystemError::InvalidPath)));
    assert!(matches!(fs.create_file("README.txt/x"), Err(FileSystemError::NotADirectory)));
    assert!(matches!(fs.create_file("/nowhere/x"), Err(FileSystemError::NotFound)));
}

#[test]
fn directories_and_current_directory() {
    let mut fs = MemoryFileSystem::new();
    fs.create_directory("docs").unwrap();
    assert!(fs.is_directory("/docs"));
    fs.set_current_directory("docs").unwrap();
    assert_eq!(fs.get_current_directory(), "/docs");
    fs.create_file("a.txt").unwrap();
    fs.write_file("a.txt", b"alpha").unwrap();
    assert_eq!(fs.read_file("/docs/a.txt").unwrap(), b"alpha".to_vec());
    assert_eq!(names(&mut fs, ""), vec![("a.txt".to_string(), false, 5)]);
    fs.set_current_directory("..").unwrap();
    assert_eq!(fs.get_current_directory(), "/");
    fs.set_current_directory("/home").unwrap();
    assert_eq!(fs.get_current_directory(), "/home");
    fs.set_current_directory("../docs/.").unwrap();
    assert_eq!(fs.get_current_directory(), "/docs");
    fs.set_current_directory("/").unwrap();
    assert_eq!(fs.get_current_directory(), "/");
}

#[test]
fn change_directory_errors() {
    let mut fs = MemoryFileSystem::new();
    assert!(matches!(fs.set_current_directory("nope"), Err(FileSystemError::NotFound)));
    assert!(matches!(
        fs.set_current_directory("README.txt"),
        Err(FileSystemError::NotADirectory)
    ));
    // absolute paths are taken as written
    assert!(matches!(fs.set_current_directory("/home/.."), Err(FileSystemError::NotFound)));
    assert_eq!(fs.get_current_directory(), "/");
}

#[test]
fn removing_entries() {
    let mut fs = MemoryFileSystem::new();
    fs.delete_file("README.txt").unwrap();
    assert!(!fs.path_exists("README.txt"));
    assert!(matches!(fs.delete_file("README.txt"), Err(FileSystemError::NotFound)));
    assert!(matches!(fs.delete_file("bin"), Err(FileSystemError::NotFound)));
    fs.delete_directory("bin").unwrap();
    assert!(!fs.path_exists("bin"));
    assert!(matches!(fs.delete_directory("/"), Err(FileSystemError::PermissionDenied)));
    fs.create_file("/home/f").unwrap();
    match fs.delete_directory("home") {
        Err(e) => assert_eq!(e.debug_string(), "Custom(\"Directory not empty\")"),
        Ok(()) => panic!("home is not empty"),
    }
    assert!(matches!(fs.delete_directory("etc/x"), Err(FileSystemError::NotFound)));
}

#[test]
fn error_debug_rendering() {
    assert_eq!(FileSystemError::NotFound.debug_string(), "NotFound");
    assert_eq!(FileSystemError::DiskFull.debug_string(), "DiskFull");
    assert_eq!(FileSystemError::IoError.debug_string(), "IoError");
    assert_eq!(FileSystemError::NotImplemented.debug_string(), "NotImplemented");
    assert_eq!(FileSystemError::PermissionDenied.debug_string(), "PermissionDenied");
    assert_eq!(
        FileSystemError::Custom("say \"hi\"\n".to_string()).debug_string(),
        "Custom(\"say \\\"hi\\\"\\n\")"
    );
}

#[test]
fn shell_facing_functions() {
    let mut fs = MemoryFileSystem::new();
    assert_eq!(vfs::get_current_path(&fs), "/");
    assert_eq!(vfs::change_directory(&mut fs, "nope"), Err("NotFound".to_string()));
    vfs::create_directory(&mut fs, "work").unwrap();
    assert_eq!(vfs::create_directory(&mut fs, "work"), Err("AlreadyExists".to_string()));
    vfs::change_directory(&mut fs, "work").unwrap();
    assert_eq!(vfs::get_current_path(&fs), "/work");
    vfs::create_file(&mut fs, "chores", b"buy milk".to_vec()).unwrap();
    assert_eq!(vfs::read_file(&mut fs, "chores").unwrap(), b"buy milk".to_vec());
    assert_eq!(vfs::create_file(&mut fs, "chores", Vec::new()), Err("AlreadyExists".to_string()));
    assert_eq!(vfs::list_directory(&mut fs, ""), vec!["- chores 8 bytes"]);
    vfs::remove_file(&mut fs, "chores").unwrap();
    assert_eq!(vfs::read_file(&mut fs, "chores"), Err("NotFound".to_string()));
    assert_eq!(vfs::remove_file(&mut fs, "chores"), Err("NotFound".to_string()));
}

#[test]
fn removing_undoes_creating() {
    let mut fs = MemoryFileSystem::new();
    let before = names(&mut fs, "/");
    fs.create_file("scratch.txt").unwrap();
    assert_ne!(names(&mut fs, "/"), before);
    fs.delete_file("scratch.txt").unwrap();
    assert_eq!(names(&mut fs, "/"), before);
    fs.create_directory("/home/user").unwrap();
    fs.delete_directory("/home/user").unwrap();
    assert_eq!(names(&mut fs, "/home"), Vec::new());
    assert_eq!(names(&mut fs, "/"), before);
}

#[test]
fn the_root_is_not_a_file() {
    let mut fs = MemoryFileSystem::new();
    vfs::create_file(&mut fs, "a", b"x".to_vec()).unwrap();
    assert_eq!(vfs::read_file(&mut fs, "/"), Err("NotAFile".to_string()));
    assert_eq!(vfs::read_file(&mut fs, ""), Err("NotAFile".to_string()));
}
