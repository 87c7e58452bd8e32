//! Simple RAM filesystem addressed by names relative to a current directory
//! that is kept as a list of directory names.
use vstd::prelude::*;
use vstd::string::StringExecFns;
use vstd::string::StringSliceAdditionalSpecFns;
use crate::text::{push_char, push_str, decimal_string, spec_decimal};

verus! {

/// Longest file or directory name, in bytes.
pub const MAX_FILENAME_LEN: usize = 255;

/// Largest file content, in bytes.
pub const MAX_FILE_SIZE: usize = 1024 * 1024;

#[derive(Debug, Clone)]
pub enum FileType {
    Regular,
    Directory,
}

/// A file or directory of the tree.
pub struct FileEntry {
    pub name: String,
    pub file_type: FileType,
    pub size: usize,
    pub data: Vec<u8>,
    pub children: Vec<Box<FileEntry>>,
}

/// A file or directory as the contracts see it.
pub struct RamNode {
    pub name: Seq<char>,
    pub is_dir: bool,
    pub size: nat,
    pub data: Seq<u8>,
    pub children: Seq<RamNode>,
}

impl FileEntry {
    pub open spec fn view(&self) -> RamNode
        decreases self,
    {
        RamNode {
            name: self.name@,
            is_dir: self.file_type is Directory,
            size: self.size as nat,
            data: self.data@,
            children: entries_view(self.children@),
        }
    }

    /// A regular file holding `data`.
    pub fn new_file(name: String, data: Vec<u8>) -> (e: Self)
        ensures
            e@ == ram_file(name@, data@),
    {
        let size = data.len();
        let e = FileEntry { name, file_type: FileType::Regular, size, data, children: Vec::new() };
        proof {
            lemma_entries_view(e.children@);
        }
        assert(e@.children =~= Seq::<RamNode>::empty());
        e
    }

    /// An empty directory.
    pub fn new_directory(name: String) -> (e: Self)
        ensures
            e@ == ram_dir(name@),
    {
        let e = FileEntry {
            name,
            file_type: FileType::Directory,
            size: 0,
            data: Vec::new(),
            children: Vec::new(),
        };
        proof {
            lemma_entries_view(e.children@);
        }
        assert(e@.children =~= Seq::<RamNode>::empty());
        assert(e@.data =~= Seq::<u8>::empty());
        e
    }
}

/// The contract view of a list of children.
pub open spec fn entries_view(s: Seq<Box<FileEntry>>) -> Seq<RamNode>
    decreases s,
{
    if s.len() == 0 {
        Seq::<RamNode>::empty()
    } else {
        entries_view(s.subrange(0, s.len() - 1)).push((*s[s.len() - 1]).view())
    }
}

pub proof fn lemma_entries_view(s: Seq<Box<FileEntry>>)
    ensures
        entries_view(s).len() == s.len(),
        forall|i: int| 0 <= i < s.len() ==> #[trigger] entries_view(s)[i] == (*s[i])@,
    decreases s.len(),
{
    if s.len() > 0 {
        lemma_entries_view(s.subrange(0, s.len() - 1));
    }
}

pub open spec fn ram_file(name: Seq<char>, data: Seq<u8>) -> RamNode {
    RamNode { name, is_dir: false, size: data.len(), data, children: Seq::empty() }
}

pub open spec fn ram_dir(name: Seq<char>) -> RamNode {
    RamNode { name, is_dir: true, size: 0, data: Seq::empty(), children: Seq::empty() }
}

/// `i` is the first entry of `s` called `name` of the given kind.
pub open spec fn is_first_of_kind(s: Seq<RamNode>, name: Seq<char>, is_dir: bool, i: int) -> bool {
    &&& 0 <= i < s.len()
    &&& s[i].name == name
    &&& s[i].is_dir == is_dir
    &&& forall|j: int| 0 <= j < i ==> !(s[j].name == name && s[j].is_dir == is_dir)
}

/// The first entry of `s` called `name` of the given kind.
pub open spec fn first_of_kind(s: Seq<RamNode>, name: Seq<char>, is_dir: bool) -> Option<int> {
    if exists|i: int| is_first_of_kind(s, name, is_dir, i) {
        Some(choose|i: int| is_first_of_kind(s, name, is_dir, i))
    } else {
        None
    }
}

/// Whether some entry of `s` is called `name`.
pub open spec fn any_named(s: Seq<RamNode>, name: Seq<char>) -> bool {
    exists|i: int| 0 <= i < s.len() && s[i].name == name
}

/// The directory reached from `n` by entering, for each name of `parts`,
/// the first subdirectory of that name.
pub open spec fn dir_find(n: RamNode, parts: Seq<Seq<char>>) -> Option<RamNode>
    decreases parts.len(),
{
    if parts.len() == 0 {
        Some(n)
    } else {
        match first_of_kind(n.children, parts[0], true) {
            None => None,
            Some(i) => dir_find(n.children[i], parts.drop_first()),
        }
    }
}

/// `n` with the directory that `parts` reaches replaced by `new`.
pub open spec fn dir_replace(n: RamNode, parts: Seq<Seq<char>>, new: RamNode) -> RamNode
    decreases parts.len(),
{
    if parts.len() == 0 {
        new
    } else {
        match first_of_kind(n.children, parts[0], true) {
            None => n,
            Some(i) => RamNode {
                children: n.children.update(i, dir_replace(n.children[i], parts.drop_first(), new)),
                ..n
            },
        }
    }
}

/// The views of a vector of strings.
pub open spec fn names_view(v: Seq<String>) -> Seq<Seq<char>> {
    Seq::new(v.len(), |i: int| v[i]@)
}

/// A change made at the current directory.
pub enum DirEdit {
    Add(FileEntry),
    Remove(usize),
}

pub open spec fn dir_edit_applicable(n: RamNode, m: DirEdit) -> bool {
    match m {
        DirEdit::Remove(i) => i < n.children.len(),
        _ => true,
    }
}

pub open spec fn spec_dir_edit(n: RamNode, m: DirEdit) -> RamNode {
    match m {
        DirEdit::Add(e) => RamNode { children: n.children.push(e@), ..n },
        DirEdit::Remove(i) => RamNode { children: n.children.remove(i as int), ..n },
    }
}

/// Finds the first child called `name` of the given kind.
fn find_child_kind(children: &Vec<Box<FileEntry>>, name: &String, is_dir: bool) -> (r: Option<usize>)
    ensures
        match r {
            Some(i) => first_of_kind(entries_view(children@), name@, is_dir) == Some(i as int),
            None => first_of_kind(entries_view(children@), name@, is_dir) is None,
        },
{
    proof {
        lemma_entries_view(children@);
    }
    let ghost cv = entries_view(children@);
    let mut i: usize = 0;
    while i < children.len()
        invariant
            i <= children@.len(),
            cv == entries_view(children@),
            cv.len() == children@.len(),
            forall|j: int| 0 <= j < children@.len() ==> #[trigger] cv[j] == (*children@[j])@,
            forall|j: int|
                0 <= j < i ==> !(#[trigger] cv[j].name == name@ && cv[j].is_dir == is_dir),
        decreases children@.len() - i,
    {
        let entry_is_dir = match children[i].file_type {
            FileType::Directory => true,
            FileType::Regular => false,
        };
        if children[i].name == *name && entry_is_dir == is_dir {
            proof {
                assert(is_first_of_kind(cv, name@, is_dir, i as int));
                let k = choose|k: int| is_first_of_kind(cv, name@, is_dir, k);
                assert(is_first_of_kind(cv, name@, is_dir, k));
                if k < i {
                    assert(!(cv[k].name == name@ && cv[k].is_dir == is_dir));
                } else if k > i {
                    assert(!(cv[i as int].name == name@ && cv[i as int].is_dir == is_dir));
                }
            }
            return Some(i);
        }
        i = i + 1;
    }
    proof {
        if exists|k: int| is_first_of_kind(cv, name@, is_dir, k) {
            let k = choose|k: int| is_first_of_kind(cv, name@, is_dir, k);
            assert(!(cv[k].name == name@ && cv[k].is_dir == is_dir));
        }
    }
    None
}

/// Whether some child is called `name`.
fn has_child_named(children: &Vec<Box<FileEntry>>, name: &String) -> (r: bool)
    ensures
        r == any_named(entries_view(children@), name@),
{
    proof {
        lemma_entries_view(children@);
    }
    let ghost cv = entries_view(children@);
    let mut i: usize = 0;
    while i < children.len()
        invariant
            i <= children@.len(),
            cv == entries_view(children@),
            cv.len() == children@.len(),
            forall|j: int| 0 <= j < children@.len() ==> #[trigger] cv[j] == (*children@[j])@,
            forall|j: int| 0 <= j < i ==> #[trigger] cv[j].name != name@,
        decreases children@.len() - i,
    {
        if children[i].name == *name {
            assert(cv[i as int].name == name@);
            return true;
        }
        i = i + 1;
    }
    false
}

/// The directory that `parts[idx..]` reaches from `e`.
fn find_dir<'a>(e: &'a FileEntry, parts: &Vec<String>, idx: usize) -> (r: Option<&'a FileEntry>)
    requires
        idx <= parts@.len(),
    ensures
        match r {
            Some(x) => dir_find(e@, names_view(parts@).skip(idx as int)) == Some(x@),
            None => dir_find(e@, names_view(parts@).skip(idx as int)) is None,
        },
    decreases parts@.len() - idx,
{
    let ghost rest = names_view(parts@).skip(idx as int);
    if idx == parts.len() {
        assert(rest.len() == 0);
        return Some(e);
    }
    proof {
        lemma_entries_view(e.children@);
        assert(rest[0] == parts@[idx as int]@);
        assert(rest.drop_first() =~= names_view(parts@).skip(idx + 1));
    }
    match find_child_kind(&e.children, &parts[idx], true) {
        None => None,
        Some(i) => {
            let child: &FileEntry = &e.children[i];
            assert(e@.children[i as int] == child@);
            find_dir(child, parts, idx + 1)
        },
    }
}

/// Makes the change `m` at the directory that `parts[idx..]` reaches.
fn edit_dir(e: &mut FileEntry, parts: &Vec<String>, idx: usize, m: DirEdit)
    requires
        idx <= parts@.len(),
        dir_find(old(e)@, names_view(parts@).skip(idx as int)) is Some,
        dir_edit_applicable(dir_find(old(e)@, names_view(parts@).skip(idx as int))->0, m),
    ensures
        final(e)@ == dir_replace(
            old(e)@,
            names_view(parts@).skip(idx as int),
            spec_dir_edit(dir_find(old(e)@, names_view(parts@).skip(idx as int))->0, m),
        ),
    decreases parts@.len() - idx,
{
    let ghost rest = names_view(parts@).skip(idx as int);
    let ghost old_view = e@;
    proof {
        lemma_entries_view(e.children@);
    }
    if idx == parts.len() {
        assert(rest.len() == 0);
        match m {
            DirEdit::Add(entry) => {
                let ghost ev = entry@;
                e.children.push(Box::new(entry));
                proof {
                    lemma_entries_view(e.children@);
                }
                assert(e@.children =~= old_view.children.push(ev));
            },
            DirEdit::Remove(i) => {
                e.children.remove(i);
                proof {
                    lemma_entries_view(e.children@);
                }
                assert(e@.children =~= old_view.children.remove(i as int));
            },
        }
        return;
    }
    proof {
        assert(rest[0] == parts@[idx as int]@);
        assert(rest.drop_first() =~= names_view(parts@).skip(idx + 1));
    }
    match find_child_kind(&e.children, &parts[idx], true) {
        None => {
            assert(false);
        },
        Some(i) => {
            let boxed = e.children.remove(i);
            let mut child: FileEntry = *boxed;
            assert(old_view.children[i as int] == child@);
            edit_dir(&mut child, parts, idx + 1, m);
            let ghost new_child = child@;
            e.children.insert(i, Box::new(child));
            proof {
                lemma_entries_view(e.children@);
                assert(e@.children =~= old_view.children.update(i as int, new_child));
            }
        },
    }
}

/// The filesystem: the tree and the path of the current directory.
pub struct FileSystem {
    root: FileEntry,
    current_dir: Vec<String>,
}

/// The line `ls` prints for an entry.
pub open spec fn ram_listing_line(n: RamNode) -> Seq<char> {
    (if n.is_dir {
        "d"@
    } else {
        "-"@
    }) + " "@ + n.name + " "@ + spec_decimal(n.size) + " bytes"@
}

/// The path of the current directory: `/` followed by the names joined
/// with `/`.
pub open spec fn spec_path_string(parts: Seq<Seq<char>>) -> Seq<char>
    decreases parts.len(),
{
    if parts.len() == 0 {
        seq!['/']
    } else if parts.len() == 1 {
        seq!['/'] + parts[0]
    } else {
        spec_path_string(parts.drop_last()) + seq!['/'] + parts.last()
    }
}

/// What fails first when adding an entry called `name` to the directory
/// `dir`: a name over 255 bytes, content over 1 MiB, a missing directory,
/// or a name already taken.
pub open spec fn add_check(
    dir: Option<RamNode>,
    name: Seq<char>,
    name_bytes: nat,
    content_len: nat,
) -> AddCheck {
    if name_bytes > MAX_FILENAME_LEN {
        AddCheck::NameTooLong
    } else if content_len > MAX_FILE_SIZE {
        AddCheck::TooLarge
    } else if dir is None {
        AddCheck::NoCurrentDir
    } else if any_named(dir->0.children, name) {
        AddCheck::Exists
    } else {
        AddCheck::Allowed
    }
}

pub enum AddCheck {
    NameTooLong,
    TooLarge,
    NoCurrentDir,
    Exists,
    Allowed,
}

impl FileSystem {
    /// The tree.
    pub closed spec fn root(&self) -> RamNode {
        self.root@
    }

    /// The names leading from the root to the current directory.
    pub closed spec fn cwd(&self) -> Seq<Seq<char>> {
        names_view(self.current_dir@)
    }

    /// The current directory, if the names still lead to one.
    pub open spec fn current(&self) -> Option<RamNode> {
        dir_find(self.root(), self.cwd())
    }

    /// A filesystem whose root `/` holds the directories `bin`, `home`,
    /// `etc` and a welcome file; the root is the current directory.
    pub fn new() -> (fs: Self)
        ensures
            fs.cwd() == Seq::<Seq<char>>::empty(),
            fs.root() == (RamNode {
                name: "/"@,
                is_dir: true,
                size: 0,
                data: Seq::empty(),
                children: seq![
                    ram_dir("bin"@),
                    ram_dir("home"@),
                    ram_dir("etc"@),
                    ram_file(
                        "README.txt"@,
                        "Welcome to ilo-lawa OS!\nThis is a simple RAM filesystem.\n".spec_bytes(),
                    ),
                ],
            }),
    {
        let mut root = FileEntry::new_directory(String::from_str("/"));
        proof {
            lemma_entries_view(root.children@);
        }
        let bin = FileEntry::new_directory(String::from_str("bin"));
        let home = FileEntry::new_directory(String::from_str("home"));
        let etc = FileEntry::new_directory(String::from_str("etc"));
        let welcome = vstd::slice::slice_to_vec(
            "Welcome to ilo-lawa OS!\nThis is a simple RAM filesystem.\n".as_bytes(),
        );
        let readme = FileEntry::new_file(String::from_str("README.txt"), welcome);
        let ghost views = seq![bin@, home@, etc@, readme@];
        root.children.push(Box::new(bin));
        root.children.push(Box::new(home));
        root.children.push(Box::new(etc));
        root.children.push(Box::new(readme));
        assert(forall|k: int| 0 <= k < 4 ==> (*root.children@[k])@ == views[k]);
        let fs = FileSystem { root, current_dir: Vec::new() };
        proof {
            lemma_entries_view(fs.root.children@);
        }
        assert(fs.root@.children =~= views);
        assert(fs.cwd() =~= Seq::<Seq<char>>::empty());
        fs
    }

    /// The current directory.
    fn get_current_dir(&self) -> (r: Option<&FileEntry>)
        ensures
            match r {
                Some(x) => self.current() == Some(x@),
                None => self.current() is None,
            },
    {
        assert(names_view(self.current_dir@).skip(0) =~= names_view(self.current_dir@));
        find_dir(&self.root, &self.current_dir, 0)
    }

    /// One line per entry of the current directory: `d` or `-`, the name
    /// and the size; no line when the current directory is gone.
    pub fn list_directory(&mut self) -> (r: Vec<String>)
        ensures
            *final(self) == *old(self),
            match old(self).current() {
                Some(d) => r@.len() == d.children.len() && forall|i: int|
                    0 <= i < r@.len() ==> #[trigger] r@[i]@ == ram_listing_line(d.children[i]),
                None => r@.len() == 0,
            },
    {
        let mut result: Vec<String> = Vec::new();
        match self.get_current_dir() {
            None => {},
            Some(dir) => {
                proof {
                    lemma_entries_view(dir.children@);
                }
                let mut i: usize = 0;
                while i < dir.children.len()
                    invariant
                        i <= dir.children@.len(),
                        forall|j: int|
                            0 <= j < dir.children@.len() ==> #[trigger] entries_view(
                                dir.children@,
                            )[j] == (*dir.children@[j])@,
                        result@.len() == i,
                        forall|j: int|
                            0 <= j < i ==> #[trigger] result@[j]@ == ram_listing_line(
                                (*dir.children@[j])@,
                            ),
                    decreases dir.children@.len() - i,
                {
                    let e: &FileEntry = &dir.children[i];
                    let mut line = match e.file_type {
                        FileType::Directory => String::from_str("d"),
                        FileType::Regular => String::from_str("-"),
                    };
                    push_str(&mut line, " ");
                    push_str(&mut line, e.name.as_str());
                    push_str(&mut line, " ");
                    let size_text = decimal_string(e.size as u64);
                    push_str(&mut line, size_text.as_str());
                    push_str(&mut line, " bytes");
                    let ghost before = result@;
                    result.push(line);
                    assert(forall|j: int| 0 <= j < i ==> result@[j] == before[j]);
                    i = i + 1;
                }
            },
        }
        result
    }

    /// `/` goes to the root, `..` to the parent (staying at the root), any
    /// other name into that subdirectory of the current directory.
    pub fn change_directory(&mut self, path: &str) -> (r: Result<(), String>)
        ensures
            final(self).root() == old(self).root(),
            if path@ == "/"@ {
                r is Ok && final(self).cwd() == Seq::<Seq<char>>::empty()
            } else if path@ == ".."@ {
                r is Ok && final(self).cwd() == (if old(self).cwd().len() == 0 {
                    old(self).cwd()
                } else {
                    old(self).cwd().drop_last()
                })
            } else if dir_find(old(self).root(), old(self).cwd().push(path@)) is Some {
                r is Ok && final(self).cwd() == old(self).cwd().push(path@)
            } else {
                final(self).cwd() == old(self).cwd() && (r matches Err(m) && m@
                    == "Directory not found: "@ + path@)
            },
    {
        let slash = String::from_str("/");
        let dotdot = String::from_str("..");
        let p = String::from_str(path);
        if p == slash {
            self.current_dir.clear();
            assert(self.cwd() =~= Seq::<Seq<char>>::empty());
            return Ok(());
        }
        if p == dotdot {
            if self.current_dir.len() > 0 {
                self.current_dir.pop();
                assert(self.cwd() =~= old(self).cwd().drop_last());
            }
            return Ok(());
        }
        let mut test_path = self.current_dir.clone();
        test_path.push(p);
        assert(names_view(test_path@) =~= old(self).cwd().push(path@));
        assert(names_view(test_path@).skip(0) =~= names_view(test_path@));
        let found = find_dir(&self.root, &test_path, 0).is_some();
        if !found {
            let mut msg = String::from_str("Directory not found: ");
            push_str(&mut msg, path);
            return Err(msg);
        }
        self.current_dir = test_path;
        Ok(())
    }

    /// Adds an entry to the current directory after the checks of
    /// `add_check`.
    fn add_entry(&mut self, name: &str, content_len: usize, entry: FileEntry) -> (r: Result<
        (),
        AddCheck,
    >)
        requires
            entry@.name == name@,
        ensures
            final(self).cwd() == old(self).cwd(),
            ({
                let c = add_check(old(self).current(), name@, name.len() as nat, content_len as nat);
                if c is Allowed {
                    r is Ok && final(self).root() == dir_replace(
                        old(self).root(),
                        old(self).cwd(),
                        spec_dir_edit(old(self).current()->0, DirEdit::Add(entry)),
                    )
                } else {
                    r == Err::<(), AddCheck>(c) && final(self).root() == old(self).root()
                }
            }),
    {
        if name.len() > MAX_FILENAME_LEN {
            return Err(AddCheck::NameTooLong);
        }
        if content_len > MAX_FILE_SIZE {
            return Err(AddCheck::TooLarge);
        }
        let n = String::from_str(name);
        let taken = match self.get_current_dir() {
            None => {
                return Err(AddCheck::NoCurrentDir);
            },
            Some(dir) => has_child_named(&dir.children, &n),
        };
        if taken {
            return Err(AddCheck::Exists);
        }
        assert(names_view(self.current_dir@).skip(0) =~= names_view(self.current_dir@));
        edit_dir(&mut self.root, &self.current_dir, 0, DirEdit::Add(entry));
        Ok(())
    }

    /// Creates a file holding `content` in the current directory.
    pub fn create_file(&mut self, name: &str, content: Vec<u8>) -> (r: Result<(), String>)
        ensures
            final(self).cwd() == old(self).cwd(),
            match add_check(old(self).current(), name@, name.len() as nat, content@.len()) {
                AddCheck::Allowed => r is Ok && final(self).root() == dir_replace(
                    old(self).root(),
                    old(self).cwd(),
                    RamNode {
                        children: old(self).current()->0.children.push(ram_file(name@, content@)),
                        ..old(self).current()->0
                    },
                ),
                AddCheck::NameTooLong => final(self).root() == old(self).root() && (r matches Err(
                    m,
                ) && m@ == "Filename too long"@),
                AddCheck::TooLarge => final(self).root() == old(self).root() && (r matches Err(m)
                    && m@ == "File too large"@),
                AddCheck::NoCurrentDir => final(self).root() == old(self).root() && (r matches Err(
                    m,
                ) && m@ == "Cannot access current directory"@),
                AddCheck::Exists => final(self).root() == old(self).root() && (r matches Err(m)
                    && m@ == "File already exists: "@ + name@),
            },
    {
        let content_len = content.len();
        let entry = FileEntry::new_file(String::from_str(name), content);
        match self.add_entry(name, content_len, entry) {
            Ok(()) => Ok(()),
            Err(AddCheck::NameTooLong) => Err(String::from_str("Filename too long")),
            Err(AddCheck::TooLarge) => Err(String::from_str("File too large")),
            Err(AddCheck::NoCurrentDir) => Err(String::from_str("Cannot access current directory")),
            Err(_) => {
                let mut msg = String::from_str("File already exists: ");
                push_str(&mut msg, name);
                Err(msg)
            },
        }
    }

    /// Reads the file `name` of the current directory.
    pub fn read_file(&mut self, name: &str) -> (r: Result<Vec<u8>, String>)
        ensures
            *final(self) == *old(self),
            match old(self).current() {
                None => r matches Err(m) && m@ == "Cannot access current directory"@,
                Some(d) => match first_of_kind(d.children, name@, false) {
                    Some(i) => r matches Ok(v) && v@ == d.children[i].data,
                    None => r matches Err(m) && m@ == "File not found: "@ + name@,
                },
            },
    {
        let n = String::from_str(name);
        match self.get_current_dir() {
            None => Err(String::from_str("Cannot access current directory")),
            Some(dir) => {
                proof {
                    lemma_entries_view(dir.children@);
                }
                match find_child_kind(&dir.children, &n, false) {
                    Some(i) => Ok(vstd::slice::slice_to_vec(dir.children[i].data.as_slice())),
                    None => {
                        let mut msg = String::from_str("File not found: ");
                        push_str(&mut msg, name);
                        Err(msg)
                    },
                }
            },
        }
    }

    /// Creates an empty directory `name` in the current directory.
    pub fn create_directory(&mut self, name: &str) -> (r: Result<(), String>)
        ensures
            final(self).cwd() == old(self).cwd(),
            match add_check(old(self).current(), name@, name.len() as nat, 0) {
                AddCheck::Allowed => r is Ok && final(self).root() == dir_replace(
                    old(self).root(),
                    old(self).cwd(),
                    RamNode {
                        children: old(self).current()->0.children.push(ram_dir(name@)),
                        ..old(self).current()->0
                    },
                ),
                AddCheck::NameTooLong => final(self).root() == old(self).root() && (r matches Err(
                    m,
                ) && m@ == "Directory name too long"@),
                AddCheck::TooLarge => false,
                AddCheck::NoCurrentDir => final(self).root() == old(self).root() && (r matches Err(
                    m,
                ) && m@ == "Cannot access current directory"@),
                AddCheck::Exists => final(self).root() == old(self).root() && (r matches Err(m)
                    && m@ == "Already exists: "@ + name@),
            },
    {
        let entry = FileEntry::new_directory(String::from_str(name));
        match self.add_entry(name, 0, entry) {
            Ok(()) => Ok(()),
            Err(AddCheck::NameTooLong) => Err(String::from_str("Directory name too long")),
            Err(AddCheck::NoCurrentDir) => Err(String::from_str("Cannot access current directory")),
            Err(_) => {
                let mut msg = String::from_str("Already exists: ");
                push_str(&mut msg, name);
                Err(msg)
            },
        }
    }

    /// Removes the first regular file called `name` from the current
    /// directory.
    pub fn remove_file(&mut self, name: &str) -> (r: Result<(), String>)
        ensures
            final(self).cwd() == old(self).cwd(),
            match old(self).current() {
                None => final(self).root() == old(self).root() && (r matches Err(m) && m@
                    == "Cannot access current directory"@),
                Some(d) => match first_of_kind(d.children, name@, false) {
                    Some(i) => r is Ok && final(self).root() == dir_replace(
                        old(self).root(),
                        old(self).cwd(),
                        RamNode { children: d.children.remove(i), ..d },
                    ),
                    None => final(self).root() == old(self).root() && (r matches Err(m) && m@
                        == "File not found: "@ + name@),
                },
            },
    {
        let n = String::from_str(name);
        let index = match self.get_current_dir() {
            None => {
                return Err(String::from_str("Cannot access current directory"));
            },
            Some(dir) => {
                proof {
                    lemma_entries_view(dir.children@);
                }
                find_child_kind(&dir.children, &n, false)
            },
        };
        match index {
            Some(i) => {
                assert(names_view(self.current_dir@).skip(0) =~= names_view(self.current_dir@));
                edit_dir(&mut self.root, &self.current_dir, 0, DirEdit::Remove(i));
                Ok(())
            },
            None => {
                let mut msg = String::from_str("File not found: ");
                push_str(&mut msg, name);
                Err(msg)
            },
        }
    }

    /// The path of the current directory, such as `/` or `/home/user`.
    pub fn get_current_path(&self) -> (r: String)
        ensures
            r@ == spec_path_string(self.cwd()),
    {
        let mut r = String::new();
        if self.current_dir.len() == 0 {
            push_char(&mut r, '/');
            assert(r@ =~= seq!['/']);
            return r;
        }
        let mut i: usize = 0;
        while i < self.current_dir.len()
            invariant
                i <= self.current_dir@.len(),
                self.current_dir@.len() > 0,
                i == 0 ==> r@.len() == 0,
                i > 0 ==> r@ == spec_path_string(self.cwd().take(i as int)),
            decreases self.current_dir@.len() - i,
        {
            push_char(&mut r, '/');
            push_str(&mut r, self.current_dir[i].as_str());
            assert(self.cwd().take(i + 1).drop_last() =~= self.cwd().take(i as int));
            if i == 0 {
                assert(r@ =~= spec_path_string(self.cwd().take(1)));
            }
            i = i + 1;
        }
        assert(self.cwd().take(self.current_dir@.len() as int) =~= self.cwd());
        r
    }
}

proof fn lemma_first_of_kind_update(
    s: Seq<RamNode>,
    name: Seq<char>,
    is_dir: bool,
    i: int,
    x: RamNode,
)
    requires
        first_of_kind(s, name, is_dir) == Some(i),
        x.name == s[i].name,
        x.is_dir == s[i].is_dir,
    ensures
        first_of_kind(s.update(i, x), name, is_dir) == Some(i),
{
    let t = s.update(i, x);
    assert(is_first_of_kind(s, name, is_dir, i));
    assert(is_first_of_kind(t, name, is_dir, i));
    let j = choose|j: int| is_first_of_kind(t, name, is_dir, j);
    if j < i {
        assert(t[j] == s[j]);
    } else if j > i {
        assert(t[i] == x);
    }
}

/// Replacing the directory that `parts` reaches by one of the same name and
/// kind leaves the path leading to it.
proof fn lemma_find_replace(n: RamNode, parts: Seq<Seq<char>>, new: RamNode)
    requires
        dir_find(n, parts) is Some,
        new.name == dir_find(n, parts)->0.name,
        new.is_dir == dir_find(n, parts)->0.is_dir,
    ensures
        dir_find(dir_replace(n, parts, new), parts) == Some(new),
        dir_replace(n, parts, new).name == n.name,
        dir_replace(n, parts, new).is_dir == n.is_dir,
    decreases parts.len(),
{
    if parts.len() > 0 {
        let i = first_of_kind(n.children, parts[0], true)->0;
        lemma_find_replace(n.children[i], parts.drop_first(), new);
        lemma_first_of_kind_update(
            n.children,
            parts[0],
            true,
            i,
            dir_replace(n.children[i], parts.drop_first(), new),
        );
    }
}

/// A file created in the current directory is read back with the contents
/// it was created with: where `create_file` is allowed, the directory it
/// leaves at the current path holds the new file, and it is the first file
/// of that name there.
pub proof fn law_read_after_create(
    root: RamNode,
    cwd: Seq<Seq<char>>,
    name: Seq<char>,
    data: Seq<u8>,
)
    requires
        dir_find(root, cwd) is Some,
        !any_named(dir_find(root, cwd)->0.children, name),
    ensures
        ({
            let d = dir_find(root, cwd)->0;
            let new = RamNode { children: d.children.push(ram_file(name, data)), ..d };
            let after = dir_find(dir_replace(root, cwd, new), cwd);
            &&& after == Some(new)
            &&& first_of_kind(new.children, name, false) == Some(d.children.len() as int)
            &&& new.children[d.children.len() as int].data == data
        }),
{
    let d = dir_find(root, cwd)->0;
    let new = RamNode { children: d.children.push(ram_file(name, data)), ..d };
    lemma_find_replace(root, cwd, new);
    let k = d.children.len() as int;
    assert(is_first_of_kind(new.children, name, false, k)) by {
        assert forall|j: int| 0 <= j < k implies !(new.children[j].name == name
            && new.children[j].is_dir == false) by {
            assert(new.children[j] == d.children[j]);
        }
    }
    let j = choose|j: int| is_first_of_kind(new.children, name, false, j);
    assert(j == k);
}

/// Putting back the directory a path reaches leaves the tree as it was.
proof fn lemma_replace_same(n: RamNode, parts: Seq<Seq<char>>)
    requires
        dir_find(n, parts) is Some,
    ensures
        dir_replace(n, parts, dir_find(n, parts)->0) == n,
    decreases parts.len(),
{
    if parts.len() > 0 {
        let i = first_of_kind(n.children, parts[0], true)->0;
        assert(is_first_of_kind(n.children, parts[0], true, i));
        lemma_replace_same(n.children[i], parts.drop_first());
        assert(n.children.update(i, n.children[i]) =~= n.children);
    }
}

/// Replacing the same directory twice keeps only the second replacement.
proof fn lemma_replace_twice(n: RamNode, parts: Seq<Seq<char>>, x: RamNode, y: RamNode)
    requires
        dir_find(n, parts) is Some,
        x.name == dir_find(n, parts)->0.name,
        x.is_dir == dir_find(n, parts)->0.is_dir,
    ensures
        dir_replace(dir_replace(n, parts, x), parts, y) == dir_replace(n, parts, y),
    decreases parts.len(),
{
    if parts.len() > 0 {
        let i = first_of_kind(n.children, parts[0], true)->0;
        assert(is_first_of_kind(n.children, parts[0], true, i));
        let c = n.children[i];
        let c2 = dir_replace(c, parts.drop_first(), x);
        lemma_find_replace(c, parts.drop_first(), x);
        lemma_replace_twice(c, parts.drop_first(), x, y);
        lemma_first_of_kind_update(n.children, parts[0], true, i, c2);
        let m = dir_replace(n, parts, x);
        let y2 = dir_replace(c, parts.drop_first(), y);
        assert(m.children.update(i, y2) =~= n.children.update(i, y2));
    }
}

/// Removing a file just created in the current directory undoes the
/// creation: where `create_file` is allowed, `remove_file` of the same name
/// then finds the new file and gives back the tree from before.
pub proof fn law_remove_undoes_create(
    root: RamNode,
    cwd: Seq<Seq<char>>,
    name: Seq<char>,
    data: Seq<u8>,
)
    requires
        dir_find(root, cwd) is Some,
        !any_named(dir_find(root, cwd)->0.children, name),
    ensures
        ({
            let d = dir_find(root, cwd)->0;
            let new = RamNode { children: d.children.push(ram_file(name, data)), ..d };
            let after = dir_replace(root, cwd, new);
            &&& dir_find(after, cwd) == Some(new)
            &&& first_of_kind(new.children, name, false) == Some(d.children.len() as int)
            &&& dir_replace(
                after,
                cwd,
                RamNode { children: new.children.remove(d.children.len() as int), ..new },
            ) == root
        }),
{
    let d = dir_find(root, cwd)->0;
    let new = RamNode { children: d.children.push(ram_file(name, data)), ..d };
    law_read_after_create(root, cwd, name, data);
    let k = d.children.len() as int;
    assert(new.children.remove(k) =~= d.children);
    assert(RamNode { children: new.children.remove(k), ..new } == d);
    lemma_replace_twice(root, cwd, new, d);
    lemma_replace_same(root, cwd);
}

} // verus!
