//! RAM-based filesystem implementing the `FileSystem` interface.
use vstd::prelude::*;
use vstd::string::StringExecFns;
use vstd::string::StrSliceExecFns;
use vstd::string::StringSliceAdditionalSpecFns;
use crate::fs::{FileSystem as FSTrait, FileSystemError, DirEntry};
use crate::text::{
    push_char,
    push_str,
    str_to_chars,
    chars_to_string,
    split_chars,
    seqs_of,
    spec_split,
    spec_nonempty,
    spec_decimal,
    decimal_string,
    spec_debug_str,
    strings_view,
    nonempty_strings,
};
use crate::fs::spec_error_debug;

verus! {

/// Largest file that `write_file` accepts.
pub const MAX_FILE_SIZE: usize = 10 * 1024 * 1024;

/// Total size budget of the filesystem (not enforced).
pub const MAX_TOTAL_SIZE: usize = 100 * 1024 * 1024;

/// A file or directory as the contracts see it.
pub struct Node {
    pub name: Seq<char>,
    pub is_dir: bool,
    pub data: Seq<u8>,
    pub children: Seq<Node>,
}

#[derive(Debug, Clone)]
pub enum FileType {
    Regular,
    Directory,
}

/// A file or directory of the tree.
pub struct FileEntry {
    name: String,
    file_type: FileType,
    data: Vec<u8>,
    children: Vec<Box<FileEntry>>,
}

impl FileEntry {
    pub closed spec fn view(&self) -> Node
        decreases self,
    {
        Node {
            name: self.name@,
            is_dir: self.file_type is Directory,
            data: self.data@,
            children: children_view(self.children@),
        }
    }

    fn new_file(name: String, data: Vec<u8>) -> (e: Self)
        ensures
            e@ == file_node(name@, data@),
    {
        let e = FileEntry { name, file_type: FileType::Regular, data, children: Vec::new() };
        proof {
            lemma_children_view(e.children@);
        }
        assert(e@.children =~= Seq::<Node>::empty());
        e
    }

    fn new_directory(name: String) -> (e: Self)
        ensures
            e@ == dir_node(name@),
    {
        let e = FileEntry {
            name,
            file_type: FileType::Directory,
            data: Vec::new(),
            children: Vec::new(),
        };
        proof {
            lemma_children_view(e.children@);
        }
        assert(e@.children =~= Seq::<Node>::empty());
        assert(e@.data =~= Seq::<u8>::empty());
        e
    }
}

/// The contract view of a list of children.
pub closed spec fn children_view(s: Seq<Box<FileEntry>>) -> Seq<Node>
    decreases s,
{
    if s.len() == 0 {
        Seq::<Node>::empty()
    } else {
        children_view(s.subrange(0, s.len() - 1)).push((*s[s.len() - 1]).view())
    }
}

proof fn lemma_children_view(s: Seq<Box<FileEntry>>)
    ensures
        children_view(s).len() == s.len(),
        forall|i: int| 0 <= i < s.len() ==> #[trigger] children_view(s)[i] == (*s[i])@,
    decreases s.len(),
{
    if s.len() > 0 {
        lemma_children_view(s.subrange(0, s.len() - 1));
    }
}

/// An empty regular file.
pub open spec fn file_node(name: Seq<char>, data: Seq<u8>) -> Node {
    Node { name, is_dir: false, data, children: Seq::empty() }
}

/// An empty directory.
pub open spec fn dir_node(name: Seq<char>) -> Node {
    Node { name, is_dir: true, data: Seq::empty(), children: Seq::empty() }
}

/// `i` is the position of the first child called `name`.
pub open spec fn is_first_named(s: Seq<Node>, name: Seq<char>, i: int) -> bool {
    &&& 0 <= i < s.len()
    &&& s[i].name == name
    &&& forall|j: int| 0 <= j < i ==> s[j].name != name
}

/// The position of the first child called `name`.
pub open spec fn first_named(s: Seq<Node>, name: Seq<char>) -> Option<int> {
    if exists|i: int| is_first_named(s, name, i) {
        Some(choose|i: int| is_first_named(s, name, i))
    } else {
        None
    }
}

proof fn lemma_first_named_unique(s: Seq<Node>, name: Seq<char>, i: int)
    requires
        is_first_named(s, name, i),
    ensures
        first_named(s, name) == Some(i),
{
    let k = choose|k: int| is_first_named(s, name, k);
    assert(is_first_named(s, name, k));
    if k < i {
        assert(s[k].name != name);
    } else if k > i {
        assert(s[i].name != name);
    }
}

/// The entry reached by following `parts` from `n`: each component names
/// the first child of that name, and every component but the last must name
/// a directory.
pub open spec fn node_find(n: Node, parts: Seq<Seq<char>>) -> Option<Node>
    decreases parts.len(),
{
    if parts.len() == 0 {
        Some(n)
    } else {
        match first_named(n.children, parts[0]) {
            None => None,
            Some(i) => if parts.len() == 1 {
                Some(n.children[i])
            } else if n.children[i].is_dir {
                node_find(n.children[i], parts.drop_first())
            } else {
                None
            },
        }
    }
}

/// `n` with the entry that `parts` reaches replaced by `new`.
pub open spec fn node_replace(n: Node, parts: Seq<Seq<char>>, new: Node) -> Node
    decreases parts.len(),
{
    if parts.len() == 0 {
        new
    } else {
        match first_named(n.children, parts[0]) {
            None => n,
            Some(i) => Node {
                children: n.children.update(
                    i,
                    if parts.len() == 1 {
                        new
                    } else {
                        node_replace(n.children[i], parts.drop_first(), new)
                    },
                ),
                ..n
            },
        }
    }
}

/// The position of the last `/` in `s`.
pub open spec fn last_slash(s: Seq<char>) -> Option<int> {
    if exists|i: int| is_last_slash(s, i) {
        Some(choose|i: int| is_last_slash(s, i))
    } else {
        None
    }
}

pub open spec fn is_last_slash(s: Seq<char>, i: int) -> bool {
    &&& 0 <= i < s.len()
    &&& s[i] == '/'
    &&& forall|j: int| i < j < s.len() ==> s[j] != '/'
}

/// One step of resolving a relative path: `.` and empty components stay
/// put, `..` drops the last component, anything else is appended.
pub open spec fn normalize_step(result: Seq<char>, part: Seq<char>) -> Seq<char> {
    if part == seq!['.'] || part.len() == 0 {
        result
    } else if part == seq!['.', '.'] {
        if result == seq!['/'] {
            result
        } else {
            let pos = match last_slash(result) {
                Some(p) => p,
                None => 0,
            };
            if pos == 0 {
                seq!['/']
            } else {
                result.take(pos)
            }
        }
    } else {
        (if result.len() > 0 && result.last() == '/' {
            result
        } else {
            result.push('/')
        }) + part
    }
}

/// Applies `normalize_step` for each component in turn, starting from `start`.
pub open spec fn normalize_fold(start: Seq<char>, parts: Seq<Seq<char>>) -> Seq<char>
    decreases parts.len(),
{
    if parts.len() == 0 {
        start
    } else {
        normalize_step(normalize_fold(start, parts.drop_last()), parts.last())
    }
}

/// An absolute path is taken as it is; a relative one is resolved against
/// the current directory.
pub open spec fn spec_normalize(cwd: Seq<char>, path: Seq<char>) -> Seq<char> {
    if path.len() > 0 && path[0] == '/' {
        path
    } else {
        normalize_fold(cwd, spec_split(path, '/'))
    }
}

/// The components that `find_entry` follows from the root for `path`.
pub open spec fn spec_lookup_parts(cwd: Seq<char>, path: Seq<char>) -> Seq<Seq<char>> {
    if path == seq!['/'] || path.len() == 0 {
        Seq::empty()
    } else {
        spec_nonempty(spec_split(spec_normalize(cwd, path), '/'))
    }
}

/// The entry that `path` names.
pub open spec fn spec_lookup(root: Node, cwd: Seq<char>, path: Seq<char>) -> Option<Node> {
    node_find(root, spec_lookup_parts(cwd, path))
}

/// The parent directory path and the last component of a path that is
/// being created or removed.
pub open spec fn spec_parent_and_name(cwd: Seq<char>, path: Seq<char>) -> (Seq<char>, Seq<char>) {
    let normalized = spec_normalize(cwd, path);
    match last_slash(normalized) {
        Some(pos) => if pos == 0 {
            (seq!['/'], normalized.skip(1))
        } else {
            (normalized.take(pos), normalized.skip(pos + 1))
        },
        None => (cwd, path),
    }
}

/// Whether some child is called `name`.
pub open spec fn has_child_named(n: Node, name: Seq<char>) -> bool {
    exists|i: int| 0 <= i < n.children.len() && n.children[i].name == name
}

/// `i` is the first entry of `s` called `name` that is a directory (or a
/// file, as `is_dir` says).
pub open spec fn child_of_kind(s: Seq<Node>, name: Seq<char>, is_dir: bool, i: int) -> bool {
    &&& 0 <= i < s.len()
    &&& s[i].name == name
    &&& s[i].is_dir == is_dir
    &&& forall|j: int| 0 <= j < i ==> !(s[j].name == name && s[j].is_dir == is_dir)
}

/// The first entry called `name` of the given kind.
pub open spec fn first_of_kind(s: Seq<Node>, name: Seq<char>, is_dir: bool) -> Option<int> {
    if exists|i: int| child_of_kind(s, name, is_dir, i) {
        Some(choose|i: int| child_of_kind(s, name, is_dir, i))
    } else {
        None
    }
}

/// A change made at one entry of the tree.
pub enum Edit {
    SetData(Vec<u8>),
    AddFile(String),
    AddDirectory(String),
    Remove(usize),
}

pub open spec fn edit_applicable(n: Node, m: Edit) -> bool {
    match m {
        Edit::Remove(i) => i < n.children.len(),
        _ => true,
    }
}

pub open spec fn spec_edit(n: Node, m: Edit) -> Node {
    match m {
        Edit::SetData(d) => Node { data: d@, ..n },
        Edit::AddFile(name) => Node {
            children: n.children.push(file_node(name@, Seq::empty())),
            ..n
        },
        Edit::AddDirectory(name) => Node { children: n.children.push(dir_node(name@)), ..n },
        Edit::Remove(i) => Node { children: n.children.remove(i as int), ..n },
    }
}

/// The in-memory filesystem: a tree of entries and the current directory.
pub struct MemoryFileSystem {
    root: FileEntry,
    current_dir: String,
}

/// Finds the first child called `name`.
fn find_child(children: &Vec<Box<FileEntry>>, name: &String) -> (r: Option<usize>)
    ensures
        match r {
            Some(i) => first_named(children_view(children@), name@) == Some(i as int),
            None => first_named(children_view(children@), name@) is None && forall|j: int|
                0 <= j < children@.len() ==> #[trigger] children_view(children@)[j].name
                    != name@,
        },
{
    proof {
        lemma_children_view(children@);
    }
    let ghost cv = children_view(children@);
    let mut i: usize = 0;
    while i < children.len()
        invariant
            i <= children@.len(),
            cv == children_view(children@),
            cv.len() == children@.len(),
            forall|j: int| 0 <= j < children@.len() ==> #[trigger] cv[j] == (*children@[j])@,
            forall|j: int| 0 <= j < i ==> #[trigger] cv[j].name != name@,
        decreases children@.len() - i,
    {
        if children[i].name == *name {
            proof {
                assert(is_first_named(cv, name@, i as int));
                lemma_first_named_unique(cv, name@, i as int);
            }
            return Some(i);
        }
        i = i + 1;
    }
    proof {
        if exists|k: int| is_first_named(cv, name@, k) {
            let k = choose|k: int| is_first_named(cv, name@, k);
            assert(cv[k].name != name@);
        }
    }
    None
}

/// Finds the first child called `name` of the given kind.
fn find_child_of_kind(children: &Vec<Box<FileEntry>>, name: &String, is_dir: bool) -> (r: Option<usize>)
    ensures
        match r {
            Some(i) => first_of_kind(children_view(children@), name@, is_dir) == Some(i as int),
            None => first_of_kind(children_view(children@), name@, is_dir) is None,
        },
{
    proof {
        lemma_children_view(children@);
    }
    let ghost cv = children_view(children@);
    let mut i: usize = 0;
    while i < children.len()
        invariant
            i <= children@.len(),
            cv == children_view(children@),
            cv.len() == children@.len(),
            forall|j: int| 0 <= j < children@.len() ==> #[trigger] cv[j] == (*children@[j])@,
            forall|j: int|
                0 <= j < i ==> !(#[trigger] cv[j].name == name@ && cv[j].is_dir == is_dir),
        decreases children@.len() - i,
    {
        let entry_is_dir = match children[i].file_type {
            FileType::Directory => true,
            FileType::Regular => false,
        };
        if children[i].name == *name && entry_is_dir == is_dir {
            proof {
                assert(child_of_kind(cv, name@, is_dir, i as int));
                let k = choose|k: int| child_of_kind(cv, name@, is_dir, k);
                assert(child_of_kind(cv, name@, is_dir, k));
                if k < i {
                    assert(!(cv[k].name == name@ && cv[k].is_dir == is_dir));
                } else if k > i {
                    assert(!(cv[i as int].name == name@ && cv[i as int].is_dir == is_dir));
                }
                assert(first_of_kind(cv, name@, is_dir) == Some(i as int));
            }
            return Some(i);
        }
        i = i + 1;
    }
    proof {
        if exists|k: int| child_of_kind(cv, name@, is_dir, k) {
            let k = choose|k: int| child_of_kind(cv, name@, is_dir, k);
            assert(!(cv[k].name == name@ && cv[k].is_dir == is_dir));
        }
    }
    None
}

/// The entry that `parts[idx..]` reaches from `e`.
fn find_ref<'a>(e: &'a FileEntry, parts: &Vec<String>, idx: usize) -> (r: Option<&'a FileEntry>)
    requires
        idx <= parts@.len(),
    ensures
        match r {
            Some(x) => node_find(e@, strings_view(parts@).skip(idx as int)) == Some(x@),
            None => node_find(e@, strings_view(parts@).skip(idx as int)) is None,
        },
    decreases parts@.len() - idx,
{
    let ghost rest = strings_view(parts@).skip(idx as int);
    if idx == parts.len() {
        assert(rest.len() == 0);
        return Some(e);
    }
    proof {
        lemma_children_view(e.children@);
        assert(rest[0] == parts@[idx as int]@);
        assert(rest.drop_first() =~= strings_view(parts@).skip(idx + 1));
    }
    match find_child(&e.children, &parts[idx]) {
        None => None,
        Some(i) => {
            let child: &FileEntry = &e.children[i];
            assert(e@.children[i as int] == child@);
            if idx + 1 == parts.len() {
                Some(child)
            } else {
                match child.file_type {
                    FileType::Directory => find_ref(child, parts, idx + 1),
                    FileType::Regular => None,
                }
            }
        },
    }
}

/// Makes the change `m` at `e`.
fn apply_edit(e: &mut FileEntry, m: Edit)
    requires
        edit_applicable(old(e)@, m),
    ensures
        final(e)@ == spec_edit(old(e)@, m),
{
    proof {
        lemma_children_view(e.children@);
    }
    let ghost old_view = e@;
    match m {
        Edit::SetData(d) => {
            e.data = d;
            assert(e@ == spec_edit(old_view, m));
        },
        Edit::AddFile(name) => {
            let entry = FileEntry::new_file(name, Vec::new());
            e.children.push(Box::new(entry));
            proof {
                lemma_children_view(e.children@);
            }
            assert(e@.children =~= old_view.children.push(file_node(name@, Seq::empty())));
        },
        Edit::AddDirectory(name) => {
            let entry = FileEntry::new_directory(name);
            e.children.push(Box::new(entry));
            proof {
                lemma_children_view(e.children@);
            }
            assert(e@.children =~= old_view.children.push(dir_node(name@)));
        },
        Edit::Remove(i) => {
            e.children.remove(i);
            proof {
                lemma_children_view(e.children@);
            }
            assert(e@.children =~= old_view.children.remove(i as int));
        },
    }
}

/// Makes the change `m` at the entry that `parts[idx..]` reaches from `e`.
fn modify_at(e: &mut FileEntry, parts: &Vec<String>, idx: usize, m: Edit)
    requires
        idx <= parts@.len(),
        node_find(old(e)@, strings_view(parts@).skip(idx as int)) is Some,
        edit_applicable(node_find(old(e)@, strings_view(parts@).skip(idx as int))->0, m),
    ensures
        final(e)@ == node_replace(
            old(e)@,
            strings_view(parts@).skip(idx as int),
            spec_edit(node_find(old(e)@, strings_view(parts@).skip(idx as int))->0, m),
        ),
    decreases parts@.len() - idx,
{
    let ghost rest = strings_view(parts@).skip(idx as int);
    let ghost old_view = e@;
    if idx == parts.len() {
        assert(rest.len() == 0);
        apply_edit(e, m);
        return;
    }
    proof {
        lemma_children_view(e.children@);
        assert(rest[0] == parts@[idx as int]@);
        assert(rest.drop_first() =~= strings_view(parts@).skip(idx + 1));
    }
    match find_child(&e.children, &parts[idx]) {
        None => {
            assert(false);
        },
        Some(i) => {
            let boxed = e.children.remove(i);
            let mut child: FileEntry = *boxed;
            assert(old_view.children[i as int] == child@);
            let ghost old_child = child@;
            if idx + 1 == parts.len() {
                assert(strings_view(parts@).skip(idx + 1).len() == 0);
            }
            modify_at(&mut child, parts, idx + 1, m);
            e.children.insert(i, Box::new(child));
            proof {
                lemma_children_view(e.children@);
                let new_child = if rest.len() == 1 {
                    spec_edit(node_find(old_view, rest)->0, m)
                } else {
                    node_replace(old_child, rest.drop_first(), spec_edit(node_find(old_view, rest)->0, m))
                };
                assert(child@ == new_child);
                assert(e@.children =~= old_view.children.update(i as int, new_child));
            }
        },
    }
}

/// The position of the last `/` in `v`.
fn rfind_slash(v: &Vec<char>) -> (r: Option<usize>)
    ensures
        match r {
            Some(i) => last_slash(v@) == Some(i as int) && is_last_slash(v@, i as int),
            None => last_slash(v@) is None,
        },
{
    let mut i = v.len();
    while i > 0
        invariant
            i <= v@.len(),
            forall|j: int| i <= j < v@.len() ==> v@[j] != '/',
        decreases i,
    {
        i = i - 1;
        if v[i] == '/' {
            proof {
                assert(is_last_slash(v@, i as int));
                let k = choose|k: int| is_last_slash(v@, k);
                assert(is_last_slash(v@, k));
                if k < i {
                    assert(v@[i as int] != '/');
                } else if k > i {
                    assert(v@[k] != '/');
                }
            }
            return Some(i);
        }
    }
    proof {
        if exists|k: int| is_last_slash(v@, k) {
            let k = choose|k: int| is_last_slash(v@, k);
            assert(v@[k] != '/');
        }
    }
    None
}

/// Applies one normalization step to `result`.
fn normalize_step_exec(result: &mut Vec<char>, part: &Vec<char>)
    ensures
        final(result)@ == normalize_step(old(result)@, part@),
{
    if part.len() == 0 || (part.len() == 1 && part[0] == '.') {
        assert(part@.len() == 0 || part@ =~= seq!['.']);
        return;
    }
    assert(part@ != seq!['.'] && part@.len() != 0);
    if part.len() == 2 && part[0] == '.' && part[1] == '.' {
        assert(part@ =~= seq!['.', '.']);
        if result.len() == 1 && result[0] == '/' {
            assert(result@ =~= seq!['/']);
            return;
        }
        assert(result@ != seq!['/']);
        let pos = match rfind_slash(result) {
            Some(p) => p,
            None => 0,
        };
        if pos == 0 {
            let mut root: Vec<char> = Vec::new();
            root.push('/');
            *result = root;
            assert(result@ =~= seq!['/']);
        } else {
            result.truncate(pos);
            assert(result@ =~= old(result)@.take(pos as int));
        }
        return;
    }
    assert(part@ != seq!['.', '.']);
    let ends_with_slash = result.len() > 0 && result[result.len() - 1] == '/';
    if !ends_with_slash {
        result.push('/');
    }
    let ghost mid = result@;
    let mut i: usize = 0;
    while i < part.len()
        invariant
            i <= part@.len(),
            result@ == mid + part@.take(i as int),
        decreases part@.len() - i,
    {
        result.push(part[i]);
        assert(result@ =~= mid + part@.take(i + 1));
        i = i + 1;
    }
    assert(part@.take(part@.len() as int) =~= part@);
}

impl MemoryFileSystem {
    /// The tree, from the root.
    pub closed spec fn root(&self) -> Node {
        self.root@
    }

    /// The current directory.
    pub closed spec fn cwd(&self) -> Seq<char> {
        self.current_dir@
    }

    /// The root is a directory and the current directory is an absolute
    /// path; `new` establishes this and every operation keeps it.
    pub open spec fn wf(&self) -> bool {
        &&& self.root().is_dir
        &&& self.cwd().len() > 0
        &&& self.cwd()[0] == '/'
    }

    /// A filesystem holding the directories `bin`, `home`, `etc` and a
    /// welcome file, with `/` as the current directory.
    pub fn new() -> (fs: Self)
        ensures
            fs.wf(),
            fs.cwd() == seq!['/'],
            fs.root() == (Node {
                name: Seq::empty(),
                is_dir: true,
                data: Seq::empty(),
                children: seq![
                    dir_node("bin"@),
                    dir_node("home"@),
                    dir_node("etc"@),
                    file_node("README.txt"@, "Welcome to ilo-lawa OS!\n".spec_bytes()),
                ],
            }),
    {
        let mut root = FileEntry::new_directory(String::new());
        proof {
            lemma_children_view(root.children@);
        }
        let bin = FileEntry::new_directory(String::from_str("bin"));
        let home = FileEntry::new_directory(String::from_str("home"));
        let etc = FileEntry::new_directory(String::from_str("etc"));
        let welcome = "Welcome to ilo-lawa OS!\n".as_bytes_vec();
        let readme = FileEntry::new_file(String::from_str("README.txt"), welcome);
        let ghost views = seq![bin@, home@, etc@, readme@];
        root.children.push(Box::new(bin));
        root.children.push(Box::new(home));
        root.children.push(Box::new(etc));
        root.children.push(Box::new(readme));
        assert(root.children@.len() == 4);
        assert(forall|k: int| 0 <= k < 4 ==> (*root.children@[k])@ == views[k]);
        let mut current_dir = String::new();
        push_char(&mut current_dir, '/');
        let fs = MemoryFileSystem { root, current_dir };
        proof {
            lemma_children_view(fs.root.children@);
        }
        assert(fs.root@.children =~= seq![
            dir_node("bin"@),
            dir_node("home"@),
            dir_node("etc"@),
            file_node("README.txt"@, "Welcome to ilo-lawa OS!\n".spec_bytes()),
        ]);
        assert(fs.current_dir@ =~= seq!['/']);
        fs
    }

    /// Resolves `path` against the current directory.
    fn normalize_path(&self, path: &str) -> (r: String)
        ensures
            r@ == spec_normalize(self.cwd(), path@),
    {
        let p = str_to_chars(path);
        if p.len() > 0 && p[0] == '/' {
            return String::from_str(path);
        }
        let mut result = str_to_chars(self.current_dir.as_str());
        let parts = split_chars(&p, '/');
        let mut i: usize = 0;
        while i < parts.len()
            invariant
                i <= parts@.len(),
                seqs_of(parts@) == spec_split(path@, '/'),
                result@ == normalize_fold(self.cwd(), seqs_of(parts@).take(i as int)),
            decreases parts@.len() - i,
        {
            assert(seqs_of(parts@).take(i + 1).drop_last() =~= seqs_of(parts@).take(i as int));
            normalize_step_exec(&mut result, &parts[i]);
            i = i + 1;
        }
        assert(seqs_of(parts@).take(parts@.len() as int) =~= seqs_of(parts@));
        chars_to_string(&result, 0, result.len())
    }

    /// The components that `find_entry` follows for `path`.
    fn lookup_parts(&self, path: &str) -> (r: Vec<String>)
        ensures
            strings_view(r@) == spec_lookup_parts(self.cwd(), path@),
    {
        let p = str_to_chars(path);
        if p.len() == 0 || (p.len() == 1 && p[0] == '/') {
            assert(path@.len() == 0 || path@ =~= seq!['/']);
            let r: Vec<String> = Vec::new();
            assert(strings_view(r@) =~= Seq::<Seq<char>>::empty());
            return r;
        }
        assert(path@ != seq!['/']);
        let normalized = self.normalize_path(path);
        let chars = str_to_chars(normalized.as_str());
        let pieces = split_chars(&chars, '/');
        nonempty_strings(&pieces)
    }

    /// The entry that `path` names.
    fn find_entry(&self, path: &str) -> (r: Option<&FileEntry>)
        ensures
            match r {
                Some(x) => spec_lookup(self.root(), self.cwd(), path@) == Some(x@),
                None => spec_lookup(self.root(), self.cwd(), path@) is None,
            },
    {
        let parts = self.lookup_parts(path);
        assert(strings_view(parts@).skip(0) =~= strings_view(parts@));
        find_ref(&self.root, &parts, 0)
    }

    /// Splits `path` into the parent directory path and the last component.
    fn parent_and_name(&self, path: &str) -> (r: (String, String))
        ensures
            (r.0@, r.1@) == spec_parent_and_name(self.cwd(), path@),
    {
        let normalized = self.normalize_path(path);
        let chars = str_to_chars(normalized.as_str());
        match rfind_slash(&chars) {
            Some(pos) => if pos == 0 {
                let mut dir = String::new();
                push_char(&mut dir, '/');
                assert(dir@ =~= seq!['/']);
                let name = chars_to_string(&chars, 1, chars.len());
                assert(name@ =~= chars@.skip(1));
                (dir, name)
            } else {
                let n = chars.len();
                let dir = chars_to_string(&chars, 0, pos);
                let name = chars_to_string(&chars, pos + 1, n);
                assert(dir@ =~= chars@.take(pos as int));
                assert(name@ =~= chars@.skip(pos + 1));
                (dir, name)
            },
            None => (self.current_dir.clone(), String::from_str(path)),
        }
    }
}

/// The message of the error `write_file` gives for an oversized file.
pub open spec fn spec_too_large_message(len: nat) -> Seq<char> {
    "File too large: "@ + spec_decimal(len) + " bytes (max: "@ + spec_decimal(
        MAX_FILE_SIZE as nat,
    ) + " bytes)"@
}

/// Why an operation of the in-memory filesystem fails.
pub enum Failure {
    NotFound,
    PermissionDenied,
    InvalidPath,
    AlreadyExists,
    NotADirectory,
    NotAFile,
    NotEmpty,
    TooLarge(nat),
}

/// The error value that reports a failure.
pub open spec fn failure_matches(e: FileSystemError, f: Failure) -> bool {
    match f {
        Failure::NotFound => e == FileSystemError::NotFound,
        Failure::PermissionDenied => e == FileSystemError::PermissionDenied,
        Failure::InvalidPath => e == FileSystemError::InvalidPath,
        Failure::AlreadyExists => e == FileSystemError::AlreadyExists,
        Failure::NotADirectory => e == FileSystemError::NotADirectory,
        Failure::NotAFile => e == FileSystemError::NotAFile,
        Failure::NotEmpty => e matches FileSystemError::Custom(m) && m@ == "Directory not empty"@,
        Failure::TooLarge(n) => e matches FileSystemError::Custom(m) && m@
            == spec_too_large_message(n),
    }
}

/// The `Debug` rendering of the error that reports a failure.
pub open spec fn failure_debug(f: Failure) -> Seq<char> {
    match f {
        Failure::NotFound => "NotFound"@,
        Failure::PermissionDenied => "PermissionDenied"@,
        Failure::InvalidPath => "InvalidPath"@,
        Failure::AlreadyExists => "AlreadyExists"@,
        Failure::NotADirectory => "NotADirectory"@,
        Failure::NotAFile => "NotAFile"@,
        Failure::NotEmpty => "Custom("@ + spec_debug_str("Directory not empty"@) + ")"@,
        Failure::TooLarge(n) => "Custom("@ + spec_debug_str(spec_too_large_message(n)) + ")"@,
    }
}

pub proof fn lemma_failure_debug(e: FileSystemError, f: Failure)
    requires
        failure_matches(e, f),
    ensures
        spec_error_debug(e) == failure_debug(f),
{
}

/// What reading `path` gives.
pub open spec fn spec_read(root: Node, cwd: Seq<char>, path: Seq<char>) -> Result<Seq<u8>, Failure> {
    match spec_lookup(root, cwd, path) {
        None => Err(Failure::NotFound),
        Some(n) => if n.is_dir {
            Err(Failure::NotAFile)
        } else {
            Ok(n.data)
        },
    }
}

/// The tree after writing `data` to the file `path`.
pub open spec fn spec_write(root: Node, cwd: Seq<char>, path: Seq<char>, data: Seq<u8>) -> Result<
    Node,
    Failure,
> {
    if data.len() > MAX_FILE_SIZE {
        Err(Failure::TooLarge(data.len()))
    } else {
        match spec_lookup(root, cwd, path) {
            None => Err(Failure::NotFound),
            Some(n) => if n.is_dir {
                Err(Failure::NotAFile)
            } else {
                Ok(node_replace(root, spec_lookup_parts(cwd, path), Node { data, ..n }))
            },
        }
    }
}

/// The tree after creating an empty file (or directory) at `path`.
pub open spec fn spec_create(root: Node, cwd: Seq<char>, path: Seq<char>, is_dir: bool) -> Result<
    Node,
    Failure,
> {
    let (dir, name) = spec_parent_and_name(cwd, path);
    let parts = spec_lookup_parts(cwd, dir);
    if name.len() == 0 {
        Err(Failure::InvalidPath)
    } else {
        match node_find(root, parts) {
            None => Err(Failure::NotFound),
            Some(p) => if !p.is_dir {
                Err(Failure::NotADirectory)
            } else if has_child_named(p, name) {
                Err(Failure::AlreadyExists)
            } else {
                Ok(
                    node_replace(
                        root,
                        parts,
                        Node {
                            children: p.children.push(
                                if is_dir {
                                    dir_node(name)
                                } else {
                                    file_node(name, Seq::empty())
                                },
                            ),
                            ..p
                        },
                    ),
                )
            },
        }
    }
}

/// The tree after removing the file (or empty directory) at `path`.
pub open spec fn spec_remove(root: Node, cwd: Seq<char>, path: Seq<char>, is_dir: bool) -> Result<
    Node,
    Failure,
> {
    let (dir, name) = spec_parent_and_name(cwd, path);
    let parts = spec_lookup_parts(cwd, dir);
    if is_dir && spec_normalize(cwd, path) == seq!['/'] {
        Err(Failure::PermissionDenied)
    } else {
        match node_find(root, parts) {
            None => Err(Failure::NotFound),
            Some(p) => match first_of_kind(p.children, name, is_dir) {
                None => Err(Failure::NotFound),
                Some(i) => if is_dir && p.children[i].children.len() > 0 {
                    Err(Failure::NotEmpty)
                } else {
                    Ok(node_replace(root, parts, Node { children: p.children.remove(i), ..p }))
                },
            },
        }
    }
}

/// The directory that `list_directory` lists for `path`.
pub open spec fn spec_list_path(cwd: Seq<char>, path: Seq<char>) -> Seq<char> {
    if path == seq!['.'] || path.len() == 0 {
        cwd
    } else {
        spec_normalize(cwd, path)
    }
}

/// The directory whose children `list_directory` lists.
pub open spec fn spec_list(root: Node, cwd: Seq<char>, path: Seq<char>) -> Result<Node, Failure> {
    match spec_lookup(root, cwd, spec_list_path(cwd, path)) {
        None => Err(Failure::NotFound),
        Some(n) => if !n.is_dir {
            Err(Failure::NotADirectory)
        } else {
            Ok(n)
        },
    }
}

/// The current directory after changing to `path`.
pub open spec fn spec_cd(root: Node, cwd: Seq<char>, path: Seq<char>) -> Result<Seq<char>, Failure> {
    let new_dir = spec_normalize(cwd, path);
    match spec_lookup(root, cwd, new_dir) {
        None => Err(Failure::NotFound),
        Some(n) => if !n.is_dir {
            Err(Failure::NotADirectory)
        } else {
            Ok(new_dir)
        },
    }
}

/// Whether a listing describes the children of `n`, in order.
pub open spec fn lists_children(entries: Seq<DirEntry>, n: Node) -> bool {
    &&& entries.len() == n.children.len()
    &&& forall|i: int|
        0 <= i < entries.len() ==> {
            &&& #[trigger] entries[i].name@ == n.children[i].name
            &&& entries[i].is_directory == n.children[i].is_dir
            &&& entries[i].size == n.children[i].data.len()
        }
}

/// `r` reports the outcome `o` of an operation that changes the tree.
pub open spec fn reports_tree_change(
    r: Result<(), FileSystemError>,
    o: Result<Node, Failure>,
    old_root: Node,
    new_root: Node,
) -> bool {
    match o {
        Ok(t) => r is Ok && new_root == t,
        Err(f) => new_root == old_root && (r matches Err(e) && failure_matches(e, f)),
    }
}

impl MemoryFileSystem {
    fn entry_is_dir(e: &FileEntry) -> (r: bool)
        ensures
            r == e@.is_dir,
    {
        match e.file_type {
            FileType::Directory => true,
            FileType::Regular => false,
        }
    }

    /// Adds an empty file or directory called by the last component of
    /// `path` to its parent directory.
    fn create_entry(&mut self, path: &str, is_dir: bool) -> (r: Result<(), FileSystemError>)
        ensures
            final(self).cwd() == old(self).cwd(),
            reports_tree_change(
                r,
                spec_create(old(self).root(), old(self).cwd(), path@, is_dir),
                old(self).root(),
                final(self).root(),
            ),
    {
        let (dir, name) = self.parent_and_name(path);
        if name.as_str().is_empty() {
            return Err(FileSystemError::InvalidPath);
        }
        let parts = self.lookup_parts(dir.as_str());
        assert(strings_view(parts@).skip(0) =~= strings_view(parts@));
        let found = match find_ref(&self.root, &parts, 0) {
            None => {
                return Err(FileSystemError::NotFound);
            },
            Some(parent) => {
                if !Self::entry_is_dir(parent) {
                    return Err(FileSystemError::NotADirectory);
                }
                proof {
                    lemma_children_view(parent.children@);
                }
                find_child(&parent.children, &name)
            },
        };
        if found.is_some() {
            return Err(FileSystemError::AlreadyExists);
        }
        let edit = if is_dir {
            Edit::AddDirectory(name)
        } else {
            Edit::AddFile(name)
        };
        modify_at(&mut self.root, &parts, 0, edit);
        Ok(())
    }

    /// Removes the first child of the given kind called by the last
    /// component of `path` from its parent directory; a directory must be
    /// empty and must not be the root.
    fn remove_entry(&mut self, path: &str, is_dir: bool) -> (r: Result<(), FileSystemError>)
        ensures
            final(self).cwd() == old(self).cwd(),
            reports_tree_change(
                r,
                spec_remove(old(self).root(), old(self).cwd(), path@, is_dir),
                old(self).root(),
                final(self).root(),
            ),
    {
        if is_dir {
            let normalized = self.normalize_path(path);
            let chars = str_to_chars(normalized.as_str());
            if chars.len() == 1 && chars[0] == '/' {
                assert(chars@ =~= seq!['/']);
                return Err(FileSystemError::PermissionDenied);
            }
            assert(chars@ != seq!['/']);
        }
        let (dir, name) = self.parent_and_name(path);
        let parts = self.lookup_parts(dir.as_str());
        assert(strings_view(parts@).skip(0) =~= strings_view(parts@));
        let index = match find_ref(&self.root, &parts, 0) {
            None => {
                return Err(FileSystemError::NotFound);
            },
            Some(parent) => {
                proof {
                    lemma_children_view(parent.children@);
                }
                match find_child_of_kind(&parent.children, &name, is_dir) {
                    None => {
                        return Err(FileSystemError::NotFound);
                    },
                    Some(i) => {
                        proof {
                            lemma_children_view(parent.children[i as int].children@);
                        }
                        if is_dir && parent.children[i].children.len() > 0 {
                            return Err(
                                FileSystemError::Custom(String::from_str("Directory not empty")),
                            );
                        }
                        i
                    },
                }
            },
        };
        modify_at(&mut self.root, &parts, 0, Edit::Remove(index));
        Ok(())
    }
}

impl FSTrait for MemoryFileSystem {
    fn read_file(&mut self, path: &str) -> (r: Result<Vec<u8>, FileSystemError>)
        ensures
            *final(self) == *old(self),
            match spec_read(old(self).root(), old(self).cwd(), path@) {
                Ok(d) => r matches Ok(v) && v@ == d,
                Err(f) => r matches Err(e) && failure_matches(e, f),
            },
    {
        match self.find_entry(path) {
            None => Err(FileSystemError::NotFound),
            Some(entry) => match entry.file_type {
                FileType::Regular => Ok(vstd::slice::slice_to_vec(entry.data.as_slice())),
                FileType::Directory => Err(FileSystemError::NotAFile),
            },
        }
    }

    fn write_file(&mut self, path: &str, data: &[u8]) -> (r: Result<(), FileSystemError>)
        ensures
            old(self).wf() ==> final(self).wf(),
            final(self).cwd() == old(self).cwd(),
            reports_tree_change(
                r,
                spec_write(old(self).root(), old(self).cwd(), path@, data@),
                old(self).root(),
                final(self).root(),
            ),
    {
        if data.len() > MAX_FILE_SIZE {
            let mut msg = String::from_str("File too large: ");
            let len_text = decimal_string(data.len() as u64);
            push_str(&mut msg, len_text.as_str());
            push_str(&mut msg, " bytes (max: ");
            let max_text = decimal_string(MAX_FILE_SIZE as u64);
            push_str(&mut msg, max_text.as_str());
            push_str(&mut msg, " bytes)");
            return Err(FileSystemError::Custom(msg));
        }
        let parts = self.lookup_parts(path);
        assert(strings_view(parts@).skip(0) =~= strings_view(parts@));
        match find_ref(&self.root, &parts, 0) {
            None => {
                return Err(FileSystemError::NotFound);
            },
            Some(entry) => {
                if Self::entry_is_dir(entry) {
                    return Err(FileSystemError::NotAFile);
                }
            },
        }
        let contents = vstd::slice::slice_to_vec(data);
        modify_at(&mut self.root, &parts, 0, Edit::SetData(contents));
        Ok(())
    }

    fn create_file(&mut self, path: &str) -> (r: Result<(), FileSystemError>)
        ensures
            old(self).wf() ==> final(self).wf(),
            final(self).cwd() == old(self).cwd(),
            reports_tree_change(
                r,
                spec_create(old(self).root(), old(self).cwd(), path@, false),
                old(self).root(),
                final(self).root(),
            ),
    {
        self.create_entry(path, false)
    }

    fn delete_file(&mut self, path: &str) -> (r: Result<(), FileSystemError>)
        ensures
            old(self).wf() ==> final(self).wf(),
            final(self).cwd() == old(self).cwd(),
            reports_tree_change(
                r,
                spec_remove(old(self).root(), old(self).cwd(), path@, false),
                old(self).root(),
                final(self).root(),
            ),
    {
        self.remove_entry(path, false)
    }

    fn create_directory(&mut self, path: &str) -> (r: Result<(), FileSystemError>)
        ensures
            old(self).wf() ==> final(self).wf(),
            final(self).cwd() == old(self).cwd(),
            reports_tree_change(
                r,
                spec_create(old(self).root(), old(self).cwd(), path@, true),
                old(self).root(),
                final(self).root(),
            ),
    {
        self.create_entry(path, true)
    }

    fn delete_directory(&mut self, path: &str) -> (r: Result<(), FileSystemError>)
        ensures
            old(self).wf() ==> final(self).wf(),
            final(self).cwd() == old(self).cwd(),
            reports_tree_change(
                r,
                spec_remove(old(self).root(), old(self).cwd(), path@, true),
                old(self).root(),
                final(self).root(),
            ),
    {
        self.remove_entry(path, true)
    }

    fn list_directory(&mut self, path: &str) -> (r: Result<Vec<DirEntry>, FileSystemError>)
        ensures
            *final(self) == *old(self),
            match spec_list(old(self).root(), old(self).cwd(), path@) {
                Ok(n) => r matches Ok(v) && lists_children(v@, n),
                Err(f) => r matches Err(e) && failure_matches(e, f),
            },
    {
        let p = str_to_chars(path);
        let dir_path = if p.len() == 0 || (p.len() == 1 && p[0] == '.') {
            assert(path@.len() == 0 || path@ =~= seq!['.']);
            self.current_dir.clone()
        } else {
            assert(path@ != seq!['.']);
            self.normalize_path(path)
        };
        match self.find_entry(dir_path.as_str()) {
            None => Err(FileSystemError::NotFound),
            Some(entry) => {
                if !Self::entry_is_dir(entry) {
                    return Err(FileSystemError::NotADirectory);
                }
                proof {
                    lemma_children_view(entry.children@);
                }
                let mut entries: Vec<DirEntry> = Vec::new();
                let mut i: usize = 0;
                while i < entry.children.len()
                    invariant
                        i <= entry.children@.len(),
                        children_view(entry.children@).len() == entry.children@.len(),
                        forall|j: int|
                            0 <= j < entry.children@.len() ==> #[trigger] children_view(
                                entry.children@,
                            )[j] == (*entry.children@[j])@,
                        entries@.len() == i,
                        forall|j: int|
                            0 <= j < i ==> {
                                &&& #[trigger] entries@[j].name@ == (*entry.children@[j])@.name
                                &&& entries@[j].is_directory == (*entry.children@[j])@.is_dir
                                &&& entries@[j].size == (*entry.children@[j])@.data.len()
                            },
                    decreases entry.children@.len() - i,
                {
                    let child: &FileEntry = &entry.children[i];
                    let d = DirEntry {
                        name: child.name.clone(),
                        is_directory: Self::entry_is_dir(child),
                        size: child.data.len() as u64,
                    };
                    let ghost before = entries@;
                    assert(d.name@ == child@.name);
                    assert(child == *entry.children@[i as int]);
                    entries.push(d);
                    assert(entries@[i as int] == d);
                    assert(forall|j: int| 0 <= j < i ==> entries@[j] == before[j]);
                    i = i + 1;
                }
                assert(lists_children(entries@, entry@));
                Ok(entries)
            },
        }
    }

    fn path_exists(&mut self, path: &str) -> (r: bool)
        ensures
            *final(self) == *old(self),
            r == spec_lookup(old(self).root(), old(self).cwd(), path@) is Some,
    {
        self.find_entry(path).is_some()
    }

    fn is_directory(&mut self, path: &str) -> (r: bool)
        ensures
            *final(self) == *old(self),
            r == (spec_lookup(old(self).root(), old(self).cwd(), path@) matches Some(n)
                && n.is_dir),
    {
        match self.find_entry(path) {
            Some(e) => Self::entry_is_dir(e),
            None => false,
        }
    }

    fn is_file(&mut self, path: &str) -> (r: bool)
        ensures
            *final(self) == *old(self),
            r == (spec_lookup(old(self).root(), old(self).cwd(), path@) matches Some(n)
                && !n.is_dir),
    {
        match self.find_entry(path) {
            Some(e) => !Self::entry_is_dir(e),
            None => false,
        }
    }

    fn get_current_directory(&self) -> (r: String)
        ensures
            r@ == self.cwd(),
    {
        self.current_dir.clone()
    }

    fn set_current_directory(&mut self, path: &str) -> (r: Result<(), FileSystemError>)
        ensures
            old(self).wf() ==> final(self).wf(),
            final(self).root() == old(self).root(),
            match spec_cd(old(self).root(), old(self).cwd(), path@) {
                Ok(d) => r is Ok && final(self).cwd() == d,
                Err(f) => final(self).cwd() == old(self).cwd() && (r matches Err(e)
                    && failure_matches(e, f)),
            },
    {
        let new_dir = self.normalize_path(path);
        match self.find_entry(new_dir.as_str()) {
            None => {
                return Err(FileSystemError::NotFound);
            },
            Some(entry) => {
                if !Self::entry_is_dir(entry) {
                    return Err(FileSystemError::NotADirectory);
                }
            },
        }
        proof {
            if old(self).wf() {
                lemma_cd_absolute(old(self).root(), old(self).cwd(), path@);
            }
        }
        self.current_dir = new_dir;
        Ok(())
    }
}

proof fn lemma_first_named_update(s: Seq<Node>, name: Seq<char>, i: int, x: Node)
    requires
        0 <= i < s.len(),
        x.name == s[i].name,
    ensures
        first_named(s.update(i, x), name) == first_named(s, name),
{
    let t = s.update(i, x);
    assert forall|j: int| 0 <= j < s.len() implies #[trigger] t[j].name == s[j].name by {}
    assert forall|k: int| is_first_named(s, name, k) implies is_first_named(t, name, k) by {
        assert forall|j: int| 0 <= j < k implies t[j].name != name by {
            assert(t[j].name == s[j].name);
        }
    }
    assert forall|k: int| is_first_named(t, name, k) implies is_first_named(s, name, k) by {
        assert(t[k].name == s[k].name);
        assert forall|j: int| 0 <= j < k implies s[j].name != name by {
            assert(t[j].name == s[j].name);
        }
    }
    if exists|k: int| is_first_named(s, name, k) {
        let k = choose|k: int| is_first_named(s, name, k);
        lemma_first_named_unique(s, name, k);
        lemma_first_named_unique(t, name, k);
    }
}

/// Replacing the entry a path reaches by one of the same name leaves the
/// path reaching the new entry, and keeps the name and kind of the root.
proof fn lemma_find_replace(n: Node, parts: Seq<Seq<char>>, new: Node)
    requires
        node_find(n, parts) is Some,
        parts.len() > 0 ==> new.name == node_find(n, parts)->0.name,
    ensures
        node_find(node_replace(n, parts, new), parts) == Some(new),
        parts.len() > 0 ==> node_replace(n, parts, new).name == n.name,
        parts.len() > 0 ==> node_replace(n, parts, new).is_dir == n.is_dir,
    decreases parts.len(),
{
    if parts.len() > 0 {
        let i = first_named(n.children, parts[0])->0;
        assert(is_first_named(n.children, parts[0], i));
        let c = n.children[i];
        let c2 = if parts.len() == 1 {
            new
        } else {
            node_replace(c, parts.drop_first(), new)
        };
        if parts.len() > 1 {
            lemma_find_replace(c, parts.drop_first(), new);
        }
        lemma_first_named_update(n.children, parts[0], i, c2);
    }
}

/// What a successful write puts into a file is what reading the same path
/// gives back afterwards.
pub proof fn law_read_after_write(
    root: Node,
    cwd: Seq<char>,
    path: Seq<char>,
    data: Seq<u8>,
    after: Node,
)
    requires
        spec_write(root, cwd, path, data) == Ok::<Node, Failure>(after),
    ensures
        spec_read(after, cwd, path) == Ok::<Seq<u8>, Failure>(data),
{
    let parts = spec_lookup_parts(cwd, path);
    let n = node_find(root, parts)->0;
    lemma_find_replace(root, parts, Node { data, ..n });
}

/// Putting back the entry a path reaches leaves the tree as it was.
proof fn lemma_replace_same(n: Node, parts: Seq<Seq<char>>)
    requires
        node_find(n, parts) is Some,
    ensures
        node_replace(n, parts, node_find(n, parts)->0) == n,
    decreases parts.len(),
{
    if parts.len() > 0 {
        let i = first_named(n.children, parts[0])->0;
        assert(is_first_named(n.children, parts[0], i));
        if parts.len() > 1 {
            lemma_replace_same(n.children[i], parts.drop_first());
        }
        assert(n.children.update(i, n.children[i]) =~= n.children);
    }
}

/// Replacing the same entry twice keeps only the second replacement.
proof fn lemma_replace_twice(n: Node, parts: Seq<Seq<char>>, x: Node, y: Node)
    requires
        node_find(n, parts) is Some,
        parts.len() > 0 ==> x.name == node_find(n, parts)->0.name,
    ensures
        node_replace(node_replace(n, parts, x), parts, y) == node_replace(n, parts, y),
    decreases parts.len(),
{
    if parts.len() > 0 {
        let i = first_named(n.children, parts[0])->0;
        assert(is_first_named(n.children, parts[0], i));
        let c = n.children[i];
        let c2 = if parts.len() == 1 {
            x
        } else {
            node_replace(c, parts.drop_first(), x)
        };
        if parts.len() > 1 {
            lemma_find_replace(c, parts.drop_first(), x);
            lemma_replace_twice(c, parts.drop_first(), x, y);
        }
        lemma_first_named_update(n.children, parts[0], i, c2);
        let m = node_replace(n, parts, x);
        assert(m.children == n.children.update(i, c2));
        let y2 = if parts.len() == 1 {
            y
        } else {
            node_replace(c, parts.drop_first(), y)
        };
        assert(m.children.update(i, y2) =~= n.children.update(i, y2));
    }
}

/// Removing what was just created undoes the creation: when creating a
/// file (or directory) at `path` succeeds, removing a file (or directory)
/// at the same path succeeds and gives back the tree from before.
pub proof fn law_remove_undoes_create(
    root: Node,
    cwd: Seq<char>,
    path: Seq<char>,
    is_dir: bool,
    after: Node,
)
    requires
        spec_create(root, cwd, path, is_dir) == Ok::<Node, Failure>(after),
    ensures
        spec_remove(after, cwd, path, is_dir) == Ok::<Node, Failure>(root),
{
    let (dir, name) = spec_parent_and_name(cwd, path);
    let parts = spec_lookup_parts(cwd, dir);
    let p = node_find(root, parts)->0;
    let entry = if is_dir {
        dir_node(name)
    } else {
        file_node(name, Seq::empty())
    };
    let p2 = Node { children: p.children.push(entry), ..p };
    lemma_find_replace(root, parts, p2);
    let k = p.children.len() as int;
    assert(child_of_kind(p2.children, name, is_dir, k)) by {
        assert forall|j: int| 0 <= j < k implies !(p2.children[j].name == name
            && p2.children[j].is_dir == is_dir) by {
            assert(p2.children[j] == p.children[j]);
        }
    }
    let j = choose|j: int| child_of_kind(p2.children, name, is_dir, j);
    assert(j == k);
    if is_dir && spec_normalize(cwd, path) == seq!['/'] {
        let normalized = spec_normalize(cwd, path);
        assert(is_last_slash(normalized, 0));
        let pos = last_slash(normalized)->0;
        assert(pos == 0);
        assert(name.len() == 0);
    }
    assert(p2.children.remove(k) =~= p.children);
    assert(Node { children: p2.children.remove(k), ..p2 } == p);
    lemma_replace_twice(root, parts, p2, p);
    lemma_replace_same(root, parts);
}

/// A replacement that keeps the name of the entry it replaces keeps the
/// kind of the root, or gives the new entry's kind at the root itself.
proof fn lemma_replace_root_kind(n: Node, parts: Seq<Seq<char>>, new: Node)
    requires
        node_find(n, parts) is Some,
        parts.len() > 0 ==> new.name == node_find(n, parts)->0.name,
    ensures
        node_replace(n, parts, new).is_dir == (if parts.len() == 0 {
            new.is_dir
        } else {
            n.is_dir
        }),
{
    if parts.len() > 0 {
        lemma_find_replace(n, parts, new);
    }
}

/// Creating, removing and writing keep the root a directory.
pub proof fn lemma_tree_ops_keep_root_dir(root: Node, cwd: Seq<char>, path: Seq<char>, is_dir: bool, data: Seq<u8>)
    requires
        root.is_dir,
    ensures
        spec_create(root, cwd, path, is_dir) matches Ok(t) ==> t.is_dir,
        spec_remove(root, cwd, path, is_dir) matches Ok(t) ==> t.is_dir,
        spec_write(root, cwd, path, data) matches Ok(t) ==> t.is_dir,
{
    let (dir, name) = spec_parent_and_name(cwd, path);
    let parts = spec_lookup_parts(cwd, dir);
    if let Some(p) = node_find(root, parts) {
        let entry = if is_dir {
            dir_node(name)
        } else {
            file_node(name, Seq::empty())
        };
        lemma_replace_root_kind(root, parts, Node { children: p.children.push(entry), ..p });
        if let Some(i) = first_of_kind(p.children, name, is_dir) {
            lemma_replace_root_kind(root, parts, Node { children: p.children.remove(i), ..p });
        }
    }
    let wparts = spec_lookup_parts(cwd, path);
    if let Some(n) = node_find(root, wparts) {
        lemma_replace_root_kind(root, wparts, Node { data, ..n });
    }
}

/// Resolving a path against an absolute directory gives an absolute path.
proof fn lemma_fold_absolute(start: Seq<char>, parts: Seq<Seq<char>>)
    requires
        start.len() > 0,
        start[0] == '/',
    ensures
        normalize_fold(start, parts).len() > 0,
        normalize_fold(start, parts)[0] == '/',
    decreases parts.len(),
{
    if parts.len() > 0 {
        lemma_fold_absolute(start, parts.drop_last());
        let r = normalize_fold(start, parts.drop_last());
        let part = parts.last();
        if part == seq!['.'] || part.len() == 0 {
        } else if part == seq!['.', '.'] {
            if r != seq!['/'] {
                let pos = match last_slash(r) {
                    Some(p) => p,
                    None => 0,
                };
                if let Some(p) = last_slash(r) {
                    assert(is_last_slash(r, choose|i: int| is_last_slash(r, i)));
                }
                if pos != 0 {
                    assert(r.take(pos)[0] == r[0]);
                }
            }
        } else {
            let base = if r.len() > 0 && r.last() == '/' {
                r
            } else {
                r.push('/')
            };
            assert((base + part)[0] == base[0]);
        }
    }
}

/// Changing directory from an absolute current directory leads to an
/// absolute one.
pub proof fn lemma_cd_absolute(root: Node, cwd: Seq<char>, path: Seq<char>)
    requires
        cwd.len() > 0,
        cwd[0] == '/',
    ensures
        spec_cd(root, cwd, path) matches Ok(d) ==> d.len() > 0 && d[0] == '/',
{
    if !(path.len() > 0 && path[0] == '/') {
        lemma_fold_absolute(cwd, spec_split(path, '/'));
    }
}

/// A text without the separator splits into itself alone.
proof fn lemma_split_whole(t: Seq<char>, sep: char)
    requires
        forall|i: int| 0 <= i < t.len() ==> t[i] != sep,
    ensures
        spec_split(t, sep) == seq![t],
    decreases t.len(),
{
    if t.len() > 0 {
        lemma_split_whole(t.drop_last(), sep);
        assert(t[t.len() - 1] != sep);
        assert(t.drop_last().push(t.last()) =~= t);
        let prev = spec_split(t.drop_last(), sep);
        assert(prev.len() == 1 && prev.last() == t.drop_last());
        assert(spec_split(t, sep) == prev.update(0, prev.last().push(t.last())));
        assert(seq![t.drop_last()].update(0, t) =~= seq![t]);
    } else {
        assert(t =~= Seq::<char>::empty());
    }
}

/// The last `/` of `d/x`, when `x` holds no `/`, is the one before `x`.
proof fn lemma_last_slash_before(d: Seq<char>, x: Seq<char>)
    requires
        forall|i: int| 0 <= i < x.len() ==> x[i] != '/',
    ensures
        last_slash(d + seq!['/'] + x) == Some(d.len() as int),
{
    let p = d + seq!['/'] + x;
    assert(is_last_slash(p, d.len() as int));
    let k = choose|k: int| is_last_slash(p, k);
    if k < d.len() {
        assert(p[d.len() as int] == '/');
    } else if k > d.len() {
        assert(p[k] == x[k - d.len() - 1]);
    }
}

/// `..` goes up exactly one level: resolved in the directory `d/x`, where
/// `x` is a single name, it leads back to `d`; resolved in `/x` it leads
/// to the root.
pub proof fn law_dotdot_is_parent(d: Seq<char>, x: Seq<char>)
    requires
        d.len() > 0,
        d[0] == '/',
        x.len() > 0,
        forall|i: int| 0 <= i < x.len() ==> x[i] != '/',
    ensures
        spec_normalize(d + seq!['/'] + x, seq!['.', '.']) == d,
        spec_normalize(seq!['/'] + x, seq!['.', '.']) == seq!['/'],
{
    let dd = seq!['.', '.'];
    lemma_split_whole(dd, '/');
    let parts = spec_split(dd, '/');
    assert(parts.drop_last() =~= Seq::<Seq<char>>::empty());
    assert(parts.last() == dd);
    assert(dd != seq!['.']) by {
        assert(dd.len() != seq!['.'].len());
    }
    let p = d + seq!['/'] + x;
    lemma_last_slash_before(d, x);
    assert(p != seq!['/']) by {
        assert(p.len() != 1);
    }
    assert(p.take(d.len() as int) =~= d);
    assert(normalize_fold(p, parts.drop_last()) == p);
    assert(normalize_step(p, dd) == d);
    assert(spec_normalize(p, dd) == normalize_fold(p, parts));
    let q = seq!['/'] + x;
    lemma_last_slash_before(Seq::empty(), x);
    assert(Seq::<char>::empty() + seq!['/'] + x =~= q);
    assert(q != seq!['/']) by {
        assert(q.len() == 1 + x.len());
    }
    assert(normalize_fold(q, parts.drop_last()) == q);
    assert(normalize_step(q, dd) == seq!['/']);
    assert(spec_normalize(q, dd) == normalize_fold(q, parts));
}

/// Creating never puts a second entry of the same name in a directory: a
/// successful create leaves the directory it adds to holding the new entry
/// as its last child and no other child of that name, whatever its kind;
/// and a directory whose children had distinct names keeps them distinct.
pub proof fn law_create_keeps_names_unique(
    root: Node,
    cwd: Seq<char>,
    path: Seq<char>,
    is_dir: bool,
    t: Node,
)
    requires
        spec_create(root, cwd, path, is_dir) == Ok::<Node, Failure>(t),
    ensures
        ({
            let (dir, name) = spec_parent_and_name(cwd, path);
            let parts = spec_lookup_parts(cwd, dir);
            let p = node_find(root, parts)->0;
            &&& node_find(root, parts) is Some
            &&& node_find(t, parts) matches Some(q) && {
                &&& q.children.len() == p.children.len() + 1
                &&& q.children.last().name == name
                &&& q.children.last().is_dir == is_dir
                &&& forall|i: int| 0 <= i < q.children.len() - 1 ==> q.children[i].name != name
                &&& (forall|i: int, j: int|
                    0 <= i < j < p.children.len() ==> p.children[i].name != p.children[j].name)
                    ==> (forall|i: int, j: int|
                    0 <= i < j < q.children.len() ==> q.children[i].name != q.children[j].name)
            }
        }),
{
    let (dir, name) = spec_parent_and_name(cwd, path);
    let parts = spec_lookup_parts(cwd, dir);
    let p = node_find(root, parts)->0;
    let entry = if is_dir {
        dir_node(name)
    } else {
        file_node(name, Seq::empty())
    };
    let p2 = Node { children: p.children.push(entry), ..p };
    lemma_find_replace(root, parts, p2);
    assert forall|i: int| 0 <= i < p2.children.len() - 1 implies p2.children[i].name != name by {
        assert(p2.children[i] == p.children[i]);
    }
}

} // verus!
