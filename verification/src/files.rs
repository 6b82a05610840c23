//! Paths, and what is known of a file.

use vstd::prelude::*;

verus! {

/// The path of `name` in the directory `base`.
pub open spec fn path_in(base: Seq<char>, name: Seq<char>) -> Seq<char> {
    if base.len() == 0 {
        name
    } else if base.last() == '/' {
        base + name
    } else {
        base + "/"@ + name
    }
}

/// The path of `name` in the directory `base`.
pub fn join_path(base: &str, name: &str) -> (r: String)
    ensures
        r@ == path_in(base@, name@),
{
    let mut out = base.to_string();
    let n: usize = base.unicode_len();
    if n > 0 && base.get_char(n - 1) != '/' {
        out.append("/");
    }
    out.append(name);
    assert(out@ =~= path_in(base@, name@));
    out
}

/// Whether a path starts at the root directory.
pub open spec fn is_absolute(path: Seq<char>) -> bool {
    path.len() > 0 && path[0] == '/'
}

/// The path from the root directory to what `path` names in the directory `cwd`.
pub open spec fn absolute(cwd: Seq<char>, path: Seq<char>) -> Seq<char> {
    if is_absolute(path) {
        path
    } else {
        path_in(cwd, path)
    }
}

/// The path from the root directory to what `path` names in the directory `cwd`.
pub fn absolute_path(cwd: &str, path: &str) -> (r: String)
    ensures
        r@ == absolute(cwd@, path@),
{
    if path.unicode_len() > 0 && path.get_char(0) == '/' {
        path.to_string()
    } else {
        join_path(cwd, path)
    }
}

/// In a directory that is named from the root, every path is.
pub proof fn absolute_paths_are_absolute(cwd: Seq<char>, path: Seq<char>)
    requires
        is_absolute(cwd),
    ensures
        is_absolute(absolute(cwd, path)),
{
}

/// What is known of a file: whether it is a regular one, its length, and its
/// permissions where the system has them.
#[derive(Clone, Copy, PartialEq, Eq, Structural, Debug)]
pub struct FileInfo {
    pub is_file: bool,
    pub len: u64,
    pub mode: Option<u32>,
}

/// Whether anybody may execute a file with these permissions.
pub open spec fn may_execute(mode: u32) -> bool {
    mode & 0o111 != 0
}

/// Whether a file exists and can be executed.
pub open spec fn executable(file: Option<FileInfo>) -> bool {
    match file {
        Some(f) => f.is_file && match f.mode {
            Some(mode) => may_execute(mode),
            None => true,
        },
        None => false,
    }
}

/// Whether a file exists and can be executed.
pub fn is_executable(file: Option<FileInfo>) -> (r: bool)
    ensures
        r == executable(file),
{
    match file {
        Some(f) => {
            f.is_file && match f.mode {
                Some(mode) => mode & 0o111 != 0,
                None => true,
            }
        },
        None => false,
    }
}

/// A path in a directory is that of the directory, a slash and the name; a slash that the
/// directory ends with is not written twice, and where no directory is named there is none.
pub proof fn paths_have_one_slash_between(base: Seq<char>, name: Seq<char>)
    requires
        base.len() > 0,
        base.last() != '/',
    ensures
        path_in(base, name) == base + seq!['/'] + name,
        path_in(base + seq!['/'], name) == base + seq!['/'] + name,
        path_in(Seq::empty(), name) == name,
{
    reveal_strlit("/");
    assert("/"@ =~= seq!['/']);
}

/// A path from the root stays as it is, and any other stands behind the working directory.
pub proof fn other_paths_stand_behind_the_working_directory(cwd: Seq<char>, path: Seq<char>)
    requires
        cwd.len() > 0,
        cwd.last() != '/',
    ensures
        absolute(cwd, seq!['/'] + path) == seq!['/'] + path,
        path.len() == 0 || path[0] != '/' ==> absolute(cwd, path) == cwd + seq!['/'] + path,
{
    reveal_strlit("/");
    assert("/"@ =~= seq!['/']);
}

/// A regular file can be executed if its owner, its group or anybody else may, or where the
/// system knows no permissions; nothing else can.
pub proof fn any_execute_bit_is_enough(f: FileInfo)
    ensures
        executable(None) == false,
        !f.is_file ==> !executable(Some(f)),
        f.is_file && f.mode is None ==> executable(Some(f)),
        f.is_file && f.mode is Some ==> (executable(Some(f)) <==> {
            let mode = f.mode->0;
            mode % 2 == 1 || mode / 8 % 2 == 1 || mode / 64 % 2 == 1
        }),
{
    if let Some(mode) = f.mode {
        assert((mode & 0o111u32 != 0) == (mode % 2 == 1 || mode / 8 % 2 == 1 || mode / 64 % 2 == 1))
            by (bit_vector);
    }
}

} // verus!
