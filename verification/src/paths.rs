//! Path derivation. The library never touches the filesystem: callers
//! hand it the platform's home and data directories as plain strings
//! once at startup, and every persisted location is derived from them
//! here. A `FileWrite` is the library's instruction to persist one
//! file with the given full content.

use vstd::prelude::*;

verus! {

/// An instruction to overwrite the file at `path` with `content`.
#[derive(Debug)]
pub struct FileWrite {
    pub path: String,
    pub content: String,
}

/// The tracker's directory under the user's home.
pub open spec fn btr_dir_spec(home: Seq<char>) -> Seq<char> {
    home + "/.btr"@
}

/// The directory holding one file per sheet.
pub open spec fn sheets_dir_spec(home: Seq<char>) -> Seq<char> {
    btr_dir_spec(home) + "/sheets"@
}

/// The directory holding the persisted interaction state.
pub open spec fn state_dir_spec(data_dir: Seq<char>) -> Seq<char> {
    data_dir + "/btr"@
}

/// The main configuration file.
pub open spec fn cfg_file_spec(home: Seq<char>) -> Seq<char> {
    btr_dir_spec(home) + "/cfg.btr"@
}

/// The state file.
pub open spec fn state_file_spec(data_dir: Seq<char>) -> Seq<char> {
    state_dir_spec(data_dir) + "/state"@
}

/// The file a sheet of the given name is persisted in.
pub open spec fn sheet_file_spec(sheets_dir: Seq<char>, name: Seq<char>) -> Seq<char> {
    sheets_dir + "/"@ + name + ".btr"@
}

/// The tracker's directory under the user's home.
pub fn btr_dir(home: &str) -> (r: String)
    ensures
        r@ == btr_dir_spec(home@),
{
    let mut s = String::from_str(home);
    s.append("/.btr");
    s
}

/// The directory holding one file per sheet.
pub fn sheets_dir(home: &str) -> (r: String)
    ensures
        r@ == sheets_dir_spec(home@),
{
    let mut s = btr_dir(home);
    s.append("/sheets");
    s
}

/// The directory holding the persisted interaction state.
pub fn state_dir(data_dir: &str) -> (r: String)
    ensures
        r@ == state_dir_spec(data_dir@),
{
    let mut s = String::from_str(data_dir);
    s.append("/btr");
    s
}

/// The main configuration file.
pub fn cfg_file(home: &str) -> (r: String)
    ensures
        r@ == cfg_file_spec(home@),
{
    let mut s = btr_dir(home);
    s.append("/cfg.btr");
    s
}

/// The state file.
pub fn state_file(data_dir: &str) -> (r: String)
    ensures
        r@ == state_file_spec(data_dir@),
{
    let mut s = state_dir(data_dir);
    s.append("/state");
    s
}

/// The file a sheet of the given name is persisted in.
pub fn sheet_file(sheets_dir: &str, name: &str) -> (r: String)
    ensures
        r@ == sheet_file_spec(sheets_dir@, name@),
{
    let mut s = String::from_str(sheets_dir);
    s.append("/");
    s.append(name);
    s.append(".btr");
    s
}

} // verus!
