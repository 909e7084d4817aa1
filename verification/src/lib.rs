//! Registry and reconciliation logic for managing add-on packs of a Bedrock
//! dedicated server world: version values, manifest classification, the
//! active-pack registry, and the install/remove/list decision rules.
use vstd::prelude::*;

pub mod addon;
pub mod commands;

verus! {

/// The kind of directory the tool was started in: the server root, or a
/// single world ("level") directory.
#[derive(Debug, PartialEq, Eq, Structural)]
pub enum WorkDirType {
    Bds,
    Level,
}

/// The working directory is neither a server root nor a world directory.
#[derive(Debug)]
pub struct IllegalWorkingPaths;

/// The server executable was not found in the working directory.
#[derive(Debug)]
pub struct BdsNotFound;

/// True when `name` names the server executable, possibly with a platform
/// suffix appended.
pub open spec fn spec_is_server_binary(name: Seq<char>) -> bool {
    "bedrock_server.exe"@.is_prefix_of(name)
}

/// True when one of the directory entries is the server executable.
pub open spec fn spec_bds_exists(entries: Seq<Seq<char>>) -> bool {
    exists|i: int| 0 <= i < entries.len() && spec_is_server_binary(entries[i])
}

fn str_starts_with(s: &str, prefix: &str) -> (r: bool)
    ensures
        r == prefix@.is_prefix_of(s@),
{
    let n = prefix.unicode_len();
    if n > s.unicode_len() {
        return false;
    }
    for i in 0..n
        invariant
            n == prefix@.len(),
            n <= s@.len(),
            forall|j: int| 0 <= j < i ==> s@[j] == prefix@[j],
    {
        if s.get_char(i) != prefix.get_char(i) {
            assert(!prefix@.is_prefix_of(s@));
            return false;
        }
    }
    assert(prefix@.is_prefix_of(s@));
    true
}

fn str_equal(s: &str, t: &str) -> (r: bool)
    ensures
        r == (s@ == t@),
{
    let n = s.unicode_len();
    if n != t.unicode_len() {
        return false;
    }
    for i in 0..n
        invariant
            n == s@.len(),
            n == t@.len(),
            forall|j: int| 0 <= j < i ==> s@[j] == t@[j],
    {
        if s.get_char(i) != t.get_char(i) {
            return false;
        }
    }
    proof {
        assert(s@ =~= t@);
    }
    true
}

/// Whether the working directory, given as its list of entry names, holds
/// the Bedrock server executable.
pub fn is_bds_exist(entries: &Vec<String>) -> (r: bool)
    ensures
        r == spec_bds_exists(entries.deep_view()),
{
    let n = entries.len();
    for i in 0..n
        invariant
            n == entries.len(),
            forall|j: int| 0 <= j < i ==> !spec_is_server_binary(entries.deep_view()[j]),
    {
        if str_starts_with(entries[i].as_str(), "bedrock_server.exe") {
            assert(spec_is_server_binary(entries.deep_view()[i as int]));
            return true;
        }
    }
    false
}

/// Fails with `BdsNotFound` exactly when no entry is the server executable.
pub fn check_bds_exist(entries: &Vec<String>) -> (r: Result<(), BdsNotFound>)
    ensures
        r is Ok <==> spec_bds_exists(entries.deep_view()),
{
    if is_bds_exist(entries) {
        Ok(())
    } else {
        Err(BdsNotFound)
    }
}

/// True when one of the directory entries equals `name`.
pub open spec fn spec_dir_contains(entries: Seq<Seq<char>>, name: Seq<char>) -> bool {
    exists|i: int| 0 <= i < entries.len() && entries[i] == name
}

fn dir_contains(entries: &Vec<String>, name: &str) -> (r: bool)
    ensures
        r == spec_dir_contains(entries.deep_view(), name@),
{
    let n = entries.len();
    for i in 0..n
        invariant
            n == entries.len(),
            forall|j: int| 0 <= j < i ==> entries.deep_view()[j] != name@,
    {
        if str_equal(entries[i].as_str(), name) {
            assert(entries.deep_view()[i as int] == name@);
            return true;
        }
    }
    false
}

/// The four entries whose joint presence marks a world directory.
pub open spec fn spec_is_bedrock_level(entries: Seq<Seq<char>>) -> bool {
    &&& spec_dir_contains(entries, "levelname.txt"@)
    &&& spec_dir_contains(entries, "db"@)
    &&& spec_dir_contains(entries, "level.dat"@)
    &&& spec_dir_contains(entries, "level.dat_old"@)
}

/// Whether the directory, given as its list of entry names, is a Bedrock
/// world directory.
pub fn is_bedrock_level(entries: &Vec<String>) -> (r: bool)
    ensures
        r == spec_is_bedrock_level(entries.deep_view()),
{
    dir_contains(entries, "levelname.txt") && dir_contains(entries, "db")
        && dir_contains(entries, "level.dat") && dir_contains(entries, "level.dat_old")
}

/// A directory is a server root when it holds the server executable, or the
/// `worlds` directory next to the server's bundled manual.
pub open spec fn spec_is_bds_root(entries: Seq<Seq<char>>) -> bool {
    ||| spec_bds_exists(entries)
    ||| (spec_dir_contains(entries, "worlds"@) && spec_dir_contains(
        entries,
        "bedrock_server_how_to.html"@,
    ))
}

/// Whether the directory, given as its list of entry names, is the server
/// root directory.
pub fn is_bds_root(entries: &Vec<String>) -> (r: bool)
    ensures
        r == spec_is_bds_root(entries.deep_view()),
{
    if is_bds_exist(entries) {
        return true;
    }
    dir_contains(entries, "worlds") && dir_contains(entries, "bedrock_server_how_to.html")
}

/// Classifies the working directory from its entry names: a world directory
/// wins over a server root; anything else is rejected.
pub fn get_work_path_type(entries: &Vec<String>) -> (r: Result<WorkDirType, IllegalWorkingPaths>)
    ensures
        spec_is_bedrock_level(entries.deep_view()) ==> (r matches Ok(t) && t == WorkDirType::Level),
        !spec_is_bedrock_level(entries.deep_view()) && spec_is_bds_root(entries.deep_view()) ==> (
        r matches Ok(t) && t == WorkDirType::Bds),
        !spec_is_bedrock_level(entries.deep_view()) && !spec_is_bds_root(entries.deep_view())
            ==> r is Err,
{
    if is_bedrock_level(entries) {
        Ok(WorkDirType::Level)
    } else if is_bds_root(entries) {
        Ok(WorkDirType::Bds)
    } else {
        Err(IllegalWorkingPaths)
    }
}

} // verus!


