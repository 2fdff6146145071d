//! What goes into the zip archive of an upload, and under which names.
//!
//! Directory entries named like build artifacts or VCS data (`.git`, `bin`, `obj`,
//! `node_modules`, `.DS_Store`, `target`) are left out, whatever their ASCII case.
use vstd::prelude::*;
use vstd::string::StrSliceExecFns;
use crate::error::{Error, ErrorCode};
use crate::paths::{file_name, file_name_of, file_stem, stem_of_name, PathStyle};
use crate::text::{ascii_lower, eq_ignore_ascii_case, owned, push_char, push_str, str_eq_ignore_ascii_case};

verus! {

/// The names left out of directory archives.
pub open spec fn excluded_names() -> Seq<Seq<char>> {
    seq![".git"@, "bin"@, "obj"@, "node_modules"@, ".DS_Store"@, "target"@]
}

/// A directory entry named `name` is left out of the archive.
pub open spec fn is_excluded_name(name: Seq<char>) -> bool {
    exists|i: int| 0 <= i < excluded_names().len() && eq_ignore_ascii_case(#[trigger] excluded_names()[i], name)
}

/// Whether a directory entry named `name` is left out of the archive.
pub fn is_excluded(name: &str) -> (r: bool)
    ensures
        r == is_excluded_name(name@),
{
    let names = [".git", "bin", "obj", "node_modules", ".DS_Store", "target"];
    let ghost ex = excluded_names();
    assert(ex[0] == names[0]@ && ex[1] == names[1]@ && ex[2] == names[2]@);
    assert(ex[3] == names[3]@ && ex[4] == names[4]@ && ex[5] == names[5]@);
    let mut i: usize = 0;
    while i < 6
        invariant
            i <= 6,
            ex == excluded_names(),
            forall|k: int| 0 <= k < 6 ==> ex[k] == (#[trigger] names@[k])@,
            forall|k: int| 0 <= k < i ==> !eq_ignore_ascii_case(#[trigger] ex[k], name@),
        decreases 6 - i,
    {
        if str_eq_ignore_ascii_case(names[i], name) {
            assert(eq_ignore_ascii_case(ex[i as int], name@));
            return true;
        }
        i = i + 1;
    }
    false
}

/// The error for a path that names no file.
pub open spec fn invalid_path_message(path: Seq<char>) -> Seq<char> {
    "Invalid file path: "@ + path
}

/// The names for zipping the single file at `file_path`: the entry name inside the archive
/// (the file's name) and the blob name (the file's stem and `.zip`).
pub fn single_file_names(file_path: &str, style: PathStyle) -> (r: Result<(String, String), Error>)
    ensures
        match file_name_of(style, file_path@) {
            Some(f) => r matches Ok(names) && names.0@ == f && names.1@ == stem_of_name(f) + ".zip"@,
            None => r matches Err(e) && e.code == ErrorCode::InvalidInput && e.message@ == invalid_path_message(
                file_path@,
            ) && e.detail is None && e.fix is None,
        },
{
    match file_name(file_path, style) {
        None => {
            let mut msg = owned("Invalid file path: ");
            push_str(&mut msg, file_path);
            Err(Error::invalid(msg))
        },
        Some(f) => {
            let stem = match file_stem(file_path, style) {
                Some(s) => s,
                None => f,
            };
            let mut blob = owned(stem);
            push_str(&mut blob, ".zip");
            Ok((owned(f), blob))
        },
    }
}

/// The blob name of the archive of the directory at `dir`: its name, or `archive` when it has
/// none, then `.zip`.
pub fn directory_blob_name(dir: &str, style: PathStyle) -> (r: String)
    ensures
        r@ == match file_name_of(style, dir@) {
            Some(f) => if f.len() > 0 {
                f
            } else {
                "archive"@
            },
            None => "archive"@,
        } + ".zip"@,
{
    let name = match file_name(dir, style) {
        Some(f) if f.unicode_len() > 0 => f,
        _ => "archive",
    };
    let mut blob = owned(name);
    push_str(&mut blob, ".zip");
    blob
}

/// `\` replaced by `/`.
pub open spec fn forward_slashes(s: Seq<char>) -> Seq<char> {
    s.map_values(|c: char| if c == '\\' { '/' } else { c })
}

/// The name inside the archive of an entry at `rel` (relative to the archived directory): with
/// forward slashes, and with a trailing `/` for a directory.
pub open spec fn entry_name(rel: Seq<char>, is_dir: bool) -> Seq<char> {
    if !is_dir {
        forward_slashes(rel)
    } else if forward_slashes(rel).len() > 0 && forward_slashes(rel).last() == '/' {
        forward_slashes(rel)
    } else {
        forward_slashes(rel).push('/')
    }
}

/// The name inside the archive of an entry at `rel_path` (relative to the archived directory).
pub fn zip_entry_name(rel_path: &str, is_dir: bool) -> (r: String)
    ensures
        r@ == entry_name(rel_path@, is_dir),
{
    let n = rel_path.unicode_len();
    let mut out = String::new();
    let mut i: usize = 0;
    while i < n
        invariant
            i <= n,
            n == rel_path@.len(),
            out@ == forward_slashes(rel_path@.take(i as int)),
        decreases n - i,
    {
        let c = rel_path.get_char(i);
        push_char(&mut out, if c == '\\' { '/' } else { c });
        assert(forward_slashes(rel_path@.take(i + 1)) =~= forward_slashes(rel_path@.take(i as int)).push(
            if c == '\\' { '/' } else { c },
        ));
        i = i + 1;
    }
    assert(rel_path@.take(n as int) =~= rel_path@);
    if is_dir {
        let m = out.as_str().unicode_len();
        if !(m > 0 && out.as_str().get_char(m - 1) == '/') {
            push_char(&mut out, '/');
        }
    }
    out
}

/// What a directory entry is on disk.
#[derive(Clone, Copy, Debug, PartialEq, Eq, Structural)]
pub enum EntryKind {
    Directory,
    File,
    /// Neither (a broken link, a socket, ...).
    Other,
}

/// What the walk of a directory being archived does with one of its entries.
#[derive(Debug)]
pub enum EntryAction {
    /// Leave it, and all under it, out.
    Skip,
    /// Add a directory entry of this name, then walk into the directory.
    Directory(String),
    /// Add a file entry of this name holding the file's bytes.
    File(String),
}

/// What to do with the entry named `name` at `rel_path` (relative to the archived directory):
/// skip it when its name is excluded or it is neither a directory nor a file, else add it under
/// its archive name.
pub fn entry_action(name: &str, rel_path: &str, kind: EntryKind) -> (r: EntryAction)
    ensures
        is_excluded_name(name@) || kind == EntryKind::Other ==> r is Skip,
        !is_excluded_name(name@) && kind == EntryKind::Directory ==> (r matches EntryAction::Directory(e) && e@
            == entry_name(rel_path@, true)),
        !is_excluded_name(name@) && kind == EntryKind::File ==> (r matches EntryAction::File(e) && e@ == entry_name(
            rel_path@,
            false,
        )),
{
    if is_excluded(name) {
        return EntryAction::Skip;
    }
    match kind {
        EntryKind::Directory => EntryAction::Directory(zip_entry_name(rel_path, true)),
        EntryKind::File => EntryAction::File(zip_entry_name(rel_path, false)),
        EntryKind::Other => EntryAction::Skip,
    }
}

proof fn lemma_eq_ignore_ascii_case_symmetric(a: Seq<char>, b: Seq<char>)
    ensures
        eq_ignore_ascii_case(a, b) == eq_ignore_ascii_case(b, a),
{
    if eq_ignore_ascii_case(a, b) {
        assert forall|i: int| 0 <= i < b.len() implies ascii_lower(#[trigger] b[i]) == ascii_lower(a[i]) by {
            assert(ascii_lower(a[i]) == ascii_lower(b[i]));
        }
    }
    if eq_ignore_ascii_case(b, a) {
        assert forall|i: int| 0 <= i < a.len() implies ascii_lower(#[trigger] a[i]) == ascii_lower(b[i]) by {
            assert(ascii_lower(b[i]) == ascii_lower(a[i]));
        }
    }
}

/// A directory entry is left out of an archive exactly when its name is `.git`, `bin`, `obj`,
/// `node_modules`, `.DS_Store` or `target`, ignoring ASCII case.
pub proof fn lemma_excluded_names_are_the_documented_ones(name: Seq<char>)
    ensures
        is_excluded_name(name) <==> {
            ||| eq_ignore_ascii_case(name, ".git"@)
            ||| eq_ignore_ascii_case(name, "bin"@)
            ||| eq_ignore_ascii_case(name, "obj"@)
            ||| eq_ignore_ascii_case(name, "node_modules"@)
            ||| eq_ignore_ascii_case(name, ".DS_Store"@)
            ||| eq_ignore_ascii_case(name, "target"@)
        },
{
    let ex = excluded_names();
    assert(ex[0] == ".git"@ && ex[1] == "bin"@ && ex[2] == "obj"@);
    assert(ex[3] == "node_modules"@ && ex[4] == ".DS_Store"@ && ex[5] == "target"@);
    lemma_eq_ignore_ascii_case_symmetric(ex[0], name);
    lemma_eq_ignore_ascii_case_symmetric(ex[1], name);
    lemma_eq_ignore_ascii_case_symmetric(ex[2], name);
    lemma_eq_ignore_ascii_case_symmetric(ex[3], name);
    lemma_eq_ignore_ascii_case_symmetric(ex[4], name);
    lemma_eq_ignore_ascii_case_symmetric(ex[5], name);
    if is_excluded_name(name) {
        let i = choose|i: int| 0 <= i < ex.len() && eq_ignore_ascii_case(#[trigger] ex[i], name);
        assert(0 <= i < 6);
    }
    if eq_ignore_ascii_case(name, ".git"@) {
        assert(eq_ignore_ascii_case(ex[0], name));
    }
    if eq_ignore_ascii_case(name, "bin"@) {
        assert(eq_ignore_ascii_case(ex[1], name));
    }
    if eq_ignore_ascii_case(name, "obj"@) {
        assert(eq_ignore_ascii_case(ex[2], name));
    }
    if eq_ignore_ascii_case(name, "node_modules"@) {
        assert(eq_ignore_ascii_case(ex[3], name));
    }
    if eq_ignore_ascii_case(name, ".DS_Store"@) {
        assert(eq_ignore_ascii_case(ex[4], name));
    }
    if eq_ignore_ascii_case(name, "target"@) {
        assert(eq_ignore_ascii_case(ex[5], name));
    }
}

} // verus!
