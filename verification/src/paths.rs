//! File names of paths, as std's `Path` reads them on Unix (`/` separates components) and on
//! Windows (`/` and `\` separate them, and a drive such as `C:` may lead).
use vstd::prelude::*;
use vstd::string::StrSliceExecFns;

verus! {

/// The platform whose path rules apply.
#[derive(Clone, Copy, Debug, PartialEq, Eq, Structural)]
pub enum PathStyle {
    Unix,
    Windows,
}

/// `c` separates path components.
pub open spec fn is_separator(style: PathStyle, c: char) -> bool {
    c == '/' || (style == PathStyle::Windows && c == '\\')
}

/// The length of the drive prefix (`C:`) that leads a Windows path; 0 elsewhere. Other Windows
/// prefixes (`\\server\share`, `\\?\`) are read as ordinary components.
pub open spec fn prefix_len(style: PathStyle, s: Seq<char>) -> int {
    if style == PathStyle::Windows && s.len() >= 2 && s[1] == ':' && (('a' <= s[0] && s[0] <= 'z') || ('A' <= s[0]
        && s[0] <= 'Z')) {
        2
    } else {
        0
    }
}

/// The end of the last component of `s[..e]` after the prefix ending at `p`: trailing
/// separators and lone `.` components dropped.
pub open spec fn name_end(style: PathStyle, s: Seq<char>, p: int, e: int) -> int
    decreases e - p,
{
    if e <= p {
        p
    } else if is_separator(style, s[e - 1]) {
        name_end(style, s, p, e - 1)
    } else if s[e - 1] == '.' && (e == p + 1 || is_separator(style, s[e - 2])) {
        name_end(style, s, p, e - 1)
    } else {
        e
    }
}

/// The start of the component that ends at `e`: just after the separator before it, or the
/// end `p` of the prefix.
pub open spec fn segment_start(style: PathStyle, s: Seq<char>, p: int, e: int) -> int
    decreases e - p,
{
    if e <= p {
        p
    } else if is_separator(style, s[e - 1]) {
        e
    } else {
        segment_start(style, s, p, e - 1)
    }
}

/// The last component of path `s`, unless there is none or it is `..` (std's `Path::file_name`).
pub open spec fn file_name_of(style: PathStyle, s: Seq<char>) -> Option<Seq<char>> {
    let p = prefix_len(style, s);
    let e = name_end(style, s, p, s.len() as int);
    let seg = s.subrange(segment_start(style, s, p, e), e);
    if e == p || seg == ".."@ {
        None
    } else {
        Some(seg)
    }
}

/// The position of the last `.` in `f[..e]`, or -1.
pub open spec fn last_dot(f: Seq<char>, e: int) -> int
    decreases e,
{
    if e <= 0 {
        -1
    } else if f[e - 1] == '.' {
        e - 1
    } else {
        last_dot(f, e - 1)
    }
}

/// The extension of file name `f`: what follows its last `.`, unless that `.` begins the name.
pub open spec fn extension_of_name(f: Seq<char>) -> Option<Seq<char>> {
    let d = last_dot(f, f.len() as int);
    if d <= 0 {
        None
    } else {
        Some(f.subrange(d + 1, f.len() as int))
    }
}

/// The stem of file name `f`: what precedes its last `.`, unless that `.` begins the name.
pub open spec fn stem_of_name(f: Seq<char>) -> Seq<char> {
    let d = last_dot(f, f.len() as int);
    if d <= 0 {
        f
    } else {
        f.subrange(0, d)
    }
}


proof fn lemma_last_dot_bounds(f: Seq<char>, e: int)
    requires
        0 <= e <= f.len(),
    ensures
        -1 <= last_dot(f, e) < e,
    decreases e,
{
    if e > 0 {
        lemma_last_dot_bounds(f, e - 1);
    }
}

fn str_equals(a: &str, b: &str) -> (r: bool)
    ensures
        r == (a@ == b@),
{
    let n = a.unicode_len();
    if n != b.unicode_len() {
        return false;
    }
    let mut i: usize = 0;
    while i < n
        invariant
            i <= n,
            n == a@.len(),
            n == b@.len(),
            forall|j: int| 0 <= j < i ==> a@[j] == b@[j],
        decreases n - i,
    {
        if a.get_char(i) != b.get_char(i) {
            return false;
        }
        i = i + 1;
    }
    assert(a@ =~= b@);
    true
}

/// The last component of `path`, unless there is none or it is `..`.
pub fn file_name(path: &str, style: PathStyle) -> (r: Option<&str>)
    ensures
        match r {
            Some(f) => file_name_of(style, path@) == Some(f@),
            None => file_name_of(style, path@) is None,
        },
{
    let ghost s = path@;
    let n = path.unicode_len();
    let windows = match style {
        PathStyle::Windows => true,
        PathStyle::Unix => false,
    };
    let p: usize = if windows && n >= 2 && path.get_char(1) == ':' && ((path.get_char(0) >= 'a' && path.get_char(0)
        <= 'z') || (path.get_char(0) >= 'A' && path.get_char(0) <= 'Z')) {
        2
    } else {
        0
    };
    assert(p == prefix_len(style, s));
    let mut e: usize = n;
    loop
        invariant
            p <= e <= n,
            n == s.len(),
            s == path@,
            p == prefix_len(style, s),
            windows <==> style == PathStyle::Windows,
            name_end(style, s, p as int, n as int) == name_end(style, s, p as int, e as int),
        ensures
            p <= e <= n,
            name_end(style, s, p as int, n as int) == e,
        decreases e,
    {
        if e == p {
            break;
        }
        let c = path.get_char(e - 1);
        if c == '/' || (windows && c == '\\') {
            e = e - 1;
        } else if c == '.' && (e == p + 1 || path.get_char(e - 2) == '/' || (windows && path.get_char(e - 2)
            == '\\')) {
            e = e - 1;
        } else {
            break;
        }
    }
    let mut b: usize = e;
    while b > p && !(path.get_char(b - 1) == '/' || (windows && path.get_char(b - 1) == '\\'))
        invariant
            p <= b <= e <= n,
            n == s.len(),
            s == path@,
            windows <==> style == PathStyle::Windows,
            segment_start(style, s, p as int, e as int) == segment_start(style, s, p as int, b as int),
        decreases b,
    {
        b = b - 1;
    }
    assert(segment_start(style, s, p as int, b as int) == b);
    if e == p {
        return None;
    }
    let seg = path.substring_char(b, e);
    if str_equals(seg, "..") {
        return None;
    }
    Some(seg)
}

fn find_last_dot(f: &str) -> (r: Option<usize>)
    ensures
        match r {
            Some(d) => last_dot(f@, f@.len() as int) == d,
            None => last_dot(f@, f@.len() as int) == -1,
        },
{
    let n = f.unicode_len();
    let mut e: usize = n;
    while e > 0 && f.get_char(e - 1) != '.'
        invariant
            e <= n,
            n == f@.len(),
            last_dot(f@, n as int) == last_dot(f@, e as int),
        decreases e,
    {
        e = e - 1;
    }
    if e == 0 {
        None
    } else {
        Some(e - 1)
    }
}

/// The extension of `path`'s file name (std's `Path::extension`).
pub fn extension(path: &str, style: PathStyle) -> (r: Option<&str>)
    ensures
        match r {
            Some(x) => file_name_of(style, path@) matches Some(f) && extension_of_name(f) == Some(x@),
            None => file_name_of(style, path@) matches Some(f) ==> extension_of_name(f) is None,
        },
{
    match file_name(path, style) {
        None => None,
        Some(f) => match find_last_dot(f) {
            Some(d) => {
                if d == 0 {
                    None
                } else {
                    let n = f.unicode_len();
                    proof {
                        lemma_last_dot_bounds(f@, f@.len() as int);
                    }
                    Some(f.substring_char(d + 1, n))
                }
            },
            None => None,
        },
    }
}

/// The stem of `path`'s file name (std's `Path::file_stem`).
pub fn file_stem(path: &str, style: PathStyle) -> (r: Option<&str>)
    ensures
        match r {
            Some(x) => file_name_of(style, path@) matches Some(f) && stem_of_name(f) == x@,
            None => file_name_of(style, path@) is None,
        },
{
    match file_name(path, style) {
        None => None,
        Some(f) => match find_last_dot(f) {
            Some(d) => {
                if d == 0 {
                    Some(f)
                } else {
                    proof {
                        lemma_last_dot_bounds(f@, f@.len() as int);
                    }
                    Some(f.substring_char(0, d))
                }
            },
            None => Some(f),
        },
    }
}

} // verus!
