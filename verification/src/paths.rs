//! Where the archive's files go: paths joined as `PathBuf::join` joins
//! them, and the names of the files of a list and of a thread.
use vstd::prelude::*;
use crate::text::{decimal_digits, push_decimal, push_str};

verus! {

/// `dir` joined with `name` as `PathBuf::push` does it on Unix: an
/// absolute `name` replaces `dir`; otherwise a '/' goes between them
/// unless `dir` is empty or already ends with one.
pub open spec fn joined_path(dir: Seq<char>, name: Seq<char>) -> Seq<char> {
    if name.len() > 0 && name[0] == '/' {
        name
    } else if dir.len() == 0 || dir.last() == '/' {
        dir + name
    } else {
        dir + "/"@ + name
    }
}

/// `dir` joined with `name`.
pub fn path_join(dir: &str, name: &str) -> (r: String)
    ensures
        r@ == joined_path(dir@, name@),
{
    let mut out = String::new();
    let name_len = name.unicode_len();
    if name_len > 0 && name.get_char(0) == '/' {
        push_str(&mut out, name);
        assert(out@ =~= name@);
        return out;
    }
    push_str(&mut out, dir);
    let dir_len = dir.unicode_len();
    if dir_len > 0 && dir.get_char(dir_len - 1) != '/' {
        push_str(&mut out, "/");
        proof {
            reveal_strlit("/");
        }
    }
    push_str(&mut out, name);
    proof {
        reveal_strlit("/");
        assert(dir_len > 0 ==> dir@.last() == dir@[dir_len - 1]);
        assert(out@ =~= joined_path(dir@, name@));
    }
    out
}

/// `path` with ".`ext`" appended.
pub fn append_ext(ext: &str, path: &str) -> (r: String)
    ensures
        r@ == path@ + "."@ + ext@,
{
    let mut out = String::new();
    push_str(&mut out, path);
    push_str(&mut out, ".");
    push_str(&mut out, ext);
    proof {
        reveal_strlit(".");
        assert(out@ =~= path@ + "."@ + ext@);
    }
    out
}

/// The file name of page `n` of a list: "index", then "index-2",
/// "index-3", ...
pub open spec fn index_name(n: nat) -> Seq<char> {
    if n == 0 {
        "index"@
    } else {
        "index-"@ + decimal_digits(n + 1)
    }
}

/// The file name of page `n` of a list, with the extension `ext`.
pub fn index_file(n: u64, ext: &str) -> (r: String)
    requires
        n < u64::MAX,
    ensures
        r@ == index_name(n as nat) + "."@ + ext@,
{
    let mut out = String::new();
    if n == 0 {
        push_str(&mut out, "index");
    } else {
        push_str(&mut out, "index-");
        push_decimal(&mut out, n + 1);
    }
    push_str(&mut out, ".");
    push_str(&mut out, ext);
    proof {
        reveal_strlit("index");
        reveal_strlit("index-");
        reveal_strlit(".");
        assert(out@ =~= index_name(n as nat) + "."@ + ext@);
    }
    out
}

/// Whether a directory of the maildir root holds a list: hidden
/// directories and the maildir's own "cur", "new" and "tmp" do not.
pub open spec fn is_list_dir_name(name: Seq<char>) -> bool {
    !(name.len() > 0 && name[0] == '.') && name != "cur"@ && name != "new"@ && name != "tmp"@
}

/// Whether the directory `name` of the maildir root holds a list.
pub fn is_list_dir(name: &str) -> (r: bool)
    ensures
        r == is_list_dir_name(name@),
{
    let n = name.unicode_len();
    if n > 0 && name.get_char(0) == '.' {
        return false;
    }
    !(crate::text::str_eq(name, "cur") || crate::text::str_eq(name, "new")
        || crate::text::str_eq(name, "tmp"))
}

} // verus!
