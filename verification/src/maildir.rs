//! Maildir folders: the messages in `new` and `cur`, named by their files.
use vstd::prelude::*;
use crate::text::{chars_of, occurs_at, push_str, string_of};

verus! {

/// One message file in a maildir.
pub struct MailEntry {
    id: String,
    flags: String,
    path: String,
}

impl MailEntry {
    pub closed spec fn spec_id(&self) -> Seq<char> {
        self.id@
    }

    pub closed spec fn spec_flags(&self) -> Seq<char> {
        self.flags@
    }

    pub closed spec fn spec_path(&self) -> Seq<char> {
        self.path@
    }

    pub fn path(&self) -> (r: &String)
        ensures
            r@ == self.spec_path(),
    {
        &self.path
    }
}

/// The two maildir folders that hold messages.
#[derive(Clone, Copy, PartialEq, Eq, Debug)]
pub enum Subfolder {
    New,
    Cur,
}

/// Directory name of a subfolder.
pub fn subfolder_name(sub: Subfolder) -> (r: &'static str)
    ensures
        sub == Subfolder::New ==> r@ == "new"@,
        sub == Subfolder::Cur ==> r@ == "cur"@,
{
    match sub {
        Subfolder::New => "new",
        Subfolder::Cur => "cur",
    }
}

/// A file in `cur` whose name lacks the ":2," info separator.
#[derive(Clone, Copy, PartialEq, Eq, Debug)]
pub enum MaildirError {
    NonMaildirFile,
}

/// First position at which `p` occurs in `s`.
pub open spec fn find_seq(s: Seq<char>, p: Seq<char>) -> Option<int>
    decreases s.len(),
{
    if s.len() < p.len() {
        None
    } else if s.take(p.len() as int) == p {
        Some(0)
    } else if s.len() == 0 {
        None
    } else {
        match find_seq(s.drop_first(), p) {
            Some(i) => Some(i + 1),
            None => None,
        }
    }
}

/// Marks the start of the flags in a file name in `cur`.
pub open spec fn info_separator() -> Seq<char> {
    ":2,"@
}

/// What a file in `sub` stands for: nothing for names starting with '.',
/// else an entry with the whole name as id (in `new`), or the name split at
/// the first ":2," into id and flags (in `cur`), or an error in `cur` when
/// no ":2," occurs.
pub open spec fn entry_spec(name: Seq<char>, sub: Subfolder) -> Option<
    Result<(Seq<char>, Seq<char>), MaildirError>,
> {
    if name.len() > 0 && name[0] == '.' {
        None
    } else {
        match sub {
            Subfolder::New => Some(Ok((name, Seq::empty()))),
            Subfolder::Cur => match find_seq(name, info_separator()) {
                Some(i) => Some(Ok((name.take(i), name.skip(i + 3)))),
                None => Some(Err(MaildirError::NonMaildirFile)),
            },
        }
    }
}

proof fn lemma_find_seq_skips_prefix(prefix: Seq<char>, rest: Seq<char>, p: Seq<char>)
    requires
        p.len() > 0,
        forall|i: int| 0 <= i < prefix.len() ==> #[trigger] prefix[i] != p[0],
    ensures
        find_seq(prefix + rest, p) == match find_seq(rest, p) {
            Some(j) => Some(j + prefix.len()),
            None => None::<int>,
        },
    decreases prefix.len(),
{
    if prefix.len() == 0 {
        assert(prefix + rest =~= rest);
    } else {
        let s = prefix + rest;
        lemma_find_seq_skips_prefix(prefix.drop_first(), rest, p);
        assert(s.drop_first() =~= prefix.drop_first() + rest);
        if s.len() >= p.len() {
            assert(s.take(p.len() as int)[0] == prefix[0]);
            assert(s.take(p.len() as int) != p);
        }
    }
}

/// A file name in `cur` made of an id (without ':' and not starting with
/// '.'), the ":2," separator and flags is read back as that id and those
/// flags.
pub proof fn law_cur_names_split_into_id_and_flags(id: Seq<char>, flags: Seq<char>)
    requires
        forall|i: int| 0 <= i < id.len() ==> #[trigger] id[i] != ':',
        !(id.len() > 0 && id[0] == '.'),
    ensures
        entry_spec(id + info_separator() + flags, Subfolder::Cur) == Some(
            Ok::<(Seq<char>, Seq<char>), MaildirError>((id, flags)),
        ),
{
    reveal_strlit(":2,");
    let sep = info_separator();
    let name = id + sep + flags;
    let rest = sep + flags;
    assert(name =~= id + rest);
    assert(rest.take(3) =~= sep);
    assert(find_seq(rest, sep) == Some(0int));
    lemma_find_seq_skips_prefix(id, rest, sep);
    assert(name.take(id.len() as int) =~= id);
    assert(name.skip(id.len() + 3int) =~= flags);
    if id.len() == 0 {
        assert(name[0] == ':');
    } else {
        assert(name[0] == id[0]);
    }
}

/// Whether `entry` stands for the outcome `spec` of one file at `path`.
pub open spec fn entry_matches(
    entry: Result<MailEntry, MaildirError>,
    spec: Result<(Seq<char>, Seq<char>), MaildirError>,
    path: Seq<char>,
) -> bool {
    match (entry, spec) {
        (Ok(e), Ok((id, flags))) => e.spec_id() == id && e.spec_flags() == flags && e.spec_path() == path,
        (Err(a), Err(b)) => a == b,
        _ => false,
    }
}

fn find_info(v: &Vec<char>) -> (r: Option<usize>)
    ensures
        r matches Some(i) ==> find_seq(v@, info_separator()) == Some(i as int) && i + 3 <= v@.len(),
        r is None ==> find_seq(v@, info_separator()) is None,
{
    let sep = chars_of(":2,");
    proof {
        reveal_strlit(":2,");
    }
    let mut i: usize = 0;
    assert(v@.skip(0) =~= v@);
    while i < v.len()
        invariant
            sep@ == info_separator(),
            sep@.len() == 3,
            i <= v@.len(),
            find_seq(v@, sep@) == (match find_seq(v@.skip(i as int), sep@) {
                Some(j) => Some(j + i),
                None => None::<int>,
            }),
        decreases v@.len() - i,
    {
        let ghost rest = v@.skip(i as int);
        if occurs_at(v, &sep, i) {
            assert(rest.take(3) =~= v@.subrange(i as int, i + 3));
            return Some(i);
        }
        proof {
            if rest.len() >= 3 {
                assert(rest.take(3) =~= v@.subrange(i as int, i + 3));
            }
            assert(rest.drop_first() =~= v@.skip(i + 1));
        }
        i = i + 1;
    }
    assert(v@.skip(i as int).len() == 0);
    None
}

impl MailEntry {
    /// The entry for a file called `name` at `path` in subfolder `sub`, or
    /// `None` for a hidden file.
    pub fn from_file(name: &str, path: &str, sub: Subfolder) -> (r: Option<
        Result<MailEntry, MaildirError>,
    >)
        ensures
            match (r, entry_spec(name@, sub)) {
                (None, None) => true,
                (Some(e), Some(s)) => entry_matches(e, s, path@),
                _ => false,
            },
    {
        let v = chars_of(name);
        if v.len() > 0 && v[0] == '.' {
            return None;
        }
        let mut p = String::new();
        push_str(&mut p, path);
        assert(p@ =~= path@);
        match sub {
            Subfolder::New => {
                let mut id = String::new();
                push_str(&mut id, name);
                assert(id@ =~= name@);
                Some(Ok(MailEntry { id, flags: String::new(), path: p }))
            },
            Subfolder::Cur => match find_info(&v) {
                Some(i) => {
                    let id = string_of(&v, 0, i);
                    let flags = string_of(&v, i + 3, v.len());
                    assert(flags@ =~= name@.skip(i + 3));
                    Some(Ok(MailEntry { id, flags, path: p }))
                },
                None => Some(Err(MaildirError::NonMaildirFile)),
            },
        }
    }
}

/// The entries of one or two listings, in order.
pub struct MailEntries {
    pub entries: Vec<Result<MailEntry, MaildirError>>,
}

/// The entries that the files `files` (name, path) of subfolder `sub` stand
/// for, hidden files left out.
pub open spec fn listing_matches(
    entries: Seq<Result<MailEntry, MaildirError>>,
    files: Seq<(Seq<char>, Seq<char>)>,
    sub: Subfolder,
) -> bool
    decreases files.len(),
{
    if files.len() == 0 {
        entries.len() == 0
    } else {
        let (name, path) = files.last();
        match entry_spec(name, sub) {
            None => listing_matches(entries, files.drop_last(), sub),
            Some(s) => entries.len() > 0 && entry_matches(entries.last(), s, path)
                && listing_matches(entries.drop_last(), files.drop_last(), sub),
        }
    }
}

pub open spec fn files_view(files: Seq<(String, String)>) -> Seq<(Seq<char>, Seq<char>)> {
    files.map_values(|f: (String, String)| (f.0@, f.1@))
}

/// The root of a maildir (the folder holding `cur`, `new` and `tmp`).
pub struct Maildir {
    pub path: String,
}

impl Maildir {
    fn list(&self, files: &Vec<(String, String)>, sub: Subfolder) -> (r: MailEntries)
        ensures
            listing_matches(r.entries@, files_view(files@), sub),
    {
        let mut entries: Vec<Result<MailEntry, MaildirError>> = Vec::new();
        let mut i: usize = 0;
        let ghost fv = files_view(files@);
        assert(fv.take(0) =~= Seq::<(Seq<char>, Seq<char>)>::empty());
        while i < files.len()
            invariant
                fv == files_view(files@),
                i <= files@.len(),
                listing_matches(entries@, fv.take(i as int), sub),
            decreases files@.len() - i,
        {
            let ghost prev = entries@;
            assert(fv.take(i + 1).drop_last() =~= fv.take(i as int));
            match MailEntry::from_file(files[i].0.as_str(), files[i].1.as_str(), sub) {
                Some(e) => {
                    entries.push(e);
                    assert(entries@.drop_last() =~= prev);
                },
                None => {},
            }
            i = i + 1;
        }
        assert(fv.take(files@.len() as int) =~= fv);
        MailEntries { entries }
    }

    /// The messages in `new`, given the (name, path) of each file there.
    pub fn list_new(&self, files: &Vec<(String, String)>) -> (r: MailEntries)
        ensures
            listing_matches(r.entries@, files_view(files@), Subfolder::New),
    {
        self.list(files, Subfolder::New)
    }

    /// The messages in `cur`, given the (name, path) of each file there.
    pub fn list_cur(&self, files: &Vec<(String, String)>) -> (r: MailEntries)
        ensures
            listing_matches(r.entries@, files_view(files@), Subfolder::Cur),
    {
        self.list(files, Subfolder::Cur)
    }

    /// The messages in `cur` followed by those in `new`.
    pub fn list_all(&self, cur: &Vec<(String, String)>, new: &Vec<(String, String)>) -> (r: MailEntries)
        ensures
            exists|k: int|
                #![trigger r.entries@.take(k)]
                0 <= k <= r.entries@.len() && listing_matches(r.entries@.take(k), files_view(cur@), Subfolder::Cur)
                    && listing_matches(r.entries@.skip(k), files_view(new@), Subfolder::New),
    {
        let c = self.list_cur(cur);
        let n = self.list_new(new);
        let ghost cv = c.entries@;
        let ghost nv = n.entries@;
        let mut all = c.entries;
        let mut rest = n.entries;
        all.append(&mut rest);
        assert(all@.take(cv.len() as int) =~= cv);
        assert(all@.skip(cv.len() as int) =~= nv);
        assert(listing_matches(all@.take(cv.len() as int), files_view(cur@), Subfolder::Cur));
        assert(listing_matches(all@.skip(cv.len() as int), files_view(new@), Subfolder::New));
        let r = MailEntries { entries: all };
        assert(r.entries@.take(cv.len() as int) =~= cv);
        r
    }
}

} // verus!
