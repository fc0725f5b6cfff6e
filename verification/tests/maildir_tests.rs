use crabmail::maildir::{MailEntry, Maildir, MaildirError, Subfolder};

fn files(v: &[(&str, &str)]) -> Vec<(String, String)> {
    v.iter().map(|(a, b)| (a.to_string(), b.to_string())).collect()
}

#[test]
fn entries_of_new_and_cur() {
    let md = Maildir { path: "lists/dev".to_string() };
    let cur = files(&[("1.abc:2,S", "lists/dev/cur/1.abc:2,S"), (".hidden", "lists/dev/cur/.hidden"), ("junk", "lists/dev/cur/junk")]);
    let new = files(&[("2.def", "lists/dev/new/2.def")]);
    let all = md.list_all(&cur, &new);
    assert_eq!(all.entries.len(), 3);
    assert_eq!(all.entries[0].as_ref().ok().unwrap().path(), "lists/dev/cur/1.abc:2,S");
    assert!(matches!(all.entries[1], Err(MaildirError::NonMaildirFile)));
    assert_eq!(all.entries[2].as_ref().ok().unwrap().path(), "lists/dev/new/2.def");

    assert_eq!(md.list_new(&new).entries.len(), 1);
    assert_eq!(md.list_cur(&cur).entries.len(), 2);
}

#[test]
fn hidden_files_are_skipped() {
    assert!(MailEntry::from_file(".x", "p/.x", Subfolder::New).is_none());
    assert!(MailEntry::from_file(".x:2,S", "p/.x:2,S", Subfolder::Cur).is_none());
    let e = MailEntry::from_file("x", "p/x", Subfolder::New).unwrap().ok().unwrap();
    assert_eq!(e.path(), "p/x");
    assert!(matches!(MailEntry::from_file("x", "p/x", Subfolder::Cur), Some(Err(MaildirError::NonMaildirFile))));
}
