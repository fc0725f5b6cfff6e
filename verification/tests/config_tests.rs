use crabmail::arg::{ArgError, Args};
use crabmail::config::{Config, Subsection};
use crabmail::paths::{append_ext, index_file, is_list_dir, path_join};

const CONF: &str = "email_fmt=%s@lists.example.com\nbase_url=https://lists.example.com\n\n[dev]\ntitle=Developers\ndescription=Talk about code\n[announce]\nemail=news@example.com\n";

#[test]
fn config_reads_globals_and_sections() {
    let c = Config::parse(CONF);
    assert_eq!(c.email_fmt, "%s@lists.example.com");
    assert_eq!(c.base_url, "https://lists.example.com");
    assert_eq!(c.subsections.len(), 2);
    let dev = &c.subsections[0];
    assert_eq!(dev.name, "dev");
    assert_eq!(dev.title, "Developers");
    assert_eq!(dev.email, "dev@lists.example.com");
    assert_eq!(dev.description, "Talk about code");
    let ann = &c.subsections[1];
    assert_eq!(ann.name, "announce");
    assert_eq!(ann.title, "announce mailing list");
    assert_eq!(ann.email, "news@example.com");
    assert_eq!(ann.description, "");
}

#[test]
fn config_section_keys_also_reach_the_globals() {
    // a key=value line sets the global field too, even inside a section
    let c = Config::parse("[a]\nbase_url=x\n");
    assert_eq!(c.base_url, "x");
    assert_eq!(c.subsections.len(), 1);
}

#[test]
fn config_crlf_and_unknown_keys() {
    let c = Config::parse("base_url=u\r\nfoo=bar\r\nnot a pair\r\n");
    assert_eq!(c.base_url, "u");
    assert_eq!(c.email_fmt, "");
    assert!(c.subsections.is_empty());
}

#[test]
fn config_value_keeps_later_equals_signs() {
    let c = Config::parse("base_url=a=b\n");
    assert_eq!(c.base_url, "a=b");
}

#[test]
fn default_subsection_fills_in_the_name() {
    let c = Config::parse("email_fmt=%s+list@x.org and %s\n");
    let s: Subsection = c.default_subsection("misc");
    assert_eq!(s.name, "misc");
    assert_eq!(s.title, "misc mailing list");
    assert_eq!(s.email, "misc+list@x.org and misc");
    assert_eq!(s.description, "");
}

#[test]
fn get_subsection_finds_the_first() {
    let c = Config::parse("[a]\ntitle=one\n[a]\ntitle=two\n");
    assert_eq!(c.get_subsection("a").unwrap().title, "one");
    assert!(c.get_subsection("b").is_none());
}

#[test]
fn match_kv_sets_known_keys() {
    let mut c = Config::empty();
    c.match_kv("email_fmt", "e");
    c.match_kv("base_url", "b");
    c.match_kv("title", "ignored");
    assert_eq!(c.email_fmt, "e");
    assert_eq!(c.base_url, "b");
    let mut s = c.default_subsection("x");
    s.match_kv("title", "T");
    s.match_kv("email", "E");
    s.match_kv("description", "D");
    s.match_kv("base_url", "ignored");
    assert_eq!((s.title.as_str(), s.email.as_str(), s.description.as_str()), ("T", "E", "D"));
}

#[test]
fn outputs_default_to_both() {
    let mut c = Config::empty();
    c.select_outputs(false, false);
    assert!(c.include_gemini && c.include_html);
    c.select_outputs(true, false);
    assert!(c.include_gemini && !c.include_html);
    c.select_outputs(false, true);
    assert!(!c.include_gemini && c.include_html);
}

fn strings(v: &[&str]) -> Vec<String> {
    v.iter().map(|s| s.to_string()).collect()
}

#[test]
fn args_defaults_and_flags() {
    let a = Args::parse(&strings(&["lists"])).ok().unwrap();
    assert_eq!(a.config, "crabmail.conf");
    assert_eq!(a.out_dir, "site");
    assert_eq!(a.positional, vec!["lists".to_string()]);
    assert!(!a.include_gemini && !a.include_html);

    let b = Args::parse(&strings(&["-gh", "-c", "my.conf", "lists", "-d", "out"])).ok().unwrap();
    assert!(b.include_gemini && b.include_html);
    assert_eq!(b.config, "my.conf");
    assert_eq!(b.out_dir, "out");
    assert_eq!(b.positional, vec!["lists".to_string()]);

    // one dash may carry letters that take values, in order
    let c = Args::parse(&strings(&["-cd", "a.conf", "dir", "m"])).ok().unwrap();
    assert_eq!((c.config.as_str(), c.out_dir.as_str()), ("a.conf", "dir"));
}

#[test]
fn args_errors() {
    assert!(matches!(Args::parse(&strings(&[])), Err(ArgError::Usage)));
    assert!(matches!(Args::parse(&strings(&["-g"])), Err(ArgError::Usage)));
    assert!(matches!(Args::parse(&strings(&["-x", "m"])), Err(ArgError::Usage)));
    assert!(matches!(Args::parse(&strings(&["m", "-c"])), Err(ArgError::Usage)));
    let d = Args::default();
    assert_eq!(d.config, "crabmail.conf");
}

#[test]
fn paths_join_like_pathbuf() {
    assert_eq!(path_join("site", "dev"), "site/dev");
    assert_eq!(path_join("site/", "dev"), "site/dev");
    assert_eq!(path_join("", "dev"), "dev");
    assert_eq!(path_join("site", "/abs"), "/abs");
    assert_eq!(append_ext("html", "site/threads/abc"), "site/threads/abc.html");
    assert_eq!(index_file(0, "gmi"), "index.gmi");
    assert_eq!(index_file(1, "html"), "index-2.html");
    assert_eq!(index_file(9, "html"), "index-10.html");
}

#[test]
fn list_directories() {
    assert!(is_list_dir("dev"));
    assert!(!is_list_dir(".git"));
    assert!(!is_list_dir("cur"));
    assert!(!is_list_dir("new"));
    assert!(!is_list_dir("tmp"));
    assert!(is_list_dir("current"));
}
