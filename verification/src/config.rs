//! Ini-like configuration: global `key=value` lines first, then one
//! `[section]` per list, each followed by its own `key=value` lines.
use vstd::prelude::*;
use crate::text::{chars_of, push_chars, push_replaced, push_str, replace_all, str_eq, string_of};
use crate::util::{lines_of, text_lines};

verus! {

/// Settings of one mailing list.
pub struct Subsection {
    pub name: String,
    pub title: String,
    pub email: String,
    pub description: String,
}

pub struct SubsectionView {
    pub name: Seq<char>,
    pub title: Seq<char>,
    pub email: Seq<char>,
    pub description: Seq<char>,
}

impl View for Subsection {
    type V = SubsectionView;

    open spec fn view(&self) -> SubsectionView {
        SubsectionView {
            name: self.name@,
            title: self.title@,
            email: self.email@,
            description: self.description@,
        }
    }
}

impl SubsectionView {
    /// The section after a `key=value` line: `title`, `email` and
    /// `description` are set, other keys leave it as it was.
    pub open spec fn with_kv(self, key: Seq<char>, value: Seq<char>) -> SubsectionView {
        if key == "title"@ {
            SubsectionView { title: value, ..self }
        } else if key == "email"@ {
            SubsectionView { email: value, ..self }
        } else if key == "description"@ {
            SubsectionView { description: value, ..self }
        } else {
            self
        }
    }
}

impl Subsection {
    pub fn match_kv(&mut self, key: &str, value: &str)
        ensures
            final(self)@ == old(self)@.with_kv(key@, value@),
    {
        if str_eq(key, "title") {
            self.title = string_from(value);
        } else if str_eq(key, "email") {
            self.email = string_from(value);
        } else if str_eq(key, "description") {
            self.description = string_from(value);
        }
    }

    pub fn clone_section(&self) -> (r: Subsection)
        ensures
            r@ == self@,
    {
        Subsection {
            name: self.name.clone(),
            title: self.title.clone(),
            email: self.email.clone(),
            description: self.description.clone(),
        }
    }
}

fn string_from(s: &str) -> (r: String)
    ensures
        r@ == s@,
{
    let mut out = String::new();
    push_str(&mut out, s);
    assert(out@ =~= s@);
    out
}

/// The whole configuration.
pub struct Config {
    /// Address pattern of a list; "%s" stands for the list's name.
    pub email_fmt: String,
    pub base_url: String,
    pub out_dir: String,
    pub relative_times: bool,
    pub include_raw: bool,
    pub include_gemini: bool,
    pub include_html: bool,
    pub now: String,
    pub subsections: Vec<Subsection>,
}

pub struct ConfigView {
    pub email_fmt: Seq<char>,
    pub base_url: Seq<char>,
    pub out_dir: Seq<char>,
    pub relative_times: bool,
    pub include_raw: bool,
    pub include_gemini: bool,
    pub include_html: bool,
    pub now: Seq<char>,
    pub subsections: Seq<SubsectionView>,
}

impl View for Config {
    type V = ConfigView;

    open spec fn view(&self) -> ConfigView {
        ConfigView {
            email_fmt: self.email_fmt@,
            base_url: self.base_url@,
            out_dir: self.out_dir@,
            relative_times: self.relative_times,
            include_raw: self.include_raw,
            include_gemini: self.include_gemini,
            include_html: self.include_html,
            now: self.now@,
            subsections: self.subsections@.map_values(|s: Subsection| s@),
        }
    }
}

/// The configuration before any line is read: every text empty, every flag
/// off, no sections.
pub open spec fn empty_config() -> ConfigView {
    ConfigView {
        email_fmt: Seq::empty(),
        base_url: Seq::empty(),
        out_dir: Seq::empty(),
        relative_times: false,
        include_raw: false,
        include_gemini: false,
        include_html: false,
        now: Seq::empty(),
        subsections: Seq::empty(),
    }
}

impl ConfigView {
    /// The configuration after a `key=value` line: `email_fmt` and
    /// `base_url` are set, other keys leave it as it was.
    pub open spec fn with_kv(self, key: Seq<char>, value: Seq<char>) -> ConfigView {
        if key == "email_fmt"@ {
            ConfigView { email_fmt: value, ..self }
        } else if key == "base_url"@ {
            ConfigView { base_url: value, ..self }
        } else {
            self
        }
    }

    /// The settings of a list that has no section of its own.
    pub open spec fn default_subsection(self, name: Seq<char>) -> SubsectionView {
        SubsectionView {
            name: name,
            title: name + " mailing list"@,
            email: replace_all(self.email_fmt, "%s"@, name),
            description: Seq::empty(),
        }
    }

    pub open spec fn push_section(self, s: SubsectionView) -> ConfigView {
        ConfigView { subsections: self.subsections.push(s), ..self }
    }
}

/// The first of `sections` named `name`.
pub open spec fn section_named(sections: Seq<SubsectionView>, name: Seq<char>) -> Option<SubsectionView>
    decreases sections.len(),
{
    if sections.len() == 0 {
        None
    } else if sections[0].name == name {
        Some(sections[0])
    } else {
        section_named(sections.drop_first(), name)
    }
}

/// The settings of the list `name`: its own section, else the defaults.
pub open spec fn list_settings(conf: ConfigView, name: Seq<char>) -> SubsectionView {
    match section_named(conf.subsections, name) {
        Some(s) => s,
        None => conf.default_subsection(name),
    }
}

/// Whether `line` opens a section: "[name]".
pub open spec fn is_section_header(line: Seq<char>) -> bool {
    line.len() >= 2 && line[0] == '[' && line.last() == ']'
}

/// Position of the first `c` in `s`.
pub open spec fn index_of(s: Seq<char>, c: char) -> Option<int>
    decreases s.len(),
{
    if s.len() == 0 {
        None
    } else if s[0] == c {
        Some(0)
    } else {
        match index_of(s.drop_first(), c) {
            Some(i) => Some(i + 1),
            None => None,
        }
    }
}

/// The configuration and the open section after one more line.
pub open spec fn config_step(conf: ConfigView, cur: Option<SubsectionView>, line: Seq<char>) -> (
    ConfigView,
    Option<SubsectionView>,
) {
    let (conf, cur) = if is_section_header(line) {
        let name = line.subrange(1, line.len() - 1);
        let pushed = match cur {
            Some(s) => conf.push_section(s),
            None => conf,
        };
        (pushed, Some(conf.default_subsection(name)))
    } else {
        (conf, cur)
    };
    match index_of(line, '=') {
        Some(i) => {
            let key = line.take(i);
            let value = line.skip(i + 1);
            (
                conf.with_kv(key, value),
                match cur {
                    Some(s) => Some(s.with_kv(key, value)),
                    None => None,
                },
            )
        },
        None => (conf, cur),
    }
}

/// The configuration and the open section after the given lines.
pub open spec fn config_after_lines(lines: Seq<Seq<char>>) -> (ConfigView, Option<SubsectionView>)
    decreases lines.len(),
{
    if lines.len() == 0 {
        (empty_config(), None)
    } else {
        let (conf, cur) = config_after_lines(lines.drop_last());
        config_step(conf, cur, lines.last())
    }
}

/// The configuration that `text` states.
pub open spec fn parsed_config(text: Seq<char>) -> ConfigView {
    let (conf, cur) = config_after_lines(text_lines(text));
    match cur {
        Some(s) => conf.push_section(s),
        None => conf,
    }
}

/// The names in the section headers among `lines`, in order.
pub open spec fn section_names(lines: Seq<Seq<char>>) -> Seq<Seq<char>>
    decreases lines.len(),
{
    if lines.len() == 0 {
        Seq::empty()
    } else {
        let l = lines.last();
        section_names(lines.drop_last()) + if is_section_header(l) {
            seq![l.subrange(1, l.len() - 1)]
        } else {
            Seq::empty()
        }
    }
}

pub open spec fn names_of(sections: Seq<SubsectionView>) -> Seq<Seq<char>> {
    sections.map_values(|s: SubsectionView| s.name)
}

pub open spec fn open_name(cur: Option<SubsectionView>) -> Seq<Seq<char>> {
    match cur {
        Some(s) => seq![s.name],
        None => Seq::empty(),
    }
}

proof fn lemma_sections_follow_headers(lines: Seq<Seq<char>>)
    ensures
        ({
            let (conf, cur) = config_after_lines(lines);
            names_of(conf.subsections) + open_name(cur) == section_names(lines)
        }),
    decreases lines.len(),
{
    if lines.len() > 0 {
        lemma_sections_follow_headers(lines.drop_last());
        let (conf, cur) = config_after_lines(lines.drop_last());
        let l = lines.last();
        if is_section_header(l) {
            match cur {
                Some(s) => {
                    assert(names_of(conf.push_section(s).subsections) =~= names_of(conf.subsections).push(s.name));
                },
                None => {},
            }
        }
        let (conf2, cur2) = config_after_lines(lines);
        assert(names_of(conf2.subsections) + open_name(cur2) =~= section_names(lines));
    } else {
        assert(names_of(Seq::<SubsectionView>::empty()) =~= Seq::<Seq<char>>::empty());
    }
}

/// A configuration has one section per section header, in the order of
/// the headers, each named as its header says.
pub proof fn law_one_section_per_header(text: Seq<char>)
    ensures
        names_of(parsed_config(text).subsections) == section_names(text_lines(text)),
{
    let lines = text_lines(text);
    lemma_sections_follow_headers(lines);
    let (conf, cur) = config_after_lines(lines);
    match cur {
        Some(s) => {
            assert(names_of(conf.push_section(s).subsections) =~= names_of(conf.subsections).push(s.name));
        },
        None => {
            assert(names_of(conf.subsections) + open_name(cur) =~= names_of(conf.subsections));
        },
    }
}

/// Position of the first `c` in `v`.
fn find_char(v: &Vec<char>, c: char) -> (r: Option<usize>)
    ensures
        r matches Some(i) ==> index_of(v@, c) == Some(i as int) && i < v@.len(),
        r is None ==> index_of(v@, c) is None,
{
    let mut i: usize = 0;
    while i < v.len()
        invariant
            i <= v@.len(),
            forall|j: int| 0 <= j < i ==> v@[j] != c,
        decreases v@.len() - i,
    {
        if v[i] == c {
            proof {
                lemma_index_of_first(v@, c, i as int);
            }
            return Some(i);
        }
        i = i + 1;
    }
    proof {
        lemma_index_of_none(v@, c);
    }
    None
}

proof fn lemma_index_of_first(s: Seq<char>, c: char, i: int)
    requires
        0 <= i < s.len(),
        s[i] == c,
        forall|j: int| 0 <= j < i ==> s[j] != c,
    ensures
        index_of(s, c) == Some(i),
    decreases s.len(),
{
    if i > 0 {
        lemma_index_of_first(s.drop_first(), c, i - 1);
    }
}

proof fn lemma_index_of_none(s: Seq<char>, c: char)
    requires
        forall|j: int| 0 <= j < s.len() ==> s[j] != c,
    ensures
        index_of(s, c) is None,
    decreases s.len(),
{
    if s.len() > 0 {
        lemma_index_of_none(s.drop_first(), c);
    }
}

impl Config {
    /// A configuration with every text empty, every flag off, no sections.
    pub fn empty() -> (r: Config)
        ensures
            r@ == empty_config(),
    {
        let r = Config {
            email_fmt: String::new(),
            base_url: String::new(),
            out_dir: String::new(),
            relative_times: false,
            include_raw: false,
            include_gemini: false,
            include_html: false,
            now: String::new(),
            subsections: Vec::new(),
        };
        assert(r@.subsections =~= Seq::<SubsectionView>::empty());
        r
    }

    pub fn match_kv(&mut self, key: &str, value: &str)
        ensures
            final(self)@ == old(self)@.with_kv(key@, value@),
    {
        if str_eq(key, "email_fmt") {
            self.email_fmt = string_from(value);
        } else if str_eq(key, "base_url") {
            self.base_url = string_from(value);
        }
    }

    /// The settings of a list that has no section of its own: titled
    /// "<name> mailing list", with "%s" in `email_fmt` replaced by the name.
    pub fn default_subsection(&self, name: &str) -> (r: Subsection)
        ensures
            r@ == self@.default_subsection(name@),
    {
        let mut title = String::new();
        push_str(&mut title, name);
        push_str(&mut title, " mailing list");
        let mut email = String::new();
        push_replaced(&mut email, self.email_fmt.as_str(), "%s", name);
        let r = Subsection {
            name: string_from(name),
            title: title,
            email: email,
            description: String::new(),
        };
        assert(r@.title =~= name@ + " mailing list"@);
        assert(r@.email =~= replace_all(self.email_fmt@, "%s"@, name@));
        r
    }

    /// Chooses the outputs to write as the command line asks: both Gemini
    /// and HTML when it asks for neither.
    pub fn select_outputs(&mut self, include_gemini: bool, include_html: bool)
        ensures
            final(self)@ == (ConfigView {
                include_gemini: include_gemini || !include_html,
                include_html: include_html || !include_gemini,
                ..old(self)@
            }),
    {
        if !include_gemini && !include_html {
            self.include_gemini = true;
            self.include_html = true;
        } else {
            self.include_gemini = include_gemini;
            self.include_html = include_html;
        }
    }

    /// The first section named `name`, if the configuration has one.
    pub fn get_subsection(&self, name: &str) -> (r: Option<Subsection>)
        ensures
            match r {
                Some(s) => section_named(self@.subsections, name@) == Some(s@),
                None => section_named(self@.subsections, name@) is None,
            },
    {
        let ghost subs = self@.subsections;
        let mut i: usize = 0;
        assert(subs.skip(0) =~= subs);
        while i < self.subsections.len()
            invariant
                subs == self@.subsections,
                i <= subs.len(),
                section_named(subs, name@) == section_named(subs.skip(i as int), name@),
            decreases subs.len() - i,
        {
            assert(subs.skip(i as int)[0] == subs[i as int]);
            if str_eq(self.subsections[i].name.as_str(), name) {
                let s = self.subsections[i].clone_section();
                assert(subs[i as int] == s@);
                return Some(s);
            }
            assert(subs.skip(i as int).drop_first() =~= subs.skip(i + 1));
            i = i + 1;
        }
        None
    }

    /// Reads a configuration from its text.
    pub fn parse(text: &str) -> (r: Config)
        ensures
            r@ == parsed_config(text@),
    {
        let chars = chars_of(text);
        let lines = lines_of(&chars);
        let ghost lv = lines@.map_values(|l: Vec<char>| l@);
        let mut conf = Config::empty();
        let mut current: Option<Subsection> = None;
        let mut i: usize = 0;
        assert(lv.take(0) =~= Seq::<Seq<char>>::empty());
        while i < lines.len()
            invariant
                lv == lines@.map_values(|l: Vec<char>| l@),
                lv == text_lines(text@),
                i <= lv.len(),
                config_after_lines(lv.take(i as int)) == (conf@, match current {
                    Some(s) => Some(s@),
                    None => None::<SubsectionView>,
                }),
            decreases lv.len() - i,
        {
            let line = &lines[i];
            let ghost lv_line = lv[i as int];
            assert(line@ == lv_line);
            assert(lv.take(i + 1).drop_last() =~= lv.take(i as int));
            let len = line.len();
            if len >= 2 && line[0] == '[' && line[len - 1] == ']' {
                let name = string_of(line, 1, len - 1);
                let ghost old_conf = conf@;
                match current {
                    Some(s) => {
                        let ghost sv = s@;
                        conf.subsections.push(s);
                        assert(conf@.subsections =~= old_conf.subsections.push(sv));
                        assert(conf@ == old_conf.push_section(sv));
                    },
                    None => {},
                }
                current = Some(conf.default_subsection(name.as_str()));
            }
            match find_char(line, '=') {
                Some(k) => {
                    let key = string_of(line, 0, k);
                    let value = string_of(line, k + 1, len);
                    assert(key@ =~= line@.take(k as int));
                    assert(value@ =~= line@.skip(k + 1));
                    match current {
                        Some(ref mut s) => {
                            s.match_kv(key.as_str(), value.as_str());
                        },
                        None => {},
                    }
                    conf.match_kv(key.as_str(), value.as_str());
                },
                None => {},
            }
            i = i + 1;
        }
        assert(lv.take(lv.len() as int) =~= lv);
        match current {
            Some(s) => {
                let ghost old_conf = conf@;
                let ghost sv = s@;
                conf.subsections.push(s);
                assert(conf@.subsections =~= old_conf.subsections.push(sv));
                        assert(conf@ == old_conf.push_section(sv));
            },
            None => {},
        }
        conf
    }
}

} // verus!
