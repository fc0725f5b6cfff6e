//! Command-line arguments: flags `-c CONFIG`, `-d OUT_DIR`, `-g`, `-h`
//! (several may share one dash) and positional arguments.
use vstd::prelude::*;
use crate::text::{chars_of, push_str, string_of};

verus! {

pub struct Args {
    pub config: String,
    pub out_dir: String,
    pub positional: Vec<String>,
    /// Unused.
    pub a: i32,
    pub include_gemini: bool,
    pub include_html: bool,
    pub no_index: bool,
}

pub struct ArgsView {
    pub config: Seq<char>,
    pub out_dir: Seq<char>,
    pub positional: Seq<Seq<char>>,
    pub a: i32,
    pub include_gemini: bool,
    pub include_html: bool,
    pub no_index: bool,
}

impl View for Args {
    type V = ArgsView;

    open spec fn view(&self) -> ArgsView {
        ArgsView {
            config: self.config@,
            out_dir: self.out_dir@,
            positional: self.positional@.map_values(|s: String| s@),
            a: self.a,
            include_gemini: self.include_gemini,
            include_html: self.include_html,
            no_index: self.no_index,
        }
    }
}

/// The command line is not understood: the usage text is due.
pub enum ArgError {
    Usage,
}

/// The arguments before any is read: config "crabmail.conf", output
/// directory "site", nothing else set.
pub open spec fn default_args() -> ArgsView {
    ArgsView {
        config: "crabmail.conf"@,
        out_dir: "site"@,
        positional: Seq::empty(),
        a: 0,
        include_gemini: false,
        include_html: false,
        no_index: false,
    }
}

/// The state after the flag letters `flags` of one argument, with `rest`
/// the arguments that follow it: `c` and `d` each take the next argument
/// as their value; `None` on an unknown letter or a missing value.
pub open spec fn apply_flags(st: ArgsView, flags: Seq<char>, rest: Seq<Seq<char>>) -> Option<
    (ArgsView, Seq<Seq<char>>),
>
    decreases flags.len(),
{
    if flags.len() == 0 {
        Some((st, rest))
    } else {
        let c = flags[0];
        if c == 'c' {
            if rest.len() == 0 {
                None
            } else {
                apply_flags(ArgsView { config: rest[0], ..st }, flags.drop_first(), rest.drop_first())
            }
        } else if c == 'd' {
            if rest.len() == 0 {
                None
            } else {
                apply_flags(ArgsView { out_dir: rest[0], ..st }, flags.drop_first(), rest.drop_first())
            }
        } else if c == 'g' {
            apply_flags(ArgsView { include_gemini: true, ..st }, flags.drop_first(), rest)
        } else if c == 'h' {
            apply_flags(ArgsView { include_html: true, ..st }, flags.drop_first(), rest)
        } else {
            None
        }
    }
}

pub proof fn lemma_apply_flags_rest(st: ArgsView, flags: Seq<char>, rest: Seq<Seq<char>>)
    ensures
        apply_flags(st, flags, rest) matches Some(p) ==> p.1.len() <= rest.len(),
    decreases flags.len(),
{
    if flags.len() > 0 {
        let c = flags[0];
        if c == 'c' {
            if rest.len() > 0 {
                lemma_apply_flags_rest(ArgsView { config: rest[0], ..st }, flags.drop_first(), rest.drop_first());
            }
        } else if c == 'd' {
            if rest.len() > 0 {
                lemma_apply_flags_rest(ArgsView { out_dir: rest[0], ..st }, flags.drop_first(), rest.drop_first());
            }
        } else if c == 'g' {
            lemma_apply_flags_rest(ArgsView { include_gemini: true, ..st }, flags.drop_first(), rest);
        } else if c == 'h' {
            lemma_apply_flags_rest(ArgsView { include_html: true, ..st }, flags.drop_first(), rest);
        }
    }
}

/// The state after the arguments `args`: one that does not start with '-'
/// is positional, the letters after the '-' of another are flags.
pub open spec fn parse_from(st: ArgsView, args: Seq<Seq<char>>) -> Option<ArgsView>
    decreases args.len(),
{
    if args.len() == 0 {
        Some(st)
    } else {
        let a = args[0];
        if a.len() == 0 || a[0] != '-' {
            parse_from(ArgsView { positional: st.positional.push(a), ..st }, args.drop_first())
        } else {
            proof {
                lemma_apply_flags_rest(st, a.drop_first(), args.drop_first());
            }
            match apply_flags(st, a.drop_first(), args.drop_first()) {
                Some(p) => parse_from(p.0, p.1),
                None => None,
            }
        }
    }
}

/// The arguments the command line `args` (program name excluded) gives;
/// `None` when it is not understood or names no maildir.
pub open spec fn parsed_args(args: Seq<Seq<char>>) -> Option<ArgsView> {
    match parse_from(default_args(), args) {
        Some(st) => if st.positional.len() >= 1 {
            Some(st)
        } else {
            None
        },
        None => None,
    }
}

fn string_from(s: &str) -> (r: String)
    ensures
        r@ == s@,
{
    let mut out = String::new();
    push_str(&mut out, s);
    assert(out@ =~= s@);
    out
}

impl Args {
    /// The arguments before any is read.
    pub fn default() -> (r: Args)
        ensures
            r@ == default_args(),
    {
        let r = Args {
            config: string_from("crabmail.conf"),
            out_dir: string_from("site"),
            positional: Vec::new(),
            a: 0,
            include_gemini: false,
            include_html: false,
            no_index: false,
        };
        assert(r@.positional =~= Seq::<Seq<char>>::empty());
        r
    }

    /// Reads the command line `args`, the program name excluded.
    pub fn parse(args: &Vec<String>) -> (r: Result<Args, ArgError>)
        ensures
            match r {
                Ok(a) => parsed_args(args@.map_values(|s: String| s@)) == Some(a@),
                Err(_) => parsed_args(args@.map_values(|s: String| s@)) is None,
            },
    {
        let ghost av = args@.map_values(|s: String| s@);
        let mut out = Args::default();
        let mut i: usize = 0;
        assert(av.skip(0) =~= av);
        while i < args.len()
            invariant
                av == args@.map_values(|s: String| s@),
                i <= av.len(),
                parse_from(default_args(), av) == parse_from(out@, av.skip(i as int)),
            decreases av.len() - i,
        {
            let chars = chars_of(args[i].as_str());
            let ghost a = av[i as int];
            assert(chars@ == a);
            assert(av.skip(i as int)[0] == a);
            assert(av.skip(i as int).drop_first() =~= av.skip(i + 1));
            if chars.len() == 0 || chars[0] != '-' {
                let ghost before = out@.positional;
                out.positional.push(args[i].clone());
                assert(out@.positional =~= before.push(a));
                i = i + 1;
            } else {
                let mut k: usize = 1;
                i = i + 1;
                let ghost i_start = i;
                assert(a.skip(1) =~= a.drop_first());
                while k < chars.len()
                    invariant
                        chars@ == a,
                        a.len() > 0,
                        1 <= k <= a.len(),
                        i_start <= i <= av.len(),
                        av == args@.map_values(|s: String| s@),
                        parse_from(default_args(), av) == match apply_flags(
                            out@,
                            a.skip(k as int),
                            av.skip(i as int),
                        ) {
                            Some(p) => parse_from(p.0, p.1),
                            None => None,
                        },
                    decreases a.len() - k,
                {
                    let c = chars[k];
                    assert(a.skip(k as int)[0] == c);
                    assert(a.skip(k as int).drop_first() =~= a.skip(k + 1));
                    if c == 'c' || c == 'd' {
                        if i >= args.len() {
                            assert(av.skip(i as int).len() == 0);
                            return Err(ArgError::Usage);
                        }
                        assert(av.skip(i as int)[0] == av[i as int]);
                        assert(av.skip(i as int).drop_first() =~= av.skip(i + 1));
                        if c == 'c' {
                            out.config = args[i].clone();
                        } else {
                            out.out_dir = args[i].clone();
                        }
                        i = i + 1;
                    } else if c == 'g' {
                        out.include_gemini = true;
                    } else if c == 'h' {
                        out.include_html = true;
                    } else {
                        return Err(ArgError::Usage);
                    }
                    k = k + 1;
                }
                assert(a.skip(k as int) =~= Seq::<char>::empty());
            }
        }
        assert(av.skip(i as int) =~= Seq::<Seq<char>>::empty());
        if out.positional.len() < 1 {
            return Err(ArgError::Usage);
        }
        Ok(out)
    }
}

} // verus!
