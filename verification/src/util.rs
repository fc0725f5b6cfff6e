//! Text utilities: truncation, line splitting and format=flowed undoing.
use vstd::prelude::*;
use crate::text::{chars_of, push_chars, push_char, push_str};

verus! {

/// The pieces of `s` between occurrences of `sep` (what `str::split`
/// yields): one more piece than there are separators.
pub open spec fn split_on(s: Seq<char>, sep: char) -> Seq<Seq<char>>
    decreases s.len(),
{
    if s.len() == 0 {
        seq![Seq::empty()]
    } else {
        let pieces = split_on(s.drop_last(), sep);
        if s.last() == sep {
            pieces.push(Seq::empty())
        } else {
            pieces.update(pieces.len() - 1, pieces.last().push(s.last()))
        }
    }
}

pub proof fn lemma_split_on_nonempty(s: Seq<char>, sep: char)
    ensures
        split_on(s, sep).len() >= 1,
    decreases s.len(),
{
    if s.len() > 0 {
        lemma_split_on_nonempty(s.drop_last(), sep);
    }
}

/// The pieces of `v`, split at `sep`.
pub fn split_chars(v: &Vec<char>, sep: char) -> (r: Vec<Vec<char>>)
    ensures
        r@.map_values(|l: Vec<char>| l@) == split_on(v@, sep),
{
    let mut lines: Vec<Vec<char>> = Vec::new();
    lines.push(Vec::new());
    let mut i: usize = 0;
    assert(v@.take(0) =~= Seq::<char>::empty());
    assert(lines@.map_values(|l: Vec<char>| l@) =~= split_on(v@.take(0), sep));
    while i < v.len()
        invariant
            i <= v@.len(),
            lines@.map_values(|l: Vec<char>| l@) == split_on(v@.take(i as int), sep),
            lines@.len() >= 1,
        decreases v@.len() - i,
    {
        let c = v[i];
        let ghost before = lines@.map_values(|l: Vec<char>| l@);
        assert(v@.take(i + 1).drop_last() =~= v@.take(i as int));
        if c == sep {
            lines.push(Vec::new());
            assert(lines@.map_values(|l: Vec<char>| l@) =~= before.push(Seq::empty()));
        } else {
            let mut last = lines.pop().unwrap();
            last.push(c);
            lines.push(last);
            assert(lines@.map_values(|l: Vec<char>| l@) =~= before.update(before.len() - 1, before.last().push(c)));
        }
        i = i + 1;
    }
    assert(v@.take(v@.len() as int) =~= v@);
    lines
}

/// `l` without one leading space.
pub open spec fn strip_leading_space(l: Seq<char>) -> Seq<char> {
    if l.len() > 0 && l[0] == ' ' { l.drop_first() } else { l }
}

pub open spec fn ends_with_space(l: Seq<char>) -> bool {
    l.len() > 0 && l.last() == ' '
}

/// Joins format=flowed lines: each line loses one leading space (space
/// stuffing), and the line break after a line that ends in a space (a
/// flowed line) is dropped.
pub open spec fn unflow(lines: Seq<Seq<char>>) -> Seq<char>
    decreases lines.len(),
{
    if lines.len() == 0 {
        Seq::empty()
    } else {
        let prev = lines.drop_last();
        let sep = if prev.len() > 0 && !ends_with_space(strip_leading_space(prev.last())) {
            seq!['\n']
        } else {
            Seq::empty()
        };
        unflow(prev) + sep + strip_leading_space(lines.last())
    }
}

/// Undoes format=flowed (RFC 3676) on `text`.
pub open spec fn unformat_flowed_text(text: Seq<char>) -> Seq<char> {
    unflow(split_on(text, '\n'))
}

/// No line of `s` starts with a space, and no line but the last ends with
/// one: nothing in it is space-stuffed or flowed.
pub open spec fn has_no_flowed_lines(s: Seq<char>) -> bool {
    forall|i: int|
        0 <= i < s.len() && #[trigger] s[i] == ' ' ==> (i > 0 && s[i - 1] != '\n') && (i + 1
            < s.len() ==> s[i + 1] != '\n')
}

proof fn lemma_unflow_keeps_plain_text(s: Seq<char>)
    requires
        has_no_flowed_lines(s),
    ensures
        unflow(split_on(s, '\n')) == s,
        split_on(s, '\n').len() >= 1,
        split_on(s, '\n').last().len() == 0 || split_on(s, '\n').last()[0] != ' ',
        s.len() > 0 && s.last() != '\n' ==> split_on(s, '\n').last().len() > 0 && split_on(
            s,
            '\n',
        ).last().last() == s.last(),
        s.len() == 0 || s.last() == '\n' ==> split_on(s, '\n').last().len() == 0,
    decreases s.len(),
{
    if s.len() == 0 {
        let one = seq![Seq::<char>::empty()];
        assert(split_on(s, '\n') == one);
        assert(one.drop_last() =~= Seq::<Seq<char>>::empty());
        assert(strip_leading_space(Seq::<char>::empty()) =~= Seq::<char>::empty());
        assert(unflow(one) =~= unflow(Seq::<Seq<char>>::empty()) + Seq::<char>::empty());
        assert(unflow(split_on(s, '\n')) =~= s);
    } else {
        let p = s.drop_last();
        let c = s.last();
        assert forall|i: int| 0 <= i < p.len() && #[trigger] p[i] == ' ' implies (i > 0 && p[i - 1]
            != '\n') && (i + 1 < p.len() ==> p[i + 1] != '\n') by {
            assert(s[i] == ' ');
        }
        lemma_unflow_keeps_plain_text(p);
        let lp = split_on(p, '\n');
        let last = lp.last();
        if c == '\n' {
            let ls = lp.push(Seq::empty());
            assert(split_on(s, '\n') == ls);
            assert(ls.drop_last() =~= lp);
            assert(strip_leading_space(last) == last);
            if last.len() > 0 {
                assert(last.last() == p.last());
                assert(p.last() != ' ') by {
                    if p.last() == ' ' {
                        assert(s[p.len() - 1] == ' ');
                        assert(s[p.len() as int] == '\n');
                    }
                }
            }
            assert(!ends_with_space(strip_leading_space(last)));
            assert(unflow(ls) =~= unflow(lp) + seq!['\n'] + strip_leading_space(Seq::<char>::empty()));
            assert(strip_leading_space(Seq::<char>::empty()) =~= Seq::<char>::empty());
            assert(unflow(ls) =~= s);
        } else {
            let nl = last.push(c);
            let ls = lp.update(lp.len() - 1, nl);
            assert(split_on(s, '\n') == ls);
            if last.len() == 0 {
                assert(c != ' ') by {
                    if c == ' ' {
                        assert(s[s.len() - 1] == ' ');
                        if p.len() > 0 {
                            assert(p.last() == '\n');
                        }
                    }
                }
            }
            assert(strip_leading_space(nl) =~= strip_leading_space(last).push(c));
            assert(ls.drop_last() =~= lp.drop_last());
            assert(ls.last() == nl);
            assert(unflow(ls) =~= unflow(lp) + seq![c]);
            assert(unflow(ls) =~= s);
        }
    }
}

/// Text in which no line is space-stuffed or flowed (no line starts with
/// a space, none but the last ends with one) comes out of
/// `unformat_flowed` as it went in.
pub proof fn law_unformat_keeps_fixed_text(s: Seq<char>)
    requires
        has_no_flowed_lines(s),
    ensures
        unformat_flowed_text(s) == s,
{
    lemma_unflow_keeps_plain_text(s);
}

/// Splitting text that ends in `sep` and a piece without `sep` gives the
/// pieces of the text and then that piece.
proof fn lemma_split_on_append_piece(t: Seq<char>, sep: char, b: Seq<char>)
    requires
        forall|i: int| 0 <= i < b.len() ==> b[i] != sep,
    ensures
        split_on(t + seq![sep] + b, sep) == split_on(t, sep).push(b),
    decreases b.len(),
{
    if b.len() == 0 {
        assert(t + seq![sep] + b =~= t.push(sep));
        assert((t.push(sep)).drop_last() =~= t);
        assert(b =~= Seq::<char>::empty());
    } else {
        let s = t + seq![sep] + b;
        let b0 = b.drop_last();
        lemma_split_on_append_piece(t, sep, b0);
        assert(s.drop_last() =~= t + seq![sep] + b0);
        assert(s.last() == b.last());
        assert(b.last() != sep);
        let p = split_on(t, sep).push(b0);
        assert(b0.push(b.last()) =~= b);
        assert(p.last() == b0);
        assert(p.update(p.len() - 1, p.last().push(b.last())) =~= split_on(t, sep).push(b));
    }
}

/// The last piece of `t` split at '\n': what follows its last '\n'.
proof fn lemma_split_on_last_char(t: Seq<char>)
    requires
        t.len() > 0,
        t.last() != '\n',
    ensures
        split_on(t, '\n').last() == split_on(t.drop_last(), '\n').last().push(t.last()),
        t.len() >= 2 && t[t.len() - 2] != '\n' ==> split_on(t.drop_last(), '\n').last().len() > 0,
{
    lemma_split_on_nonempty(t.drop_last(), '\n');
    let d = t.drop_last();
    if d.len() >= 1 && d.last() != '\n' {
        lemma_split_on_nonempty(d.drop_last(), '\n');
    }
}

/// A flowed line (one that ends in a space) is joined to the line after
/// it: appending a line break and a line `b` to text whose last line
/// ends in a space appends just `b` (less one leading space) to what
/// `unformat_flowed` gives. After a line that does not end in a space the
/// break is kept.
pub proof fn law_flowed_lines_are_joined(t: Seq<char>, b: Seq<char>)
    requires
        forall|i: int| 0 <= i < b.len() ==> b[i] != '\n',
    ensures
        ({
            let b_text = if b.len() > 0 && b[0] == ' ' { b.drop_first() } else { b };
            &&& t.len() >= 2 && t.last() == ' ' && t[t.len() - 2] != '\n' ==> unformat_flowed_text(
                t + seq!['\n'] + b,
            ) == unformat_flowed_text(t) + b_text
            &&& t.len() >= 1 && t.last() != ' ' && t.last() != '\n' ==> unformat_flowed_text(
                t + seq!['\n'] + b,
            ) == unformat_flowed_text(t) + seq!['\n'] + b_text
        }),
{
    lemma_split_on_append_piece(t, '\n', b);
    lemma_split_on_nonempty(t, '\n');
    let ls = split_on(t, '\n');
    let all = ls.push(b);
    assert(all.drop_last() =~= ls);
    assert(all.last() == b);
    if t.len() >= 1 && t.last() != '\n' {
        lemma_split_on_last_char(t);
        let l = ls.last();
        assert(l.len() > 0 && l.last() == t.last());
        if t.len() >= 2 && t.last() == ' ' && t[t.len() - 2] != '\n' {
            assert(l.len() >= 2);
            assert(strip_leading_space(l).last() == ' ');
        }
        if t.last() != ' ' {
            assert(strip_leading_space(l).len() == 0 || strip_leading_space(l).last() == t.last());
        }
    }
}

/// A truncated text fits: unchanged when its `byte_len` bytes fit in `n`,
/// otherwise at most `n` characters long and ending in "...".
pub proof fn law_truncated_text_fits(s: Seq<char>, byte_len: nat, n: nat)
    requires
        n >= 3,
    ensures
        byte_len <= n ==> truncated_text(s, byte_len, n) == s,
        byte_len > n ==> ({
            let t = truncated_text(s, byte_len, n);
            &&& t.len() <= n
            &&& t.skip(t.len() - 3) == "..."@
            &&& t.take(t.len() - 3) == s.take(t.len() - 3)
        }),
{
    reveal_strlit("...");
    if byte_len > n {
        let t = truncated_text(s, byte_len, n);
        assert(t.skip(t.len() - 3) =~= "..."@);
        assert(t.take(t.len() - 3) =~= s.take(t.len() - 3));
    }
}

/// Undoes format=flowed: joins soft-broken lines and removes space stuffing.
pub fn unformat_flowed(text: &str) -> (r: String)
    ensures
        r@ == unformat_flowed_text(text@),
{
    let chars = chars_of(text);
    let lines = split_chars(&chars, '\n');
    let ghost dv = lines@.map_values(|l: Vec<char>| l@);
    let mut result = String::new();
    let mut skip_newline = true;
    let mut i: usize = 0;
    assert(dv.take(0) =~= Seq::<Seq<char>>::empty());
    while i < lines.len()
        invariant
            dv == lines@.map_values(|l: Vec<char>| l@),
            i <= dv.len(),
            result@ == unflow(dv.take(i as int)),
            skip_newline == (i == 0 || ends_with_space(strip_leading_space(dv[i - 1]))),
        decreases dv.len() - i,
    {
        let line = &lines[i];
        assert(line@ == dv[i as int]);
        let start: usize = if line.len() > 0 && line[0] == ' ' { 1 } else { 0 };
        let ghost stripped = line@.subrange(start as int, line@.len() as int);
        assert(stripped =~= strip_leading_space(dv[i as int]));
        if !skip_newline {
            push_char(&mut result, '\n');
        }
        push_chars(&mut result, line, start, line.len());
        skip_newline = line.len() > start && line[line.len() - 1] == ' ';
        proof {
            assert(dv.take(i + 1).drop_last() =~= dv.take(i as int));
            if i > 0 {
                assert(dv.take(i + 1).drop_last().last() == dv[i - 1]);
            }
        }
        i = i + 1;
    }
    assert(dv.take(dv.len() as int) =~= dv);
    result
}

/// `s` cut to fit `n` bytes: unchanged when its UTF-8 encoding has at most
/// `n` bytes, otherwise its first `n - 3` characters followed by "...".
pub open spec fn truncated_text(s: Seq<char>, byte_len: nat, n: nat) -> Seq<char> {
    if byte_len <= n {
        s
    } else if s.len() <= n - 3 {
        s + "..."@
    } else {
        s.take(n - 3) + "..."@
    }
}

/// The length in bytes of the UTF-8 encoding of `s`, as `str::len`
/// reports it.
pub open spec fn byte_count(s: Seq<char>) -> nat {
    (vstd::utf8::encode_utf8(s).len() as usize) as nat
}

/// Truncates a string, adding an ellipsis if it is too long.
pub fn truncate_ellipsis(s: &str, n: usize) -> (r: String)
    requires
        byte_count(s@) <= n || n >= 3,
    ensures
        r@ == truncated_text(s@, byte_count(s@), n as nat),
{
    if s.len() <= n {
        let mut out = String::new();
        push_str(&mut out, s);
        assert(out@ =~= s@);
        return out;
    }
    let chars = chars_of(s);
    let keep: usize = if chars.len() <= n - 3 { chars.len() } else { n - 3 };
    let mut out = String::new();
    push_chars(&mut out, &chars, 0, keep);
    push_str(&mut out, "...");
    assert(chars@.subrange(0, chars@.len() as int) =~= chars@);
    out
}

/// `l` without one trailing carriage return.
pub open spec fn strip_cr(l: Seq<char>) -> Seq<char> {
    if l.len() > 0 && l.last() == '\r' { l.drop_last() } else { l }
}

/// The lines of `s` as `str::lines` yields them: split at '\n', a '\r'
/// before the '\n' dropped, and no empty line after a final '\n'.
pub open spec fn text_lines(s: Seq<char>) -> Seq<Seq<char>> {
    let pieces = split_on(s, '\n');
    let kept = if pieces.last().len() == 0 { pieces.drop_last() } else { pieces };
    Seq::new(
        kept.len(),
        |i: int|
            if i < pieces.len() - 1 {
                strip_cr(kept[i])
            } else {
                kept[i]
            },
    )
}

/// No piece of `s` split at `sep` holds `sep`.
proof fn lemma_split_pieces_lack_sep(s: Seq<char>, sep: char)
    ensures
        forall|i: int, j: int|
            0 <= i < split_on(s, sep).len() && 0 <= j < split_on(s, sep)[i].len() ==> #[trigger] split_on(
                s,
                sep,
            )[i][j] != sep,
    decreases s.len(),
{
    if s.len() > 0 {
        lemma_split_pieces_lack_sep(s.drop_last(), sep);
        lemma_split_on_nonempty(s.drop_last(), sep);
        let pieces = split_on(s.drop_last(), sep);
        let n = split_on(s, sep);
        assert forall|i: int, j: int| 0 <= i < n.len() && 0 <= j < n[i].len() implies #[trigger] n[i][j]
            != sep by {
            if s.last() == sep {
                if i < pieces.len() {
                    assert(n[i] == pieces[i]);
                }
            } else {
                if i < pieces.len() - 1 {
                    assert(n[i] == pieces[i]);
                } else {
                    assert(n[i] == pieces.last().push(s.last()));
                    if j < pieces.last().len() {
                        assert(n[i][j] == pieces[pieces.len() - 1][j]);
                    }
                }
            }
        }
    }
}

/// No line of a text holds a '\n'.
pub proof fn lemma_text_lines_lack_newlines(s: Seq<char>)
    ensures
        forall|i: int, j: int|
            0 <= i < text_lines(s).len() && 0 <= j < text_lines(s)[i].len() ==> #[trigger] text_lines(
                s,
            )[i][j] != '\n',
{
    lemma_split_pieces_lack_sep(s, '\n');
    lemma_split_on_nonempty(s, '\n');
    let pieces = split_on(s, '\n');
    let t = text_lines(s);
    assert forall|i: int, j: int| 0 <= i < t.len() && 0 <= j < t[i].len() implies #[trigger] t[i][j]
        != '\n' by {
        assert(t[i][j] == pieces[i][j]);
    }
}

/// The lines of `v`, as `str::lines` yields them.
pub fn lines_of(v: &Vec<char>) -> (r: Vec<Vec<char>>)
    ensures
        r@.map_values(|l: Vec<char>| l@) == text_lines(v@),
{
    let pieces = split_chars(v, '\n');
    let ghost dv = pieces@.map_values(|l: Vec<char>| l@);
    proof {
        lemma_split_on_nonempty(v@, '\n');
    }
    let n = pieces.len();
    let kept: usize = if pieces[n - 1].len() == 0 { n - 1 } else { n };
    let mut out: Vec<Vec<char>> = Vec::new();
    let mut i: usize = 0;
    while i < kept
        invariant
            dv == pieces@.map_values(|l: Vec<char>| l@),
            dv == split_on(v@, '\n'),
            n == dv.len(),
            n >= 1,
            kept <= n,
            kept == (if dv.last().len() == 0 { n - 1 } else { n as int }),
            i <= kept,
            out@.map_values(|l: Vec<char>| l@) =~= text_lines(v@).take(i as int),
        decreases kept - i,
    {
        let piece = &pieces[i];
        assert(piece@ == dv[i as int]);
        let mut line: Vec<char> = Vec::new();
        let len = piece.len();
        let end: usize = if i + 1 < n && len > 0 && piece[len - 1] == '\r' { len - 1 } else { len };
        let mut j: usize = 0;
        while j < end
            invariant
                end <= piece@.len(),
                j <= end,
                line@ == piece@.take(j as int),
            decreases end - j,
        {
            line.push(piece[j]);
            j = j + 1;
            assert(line@ =~= piece@.take(j as int));
        }
        proof {
            let pieces_s = split_on(v@, '\n');
            assert(pieces_s == dv);
            let kept_s = if pieces_s.last().len() == 0 { pieces_s.drop_last() } else { pieces_s };
            assert(kept_s[i as int] == dv[i as int]);
            assert(line@ =~= piece@.take(end as int));
            if i + 1 < n {
                assert(line@ =~= strip_cr(dv[i as int]));
            } else {
                assert(line@ =~= dv[i as int]);
            }
            assert(line@ =~= text_lines(v@)[i as int]);
        }
        let ghost prev_out = out@.map_values(|l: Vec<char>| l@);
        let ghost new_line = line@;
        out.push(line);
        assert(out@.map_values(|l: Vec<char>| l@) =~= prev_out.push(new_line));
        i = i + 1;
        assert(out@.map_values(|l: Vec<char>| l@) =~= text_lines(v@).take(i as int));
    }
    assert(text_lines(v@).take(kept as int) =~= text_lines(v@));
    out
}

} // verus!
