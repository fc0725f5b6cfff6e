//! Escaping for HTML and XML output.
use vstd::prelude::*;
use crate::text::{chars_of, push_char, push_str};

verus! {

/// The text that stands for `c` in HTML or XML output: the markup
/// characters as entities, '@' as an entity too (to obscure addresses), any
/// other character as itself.
pub open spec fn xml_escape_char(c: char) -> Seq<char> {
    if c == '&' {
        "&amp;"@
    } else if c == '<' {
        "&lt;"@
    } else if c == '>' {
        "&gt;"@
    } else if c == '"' {
        "&quot;"@
    } else if c == '\'' {
        "&#39;"@
    } else if c == '@' {
        "&#x40;"@
    } else {
        seq![c]
    }
}

/// `s` with every character replaced by its escaped text.
pub open spec fn xml_escaped(s: Seq<char>) -> Seq<char>
    decreases s.len(),
{
    if s.len() == 0 {
        Seq::empty()
    } else {
        xml_escaped(s.drop_last()) + xml_escape_char(s.last())
    }
}

/// Appends the escaped text of `c`.
pub fn push_escaped_char(out: &mut String, c: char)
    ensures
        final(out)@ == old(out)@ + xml_escape_char(c),
{
    if c == '&' {
        push_str(out, "&amp;");
    } else if c == '<' {
        push_str(out, "&lt;");
    } else if c == '>' {
        push_str(out, "&gt;");
    } else if c == '"' {
        push_str(out, "&quot;");
    } else if c == '\'' {
        push_str(out, "&#39;");
    } else if c == '@' {
        push_str(out, "&#x40;");
    } else {
        push_char(out, c);
    }
}

/// Appends `text` escaped for HTML or XML.
pub fn push_xml_safe(out: &mut String, text: &str)
    ensures
        final(out)@ == old(out)@ + xml_escaped(text@),
{
    let chars = chars_of(text);
    let ghost start = out@;
    let mut i: usize = 0;
    assert(chars@.take(0) =~= Seq::<char>::empty());
    while i < chars.len()
        invariant
            i <= chars@.len(),
            chars@ == text@,
            out@ == start + xml_escaped(chars@.take(i as int)),
        decreases chars@.len() - i,
    {
        push_escaped_char(out, chars[i]);
        assert(chars@.take(i + 1).drop_last() =~= chars@.take(i as int));
        i = i + 1;
    }
    assert(chars@.take(chars@.len() as int) =~= chars@);
}

/// `text` escaped for HTML or XML output (more is escaped than needed).
pub fn xml_safe(text: &str) -> (r: String)
    ensures
        r@ == xml_escaped(text@),
{
    let mut out = String::new();
    push_xml_safe(&mut out, text);
    assert(out@ =~= xml_escaped(text@));
    out
}

/// Characters that escaping replaces.
pub open spec fn is_escaped_char(c: char) -> bool {
    c == '&' || c == '<' || c == '>' || c == '"' || c == '\'' || c == '@'
}

/// Escaped text holds no markup character: no '<', '>', '"' or '\'', and
/// no '@' either.
pub proof fn law_escaped_text_has_no_markup(s: Seq<char>)
    ensures
        forall|i: int|
            0 <= i < xml_escaped(s).len() ==> {
                let c = #[trigger] xml_escaped(s)[i];
                c != '<' && c != '>' && c != '"' && c != '\'' && c != '@'
            },
    decreases s.len(),
{
    if s.len() > 0 {
        law_escaped_text_has_no_markup(s.drop_last());
        reveal_strlit("&amp;");
        reveal_strlit("&lt;");
        reveal_strlit("&gt;");
        reveal_strlit("&quot;");
        reveal_strlit("&#39;");
        reveal_strlit("&#x40;");
        let prev = xml_escaped(s.drop_last());
        let tail = xml_escape_char(s.last());
        assert forall|i: int| 0 <= i < xml_escaped(s).len() implies {
            let c = #[trigger] xml_escaped(s)[i];
            c != '<' && c != '>' && c != '"' && c != '\'' && c != '@'
        } by {
            if i >= prev.len() {
                assert(xml_escaped(s)[i] == tail[i - prev.len()]);
            } else {
                assert(xml_escaped(s)[i] == prev[i]);
            }
        }
    }
}

/// Text without any of the escaped characters is left as it is.
pub proof fn law_plain_text_is_unchanged(s: Seq<char>)
    requires
        forall|i: int| 0 <= i < s.len() ==> !is_escaped_char(#[trigger] s[i]),
    ensures
        xml_escaped(s) == s,
    decreases s.len(),
{
    if s.len() > 0 {
        law_plain_text_is_unchanged(s.drop_last());
        assert(!is_escaped_char(s[s.len() - 1]));
        assert(xml_escaped(s) =~= s.drop_last() + seq![s.last()]);
        assert(s.drop_last() + seq![s.last()] =~= s);
    } else {
        assert(xml_escaped(s) =~= s);
    }
}

/// Escaping works character by character: the escape of two texts one
/// after the other is their escapes one after the other.
pub proof fn law_escaping_distributes_over_concatenation(a: Seq<char>, b: Seq<char>)
    ensures
        xml_escaped(a + b) == xml_escaped(a) + xml_escaped(b),
    decreases b.len(),
{
    if b.len() == 0 {
        assert(a + b =~= a);
        assert(xml_escaped(a) + xml_escaped(b) =~= xml_escaped(a));
    } else {
        law_escaping_distributes_over_concatenation(a, b.drop_last());
        assert((a + b).drop_last() =~= a + b.drop_last());
        assert((a + b).last() == b.last());
        assert(xml_escaped(a + b) =~= xml_escaped(a) + xml_escaped(b));
    }
}

/// The entities escaping writes.
pub open spec fn is_entity_start(t: Seq<char>) -> bool {
    ||| t.take(5) == "&amp;"@
    ||| t.take(4) == "&lt;"@
    ||| t.take(4) == "&gt;"@
    ||| t.take(6) == "&quot;"@
    ||| t.take(5) == "&#39;"@
    ||| t.take(6) == "&#x40;"@
}

/// Reading escaped text back: each entity that escaping writes becomes its
/// character again; every other character stands for itself.
pub open spec fn xml_unescaped(t: Seq<char>) -> Seq<char>
    decreases t.len(),
{
    if t.len() == 0 {
        Seq::empty()
    } else if t.len() >= 5 && t.take(5) == "&amp;"@ {
        seq!['&'] + xml_unescaped(t.skip(5))
    } else if t.len() >= 4 && t.take(4) == "&lt;"@ {
        seq!['<'] + xml_unescaped(t.skip(4))
    } else if t.len() >= 4 && t.take(4) == "&gt;"@ {
        seq!['>'] + xml_unescaped(t.skip(4))
    } else if t.len() >= 6 && t.take(6) == "&quot;"@ {
        seq!['"'] + xml_unescaped(t.skip(6))
    } else if t.len() >= 5 && t.take(5) == "&#39;"@ {
        seq!['\''] + xml_unescaped(t.skip(5))
    } else if t.len() >= 6 && t.take(6) == "&#x40;"@ {
        seq!['@'] + xml_unescaped(t.skip(6))
    } else {
        seq![t[0]] + xml_unescaped(t.drop_first())
    }
}

proof fn lemma_escaped_first(c: char, rest: Seq<char>)
    ensures
        xml_escaped(seq![c] + rest) == xml_escape_char(c) + xml_escaped(rest),
{
    law_escaping_distributes_over_concatenation(seq![c], rest);
    let e = Seq::<char>::empty();
    assert(seq![c].drop_last() =~= e);
    assert(xml_escaped(e) =~= e);
    assert(seq![c].last() == c);
    assert(xml_escaped(seq![c]) == xml_escaped(e) + xml_escape_char(c));
    assert(xml_escaped(seq![c]) =~= xml_escape_char(c));
}

proof fn lemma_entities()
    ensures
        "&amp;"@ =~= seq!['&', 'a', 'm', 'p', ';'],
        "&lt;"@ =~= seq!['&', 'l', 't', ';'],
        "&gt;"@ =~= seq!['&', 'g', 't', ';'],
        "&quot;"@ =~= seq!['&', 'q', 'u', 'o', 't', ';'],
        "&#39;"@ =~= seq!['&', '#', '3', '9', ';'],
        "&#x40;"@ =~= seq!['&', '#', 'x', '4', '0', ';'],
{
    reveal_strlit("&amp;");
    reveal_strlit("&lt;");
    reveal_strlit("&gt;");
    reveal_strlit("&quot;");
    reveal_strlit("&#39;");
    reveal_strlit("&#x40;");
}

/// Escaping loses nothing: reading the escaped text back gives the text.
pub proof fn law_unescaping_undoes_escaping(s: Seq<char>)
    ensures
        xml_unescaped(xml_escaped(s)) == s,
    decreases s.len(),
{
    if s.len() == 0 {
        assert(xml_escaped(s) =~= Seq::<char>::empty());
    } else {
        let c = s[0];
        let rest = s.drop_first();
        assert(s =~= seq![c] + rest);
        lemma_escaped_first(c, rest);
        law_unescaping_undoes_escaping(rest);
        lemma_entities();
        let e = xml_escape_char(c);
        let tail = xml_escaped(rest);
        let t = e + tail;
        assert(t.take(e.len() as int) =~= e);
        assert(t.skip(e.len() as int) =~= tail);
        if c == '&' {
            assert(xml_unescaped(t) == seq!['&'] + xml_unescaped(t.skip(5)));
        } else if c == '<' {
            assert(t.len() < 5 || t.take(5)[1] != "&amp;"@[1]);
            assert(xml_unescaped(t) == seq!['<'] + xml_unescaped(t.skip(4)));
        } else if c == '>' {
            assert(t.len() < 5 || t.take(5)[1] != "&amp;"@[1]);
            assert(t.len() < 4 || t.take(4)[1] != "&lt;"@[1]);
            assert(xml_unescaped(t) == seq!['>'] + xml_unescaped(t.skip(4)));
        } else if c == '"' {
            assert(t.len() < 5 || t.take(5)[1] != "&amp;"@[1]);
            assert(t.len() < 4 || t.take(4)[1] != "&lt;"@[1]);
            assert(t.len() < 4 || t.take(4)[1] != "&gt;"@[1]);
            assert(xml_unescaped(t) == seq!['"'] + xml_unescaped(t.skip(6)));
        } else if c == '\'' {
            assert(t.len() < 5 || t.take(5)[1] != "&amp;"@[1]);
            assert(t.len() < 4 || t.take(4)[1] != "&lt;"@[1]);
            assert(t.len() < 4 || t.take(4)[1] != "&gt;"@[1]);
            assert(t.len() < 6 || t.take(6)[1] != "&quot;"@[1]);
            assert(xml_unescaped(t) == seq!['\''] + xml_unescaped(t.skip(5)));
        } else if c == '@' {
            assert(t.len() < 5 || t.take(5)[1] != "&amp;"@[1]);
            assert(t.len() < 4 || t.take(4)[1] != "&lt;"@[1]);
            assert(t.len() < 4 || t.take(4)[1] != "&gt;"@[1]);
            assert(t.len() < 6 || t.take(6)[1] != "&quot;"@[1]);
            assert(t.len() < 5 || t.take(5)[2] != "&#39;"@[2]);
            assert(xml_unescaped(t) == seq!['@'] + xml_unescaped(t.skip(6)));
        } else {
            assert(t[0] == c);
            assert(t.len() < 4 || t.take(4)[0] != '&');
            assert(t.len() < 5 || t.take(5)[0] != '&');
            assert(t.len() < 6 || t.take(6)[0] != '&');
            assert(t.drop_first() =~= tail);
            assert(xml_unescaped(t) == seq![c] + xml_unescaped(t.drop_first()));
        }
        assert(xml_unescaped(t) =~= seq![c] + rest);
    }
}

/// Every '&' in escaped text opens one of the entities escaping writes.
pub proof fn law_every_ampersand_opens_an_entity(s: Seq<char>)
    ensures
        forall|i: int|
            0 <= i < xml_escaped(s).len() && #[trigger] xml_escaped(s)[i] == '&' ==> is_entity_start(
                xml_escaped(s).skip(i),
            ),
    decreases s.len(),
{
    if s.len() > 0 {
        let c = s[0];
        let rest = s.drop_first();
        assert(s =~= seq![c] + rest);
        lemma_escaped_first(c, rest);
        law_every_ampersand_opens_an_entity(rest);
        lemma_entities();
        let e = xml_escape_char(c);
        let tail = xml_escaped(rest);
        let t = e + tail;
        assert forall|i: int| 0 <= i < t.len() && #[trigger] t[i] == '&' implies is_entity_start(
            t.skip(i),
        ) by {
            if i < e.len() {
                assert(i == 0);
                assert(t.skip(0) =~= t);
                assert(t.take(e.len() as int) =~= e);
            } else {
                assert(t[i] == tail[i - e.len()]);
                assert(t.skip(i) =~= tail.skip(i - e.len()));
            }
        }
    }
}

/// Escaping writes no line break into a text without one.
pub proof fn lemma_escaping_adds_no_newline(s: Seq<char>)
    requires
        forall|i: int| 0 <= i < s.len() ==> s[i] != '\n',
    ensures
        forall|i: int| 0 <= i < xml_escaped(s).len() ==> #[trigger] xml_escaped(s)[i] != '\n',
    decreases s.len(),
{
    if s.len() > 0 {
        lemma_escaping_adds_no_newline(s.drop_last());
        lemma_entities();
        assert(s[s.len() - 1] != '\n');
        let prev = xml_escaped(s.drop_last());
        let tail = xml_escape_char(s.last());
        assert forall|i: int| 0 <= i < xml_escaped(s).len() implies #[trigger] xml_escaped(s)[i] != '\n' by {
            if i >= prev.len() {
                assert(xml_escaped(s)[i] == tail[i - prev.len()]);
            } else {
                assert(xml_escaped(s)[i] == prev[i]);
            }
        }
    }
}

} // verus!
