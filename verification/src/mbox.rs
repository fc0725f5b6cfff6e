//! Reading mailboxes in the "mboxo" format: messages separated by lines
//! that begin with "From ", lines in a message that begin with ">From"
//! unescaped by one '>'.
use vstd::prelude::*;

verus! {

/// "From ".
pub open spec fn from_line_prefix() -> Seq<u8> {
    seq![70u8, 114u8, 111u8, 109u8, 32u8]
}

/// ">From".
pub open spec fn escaped_from_prefix() -> Seq<u8> {
    seq![62u8, 70u8, 114u8, 111u8, 109u8]
}

pub open spec fn has_prefix(s: Seq<u8>, p: Seq<u8>) -> bool {
    s.len() >= p.len() && s.take(p.len() as int) == p
}

/// Index just past the line that starts at `pos`: after its '\n', or the
/// end of `data` when no '\n' follows.
pub open spec fn line_end(data: Seq<u8>, pos: int) -> int
    decreases data.len() - pos,
{
    if pos >= data.len() {
        data.len() as int
    } else if data[pos] == 10u8 {
        pos + 1
    } else {
        line_end(data, pos + 1)
    }
}

/// A message line as it is stored: one '>' removed from ">From" lines.
pub open spec fn unescaped_line(line: Seq<u8>) -> Seq<u8> {
    if has_prefix(line, escaped_from_prefix()) { line.drop_first() } else { line }
}

/// Reading on from `pos` into `record`: the record collected up to the next
/// separator line or the end of the data, the position after what was read,
/// whether a separator has been seen, and whether the data ran out.
pub open spec fn scan_record(data: Seq<u8>, pos: int, in_record: bool, record: Seq<u8>) -> (
    Seq<u8>,
    int,
    bool,
    bool,
)
    decreases data.len() - pos,
{
    if pos < 0 || pos >= data.len() {
        (record, pos, in_record, true)
    } else {
        let end = line_end(data, pos);
        let line = data.subrange(pos, end);
        if end <= pos || end > data.len() {
            (record, pos, in_record, true)
        } else if has_prefix(line, from_line_prefix()) {
            if !in_record {
                scan_record(data, end, true, record)
            } else {
                (record, end, true, false)
            }
        } else {
            scan_record(data, end, in_record, record + unescaped_line(line))
        }
    }
}

/// "\r\n\r\n" at the end of `r`.
pub open spec fn ends_with_blank_line(r: Seq<u8>) -> bool {
    r.len() >= 4 && r.subrange(r.len() - 4, r.len() as int) == seq![13u8, 10u8, 13u8, 10u8]
}

/// A record as returned: the double CRLF that ends it cut to one.
pub open spec fn trimmed_record(r: Seq<u8>) -> Seq<u8> {
    if ends_with_blank_line(r) { r.take(r.len() - 2) } else { r }
}

// ----------------------------------------------------------------------
// Storing and reading back
// ----------------------------------------------------------------------

/// A line that separates messages: it begins with "From " and ends at its
/// only '\n'.
pub open spec fn is_from_line(l: Seq<u8>) -> bool {
    &&& has_prefix(l, from_line_prefix())
    &&& l.last() == 10u8
    &&& forall|i: int| 0 <= i < l.len() - 1 ==> #[trigger] l[i] != 10u8
}

/// Whether a line of `m` begins with ">From" (which reading would change).
pub open spec fn has_escaped_line(m: Seq<u8>) -> bool {
    exists|i: int|
        0 <= i && i + 5 <= m.len() && (i == 0 || m[i - 1] == 10u8) && #[trigger] m.subrange(i, i + 5)
            == escaped_from_prefix()
}

/// `m` from `pos` on as an mboxo file stores it: a '>' put in front of each
/// line that begins with "From ".
pub open spec fn escaped_from(m: Seq<u8>, pos: int) -> Seq<u8>
    decreases m.len() - pos,
{
    if pos < 0 || pos >= m.len() {
        Seq::empty()
    } else {
        let end = line_end(m, pos);
        proof {
            lemma_line_end_bounds(m, pos);
        }
        let line = m.subrange(pos, end);
        (if has_prefix(line, from_line_prefix()) {
            seq![62u8] + line
        } else {
            line
        }) + escaped_from(m, end)
    }
}

/// A blank line: "\r\n".
pub open spec fn crlf() -> Seq<u8> {
    seq![13u8, 10u8]
}

/// Where a line ends does not depend on what comes before it.
proof fn lemma_line_end_shift(p: Seq<u8>, x: Seq<u8>, k: int)
    requires
        0 <= k <= x.len(),
    ensures
        line_end(p + x, p.len() + k) == p.len() + line_end(x, k),
    decreases x.len() - k,
{
    if k < x.len() {
        assert((p + x)[p.len() + k] == x[k]);
        if x[k] != 10u8 {
            lemma_line_end_shift(p, x, k + 1);
        }
    }
}

/// A line that ends at its only '\n' ends there whatever follows it.
proof fn lemma_line_end_of_line(a: Seq<u8>, s: Seq<u8>, k: int)
    requires
        a.len() > 0,
        a.last() == 10u8,
        forall|i: int| 0 <= i < a.len() - 1 ==> #[trigger] a[i] != 10u8,
        0 <= k < a.len(),
    ensures
        line_end(a + s, k) == a.len(),
    decreases a.len() - k,
{
    assert((a + s)[k] == a[k]);
    if k < a.len() - 1 {
        lemma_line_end_of_line(a, s, k + 1);
    }
}

/// Reading the stored lines of `m` from `pos` on gives back those lines.
proof fn lemma_scan_escaped(m: Seq<u8>, pos: int, p: Seq<u8>, s: Seq<u8>, r: Seq<u8>)
    requires
        0 <= pos <= m.len(),
        pos == 0 || m[pos - 1] == 10u8,
        m.len() == 0 || m.last() == 10u8,
        !has_escaped_line(m),
    ensures
        scan_record(p + escaped_from(m, pos) + s, p.len() as int, true, r) == scan_record(
            p + escaped_from(m, pos) + s,
            (p + escaped_from(m, pos)).len() as int,
            true,
            r + m.skip(pos),
        ),
    decreases m.len() - pos,
{
    if pos == m.len() {
        assert(escaped_from(m, pos) =~= Seq::<u8>::empty());
        assert(r + m.skip(pos) =~= r);
        assert(p + escaped_from(m, pos) =~= p);
    } else {
        lemma_line_end_bounds(m, pos);
        let end = line_end(m, pos);
        let line = m.subrange(pos, end);
        let esc = has_prefix(line, from_line_prefix());
        let e_line = if esc { seq![62u8] + line } else { line };
        let tail = escaped_from(m, end);
        assert(escaped_from(m, pos) == e_line + tail);
        let data = p + escaped_from(m, pos) + s;
        assert(data =~= p + (e_line + (tail + s)));
        // the stored line is a whole line
        assert(line.last() == 10u8);
        assert forall|i: int| 0 <= i < e_line.len() - 1 implies #[trigger] e_line[i] != 10u8 by {
            if esc {
                if i > 0 {
                    assert(e_line[i] == line[i - 1]);
                    assert(line[i - 1] == m[pos + i - 1]);
                }
            } else {
                assert(line[i] == m[pos + i]);
            }
        }
        assert(e_line.last() == 10u8);
        lemma_line_end_shift(p, e_line + (tail + s), 0);
        lemma_line_end_of_line(e_line, tail + s, 0);
        let q = p.len() as int;
        let q2 = q + e_line.len();
        assert(line_end(data, q) == q2);
        assert(data.subrange(q, q2) =~= e_line);
        // it is not a separator, and reading it undoes its escaping
        if esc {
            assert(e_line[0] == 62u8);
            assert(!has_prefix(e_line, from_line_prefix()));
            assert(line.take(4) == from_line_prefix().take(4));
            assert(e_line.take(5) =~= escaped_from_prefix());
            assert(unescaped_line(e_line) =~= line);
        } else {
            assert(!has_prefix(line, from_line_prefix()));
            if line.len() >= 5 {
                assert(line.take(5) =~= m.subrange(pos, pos + 5));
                assert(m.subrange(pos, pos + 5) != escaped_from_prefix());
            }
            assert(unescaped_line(e_line) == line);
        }
        assert(scan_record(data, q, true, r) == scan_record(data, q2, true, r + line));
        lemma_scan_escaped(m, end, p + e_line, s, r + line);
        assert(p + e_line + tail + s =~= data);
        assert((p + e_line + tail).len() == (p + escaped_from(m, pos)).len());
        assert(r + line + m.skip(end) =~= r + m.skip(pos));
    }
}

/// A separator line at the start of the data opens the first message.
pub proof fn law_mbox_from_line_opens_a_message(first: Seq<u8>, rest: Seq<u8>, r: Seq<u8>)
    requires
        is_from_line(first),
    ensures
        scan_record(first + rest, 0, false, r) == scan_record(first + rest, first.len() as int, true, r),
{
    lemma_line_end_shift(Seq::empty(), first + rest, 0);
    assert(Seq::<u8>::empty() + (first + rest) =~= first + rest);
    lemma_line_end_of_line(first, rest, 0);
    assert((first + rest).subrange(0, first.len() as int) =~= first);
}

/// A message stored in an mboxo file, after a separator and before a blank
/// line and the next separator, is read back as it was: when it ends in
/// "\r\n" and none of its lines begins with ">From", the record read is
/// the message and the blank line, which returning it cuts off.
pub proof fn law_mbox_reads_back_a_stored_message(
    before: Seq<u8>,
    m: Seq<u8>,
    sep: Seq<u8>,
    after: Seq<u8>,
)
    requires
        is_from_line(sep),
        !has_escaped_line(m),
        m.len() >= 2,
        m[m.len() - 2] == 13u8,
        m.last() == 10u8,
    ensures
        ({
            let stored = before + escaped_from(m, 0);
            let data = stored + crlf() + sep + after;
            scan_record(data, before.len() as int, true, Seq::empty()) == (
                m + crlf(),
                (stored + crlf() + sep).len() as int,
                true,
                false,
            )
        }),
        trimmed_record(m + crlf()) == m,
{
    let e = escaped_from(m, 0);
    let stored = before + e;
    let data = stored + crlf() + sep + after;
    lemma_scan_escaped(m, 0, before, crlf() + sep + after, Seq::empty());
    assert(before + e + (crlf() + sep + after) =~= data);
    assert(Seq::<u8>::empty() + m.skip(0) =~= m);
    // the blank line
    let q = stored.len() as int;
    assert(data =~= stored + (crlf() + (sep + after)));
    lemma_line_end_shift(stored, crlf() + (sep + after), 0);
    lemma_line_end_of_line(crlf(), sep + after, 0);
    assert(line_end(data, q) == q + 2);
    assert(data.subrange(q, q + 2) =~= crlf());
    assert(!has_prefix(crlf(), from_line_prefix()));
    assert(!has_prefix(crlf(), escaped_from_prefix()));
    assert(unescaped_line(crlf()) == crlf());
    assert(scan_record(data, q, true, m) == scan_record(data, q + 2, true, m + crlf()));
    // the next separator
    let q2 = q + 2;
    assert(data =~= (stored + crlf()) + (sep + after));
    lemma_line_end_shift(stored + crlf(), sep + after, 0);
    lemma_line_end_of_line(sep, after, 0);
    assert(line_end(data, q2) == q2 + sep.len());
    assert(data.subrange(q2, q2 + sep.len()) =~= sep);
    assert(has_prefix(sep, from_line_prefix()));
    assert(scan_record(data, q2, true, m + crlf()) == (m + crlf(), q2 + sep.len(), true, false));
    assert((stored + crlf() + sep).len() == q2 + sep.len());
    // the record ends in a blank line, which is cut
    let rec = m + crlf();
    assert(rec.subrange(rec.len() - 4, rec.len() as int) =~= seq![13u8, 10u8, 13u8, 10u8]);
    assert(rec.take(rec.len() - 2) =~= m);
}

/// Text none of whose lines begins with "From " is stored as it is.
proof fn lemma_escaped_from_plain(m: Seq<u8>, pos: int)
    requires
        0 <= pos <= m.len(),
        pos == 0 || m[pos - 1] == 10u8,
        forall|i: int|
            0 <= i && i + 5 <= m.len() && (i == 0 || m[i - 1] == 10u8) ==> #[trigger] m.subrange(i, i + 5)
                != seq![70u8, 114u8, 111u8, 109u8, 32u8],
    ensures
        escaped_from(m, pos) == m.skip(pos),
    decreases m.len() - pos,
{
    if pos == m.len() {
        assert(m.skip(pos) =~= Seq::<u8>::empty());
    } else {
        lemma_line_end_bounds(m, pos);
        let end = line_end(m, pos);
        let line = m.subrange(pos, end);
        if line.len() >= 5 {
            assert(line.take(5) =~= m.subrange(pos, pos + 5));
        }
        assert(!has_prefix(line, from_line_prefix()));
        if end < m.len() {
            lemma_escaped_from_plain(m, end);
        } else {
            assert(m.skip(end) =~= Seq::<u8>::empty());
            assert(escaped_from(m, end) =~= Seq::<u8>::empty());
        }
        assert(escaped_from(m, pos) == line + escaped_from(m, end));
        assert(line + m.skip(end) =~= m.skip(pos));
    }
}

/// Only a line that begins with the five bytes "From " separates
/// messages: after such a line, text none of whose lines begins with
/// "From " or ">From" (lines such as "From: a\n" included) is read as one
/// whole message, and the data is used up. A fresh reader's `next` thus
/// returns those bytes (as they are, unless they end in a blank line
/// "\r\n\r\n"), and its following call `None`.
pub proof fn law_only_from_space_lines_separate(sep: Seq<u8>, m: Seq<u8>)
    requires
        sep.len() >= 6,
        sep.take(5) == seq![70u8, 114u8, 111u8, 109u8, 32u8],
        sep.last() == 10u8,
        forall|i: int| 0 <= i < sep.len() - 1 ==> #[trigger] sep[i] != 10u8,
        m.len() == 0 || m.last() == 10u8,
        forall|i: int|
            0 <= i && i + 5 <= m.len() && (i == 0 || m[i - 1] == 10u8) ==> #[trigger] m.subrange(i, i + 5)
                != seq![70u8, 114u8, 111u8, 109u8, 32u8] && m.subrange(i, i + 5) != seq![
                62u8,
                70u8,
                114u8,
                111u8,
                109u8,
            ],
    ensures
        scan_record(sep + m, 0, false, Seq::empty()) == (m, (sep + m).len() as int, true, true),
        !(m.len() >= 4 && m.subrange(m.len() - 4, m.len() as int) == seq![13u8, 10u8, 13u8, 10u8])
            ==> trimmed_record(m) == m,
{
    assert(is_from_line(sep));
    law_mbox_from_line_opens_a_message(sep, m, Seq::empty());
    lemma_escaped_from_plain(m, 0);
    assert(m.skip(0) =~= m);
    assert(!has_escaped_line(m));
    lemma_scan_escaped(m, 0, sep, Seq::empty(), Seq::empty());
    assert(sep + escaped_from(m, 0) + Seq::<u8>::empty() =~= sep + m);
    assert(Seq::<u8>::empty() + m =~= m);
}

/// A reader of the messages in an mbox held in memory.
pub struct MboxReader {
    in_record: bool,
    done: bool,
    data: Vec<u8>,
    pos: usize,
}

pub proof fn lemma_line_end_bounds(data: Seq<u8>, pos: int)
    requires
        0 <= pos <= data.len(),
    ensures
        pos <= line_end(data, pos) <= data.len(),
        pos < data.len() ==> pos < line_end(data, pos),
        forall|k: int| pos <= k < line_end(data, pos) - 1 ==> data[k] != 10u8,
        line_end(data, pos) < data.len() ==> data[line_end(data, pos) - 1] == 10u8,
        line_end(data, pos) == data.len() && pos < data.len() && data[data.len() - 1] != 10u8 ==> forall|k: int| pos <= k < data.len() ==> data[k] != 10u8,
    decreases data.len() - pos,
{
    if pos < data.len() && data[pos] != 10u8 {
        lemma_line_end_bounds(data, pos + 1);
    }
}

impl MboxReader {
    pub closed spec fn spec_data(&self) -> Seq<u8> {
        self.data@
    }

    pub closed spec fn spec_pos(&self) -> int {
        self.pos as int
    }

    pub closed spec fn spec_in_record(&self) -> bool {
        self.in_record
    }

    pub closed spec fn spec_done(&self) -> bool {
        self.done
    }

    pub closed spec fn wf(&self) -> bool {
        self.pos <= self.data@.len()
    }

    /// A reader positioned at the start of `data`.
    pub fn from_reader(data: Vec<u8>) -> (r: MboxReader)
        ensures
            r.wf(),
            r.spec_data() == data@,
            r.spec_pos() == 0,
            !r.spec_in_record(),
            !r.spec_done(),
    {
        MboxReader { in_record: false, done: false, data, pos: 0 }
    }

    fn find_line_end(&self, pos: usize) -> (r: usize)
        requires
            self.wf(),
            pos <= self.data@.len(),
        ensures
            r == line_end(self.data@, pos as int),
    {
        let mut k = pos;
        while k < self.data.len() && self.data[k] != 10u8
            invariant
                pos <= k <= self.data@.len(),
                line_end(self.data@, pos as int) == line_end(self.data@, k as int),
            decreases self.data@.len() - k,
        {
            k = k + 1;
        }
        if k < self.data.len() {
            k + 1
        } else {
            k
        }
    }

    /// Whether the five bytes at `from` are `b0 .. b4`.
    fn bytes_at(&self, from: usize, to: usize, b0: u8, b1: u8, b2: u8, b3: u8, b4: u8) -> (r: bool)
        requires
            from <= to <= self.data@.len(),
        ensures
            r == has_prefix(self.data@.subrange(from as int, to as int), seq![b0, b1, b2, b3, b4]),
    {
        let ghost line = self.data@.subrange(from as int, to as int);
        if to - from < 5 {
            return false;
        }
        let r = self.data[from] == b0 && self.data[from + 1] == b1 && self.data[from + 2] == b2
            && self.data[from + 3] == b3 && self.data[from + 4] == b4;
        assert(r == (line.take(5) =~= seq![b0, b1, b2, b3, b4]));
        r
    }

    /// The next message, or `None` once the data is used up.
    pub fn next(&mut self) -> (r: Option<Vec<u8>>)
        requires
            old(self).wf(),
        ensures
            final(self).wf(),
            final(self).spec_data() == old(self).spec_data(),
            old(self).spec_done() ==> r is None && *final(self) == *old(self),
            !old(self).spec_done() ==> {
                let (record, pos, in_record, eof) = scan_record(
                    old(self).spec_data(),
                    old(self).spec_pos(),
                    old(self).spec_in_record(),
                    Seq::empty(),
                );
                &&& r matches Some(v) && v@ == trimmed_record(record)
                &&& final(self).spec_pos() == pos
                &&& final(self).spec_in_record() == in_record
                &&& final(self).spec_done() == eof
            },
    {
        if self.done {
            return None;
        }
        let ghost target = scan_record(self.data@, self.pos as int, self.in_record, Seq::empty());
        let mut record: Vec<u8> = Vec::new();
        let mut eof = false;
        let ghost d0 = self.data@;
        loop
            invariant_except_break
                self.wf(),
                self.data@ == d0,
                !self.done,
                !eof,
                scan_record(self.data@, self.pos as int, self.in_record, record@) == target,
            ensures
                self.wf(),
                self.data@ == d0,
                !self.done,
                target == (record@, self.pos as int, self.in_record, eof),
            decreases self.data@.len() - self.pos,
        {
            let pos = self.pos;
            let end = self.find_line_end(pos);
            proof {
                lemma_line_end_bounds(self.data@, pos as int);
            }
            if end <= pos {
                eof = true;
                break;
            }
            let ghost line = self.data@.subrange(pos as int, end as int);
            let ghost ir = self.in_record;
            assert(pos < self.data@.len());
            assert(end <= self.data@.len());
            let is_from = self.bytes_at(pos, end, 70u8, 114u8, 111u8, 109u8, 32u8);
            if is_from {
                assert(!ir ==> scan_record(d0, pos as int, ir, record@) == scan_record(d0, end as int, true, record@));
                self.pos = end;
                if !self.in_record {
                    self.in_record = true;
                    continue;
                } else {
                    break;
                }
            }
            let ghost before = record@;
            let esc = self.bytes_at(pos, end, 62u8, 70u8, 114u8, 111u8, 109u8);
            let start = if esc { pos + 1 } else { pos };
            let mut k = start;
            while k < end
                invariant
                    start <= k <= end <= self.data@.len(),
                    record@ == before + self.data@.subrange(start as int, k as int),
                decreases end - k,
            {
                record.push(self.data[k]);
                k = k + 1;
                assert(record@ =~= before + self.data@.subrange(start as int, k as int));
            }
            assert(self.data@.subrange(start as int, end as int) =~= unescaped_line(
                self.data@.subrange(pos as int, end as int),
            ));
            self.pos = end;
        }
        if eof {
            self.done = true;
        }
        let n = record.len();
        if n >= 4 && record[n - 4] == 13u8 && record[n - 3] == 10u8 && record[n - 2] == 13u8
            && record[n - 1] == 10u8 {
            assert(record@.subrange(n - 4, n as int) =~= seq![13u8, 10u8, 13u8, 10u8]);
            record.pop();
            record.pop();
            assert(record@ =~= trimmed_record(target.0));
        } else {
            proof {
                if ends_with_blank_line(record@) {
                    assert(record@.subrange(n - 4, n as int)[0] == 13u8);
                    assert(record@.subrange(n - 4, n as int)[1] == 10u8);
                    assert(record@.subrange(n - 4, n as int)[2] == 13u8);
                    assert(record@.subrange(n - 4, n as int)[3] == 10u8);
                }
            }
        }
        Some(record)
    }
}

} // verus!
