//! Threading by subject: messages whose subjects have the same base
//! subject form one thread, each thread ordered by time.
use vstd::prelude::*;
use vstd::hash_map::StringHashMap;
use crate::message::{thread_name, thread_name_of};
use crate::sort::{count_of, is_stable_sort_of, lemma_count_two_places, lemma_count_with_key, lemma_two_places_count, lemma_stable_sort_map, lemma_with_key_contains, map_items, stable_sort_by_key, with_key};
use crate::text::push_str;
use crate::models::{MessageFields, MessageFieldsView};
use crate::time::{MailDate, lemma_mail_timestamp_fits, mail_timestamp};

verus! {

/// A message as the thread index knows it.
pub struct Msg {
    pub id: String,
    pub path: String,
    pub time: MailDate,
}

pub struct MsgView {
    pub id: Seq<char>,
    pub path: Seq<char>,
    pub time: MailDate,
}

impl View for Msg {
    type V = MsgView;

    open spec fn view(&self) -> MsgView {
        MsgView { id: self.id@, path: self.path@, time: self.time }
    }
}

pub open spec fn thread_view(t: Seq<Msg>) -> Seq<MsgView> {
    t.map_values(|m: Msg| m@)
}

pub open spec fn threads_view(ts: Seq<Vec<Msg>>) -> Seq<Seq<MsgView>> {
    ts.map_values(|t: Vec<Msg>| thread_view(t@))
}

/// The threads of a list, with indexes by message id and by base subject.
pub struct ThreadIdx {
    pub threads: Vec<Vec<Msg>>,
    id_index: StringHashMap<usize>,
    subject_index: StringHashMap<usize>,
}

pub struct ThreadIdxView {
    pub threads: Seq<Seq<MsgView>>,
    /// Message id to the thread that holds it.
    pub ids: Map<Seq<char>, usize>,
    /// Base subject to its thread.
    pub subjects: Map<Seq<char>, usize>,
}

impl View for ThreadIdx {
    type V = ThreadIdxView;

    closed spec fn view(&self) -> ThreadIdxView {
        ThreadIdxView {
            threads: threads_view(self.threads@),
            ids: self.id_index@,
            subjects: self.subject_index@,
        }
    }
}

impl ThreadIdxView {
    /// The index is well formed: its indexes agree with its threads, and no
    /// message id occurs twice.
    pub open spec fn wf(self) -> bool {
        &&& self.indexes_agree()
        &&& self.ids_distinct()
    }

    /// Every thread is non-empty, the id index names exactly the messages
    /// and the threads that hold them, and the subject index points at
    /// threads.
    pub open spec fn indexes_agree(self) -> bool {
        &&& forall|i: int| 0 <= i < self.threads.len() ==> #[trigger] self.threads[i].len() > 0
        &&& forall|i: int, j: int|
            0 <= i < self.threads.len() && 0 <= j < self.threads[i].len() ==> {
                let id = #[trigger] self.threads[i][j].id;
                &&& self.ids.contains_key(id)
                &&& self.ids[id] == i
            }
        &&& forall|id: Seq<char>| #[trigger] self.ids.contains_key(id) ==> {
            &&& self.ids[id] < self.threads.len()
            &&& exists|j: int|
                0 <= j < self.threads[self.ids[id] as int].len()
                    && #[trigger] self.threads[self.ids[id] as int][j].id == id
        }
        &&& forall|k: Seq<char>| #[trigger] self.subjects.contains_key(k) ==> self.subjects[k]
            < self.threads.len()
    }

    /// No message id occurs twice, in one thread or across threads.
    pub open spec fn ids_distinct(self) -> bool {
        forall|i1: int, j1: int, i2: int, j2: int|
            0 <= i1 < self.threads.len() && 0 <= j1 < self.threads[i1].len() && 0 <= i2
                < self.threads.len() && 0 <= j2 < self.threads[i2].len() && (i1 != i2 || j1 != j2)
                ==> #[trigger] self.threads[i1][j1].id != #[trigger] self.threads[i2][j2].id
    }

    /// The index after a message with id `id`, date `time` and base
    /// subject `name` stored at `path` is added: nothing changes for a
    /// message without id or date or with an id already present; otherwise
    /// the message joins the thread of its base subject, or starts a new
    /// thread.
    pub open spec fn add(
        self,
        id: Option<Seq<char>>,
        time: Option<MailDate>,
        name: Seq<char>,
        path: Seq<char>,
    ) -> ThreadIdxView {
        match (id, time) {
            (Some(id), Some(time)) => if self.ids.contains_key(id) {
                self
            } else {
                let msg = MsgView { id, path, time };
                if self.subjects.contains_key(name) {
                    let t = self.subjects[name];
                    ThreadIdxView {
                        threads: self.threads.update(t as int, self.threads[t as int].push(msg)),
                        ids: self.ids.insert(id, t),
                        subjects: self.subjects,
                    }
                } else {
                    let t = self.threads.len() as usize;
                    ThreadIdxView {
                        threads: self.threads.push(seq![msg]),
                        ids: self.ids.insert(id, t),
                        subjects: self.subjects.insert(name, t),
                    }
                }
            },
            _ => self,
        }
    }
}

/// The base subject a message is threaded by: that of its subject, or of
/// "(No Subject)".
pub open spec fn base_subject(subject: Option<Seq<char>>) -> Seq<char> {
    match subject {
        Some(s) => thread_name_of(s),
        None => thread_name_of("(No Subject)"@),
    }
}

/// The time a message is ordered by: the date of its first Received
/// header, else its Date header.
pub open spec fn message_time(m: MessageFieldsView) -> Option<MailDate> {
    match m.received {
        Some(t) => Some(t),
        None => m.date,
    }
}

impl ThreadIdx {
    pub fn new() -> (r: ThreadIdx)
        ensures
            r@.wf(),
            r@.threads.len() == 0,
            r@.ids == Map::<Seq<char>, usize>::empty(),
            r@.subjects == Map::<Seq<char>, usize>::empty(),
    {
        let r = ThreadIdx {
            threads: Vec::new(),
            id_index: StringHashMap::new(),
            subject_index: StringHashMap::new(),
        };
        assert(r@.threads =~= Seq::<Seq<MsgView>>::empty());
        r
    }

    /// Adds the message `msg`, stored at `path`.
    pub fn add_email(&mut self, msg: &MessageFields, path: String)
        requires
            old(self)@.wf(),
        ensures
            final(self)@.wf(),
            final(self)@ == old(self)@.add(
                msg@.message_id,
                message_time(msg@),
                base_subject(msg@.subject),
                path@,
            ),
    {
        proof {
            law_adding_keeps_message_ids_distinct(
                self@,
                msg@.message_id,
                message_time(msg@),
                base_subject(msg@.subject),
                path@,
            );
        }
        let id = match &msg.message_id {
            Some(m) => m.clone(),
            None => return,
        };
        let time = match msg.received {
            Some(t) => t,
            None => match msg.date {
                Some(t) => t,
                None => return,
            },
        };
        let subject = &msg.subject;
        if self.id_index.contains_key(id.as_str()) {
            return;
        }
        let name = match &subject {
            Some(s) => thread_name(s.as_str()),
            None => thread_name("(No Subject)"),
        };
        let ghost old_view = self@;
        let ghost old_len = self.threads@.len();
        let ghost msgv = MsgView { id: id@, path: path@, time };
        let msg = Msg { id: id.clone(), path, time };
        let t: usize;
        match self.subject_index.get(name.as_str()) {
            Some(i) => {
                t = *i;
                assert(old_view.subjects.contains_key(name@));
                assert(t < self.threads@.len());
                let mut thread = self.threads.remove(t);
                let ghost tv = thread_view(thread@);
                thread.push(msg);
                assert(thread_view(thread@) =~= tv.push(msgv));
                self.threads.insert(t, thread);
            },
            None => {
                t = self.threads.len();
                let mut thread = Vec::new();
                thread.push(msg);
                assert(thread_view(thread@) =~= seq![msgv]);
                self.threads.push(thread);
                assert(self.threads.len() == t + 1);
                assert(old_view.threads.len() == t);
            },
        }
        self.id_index.insert(id, t);
        self.subject_index.insert(name, t);
        proof {
            let nv = self@;
            let expected = old_view.add(Some(id@), Some(time), name@, msgv.path);
            assert(nv.threads =~= expected.threads);
            assert(nv.ids =~= expected.ids);
            assert(nv.subjects =~= expected.subjects);
            lemma_add_keeps_wf(old_view, id@, time, name@, msgv.path);
        }
    }

    /// Orders every thread by time, oldest first; messages with the same
    /// time keep their order.
    pub fn finalize(&mut self)
        requires
            old(self)@.wf(),
        ensures
            final(self)@.wf(),
            final(self)@.ids == old(self)@.ids,
            final(self)@.subjects == old(self)@.subjects,
            final(self)@.threads.len() == old(self)@.threads.len(),
            forall|i: int|
                0 <= i < final(self)@.threads.len() ==> is_stable_sort_of(
                    #[trigger] keyed_by_time(final(self)@.threads[i]),
                    keyed_by_time(old(self)@.threads[i]),
                ),
            forall|i: int|
                0 <= i < final(self)@.threads.len() ==> is_sorted_by_time(#[trigger] final(self)@.threads[i]),
    {
        let ghost old_view = self@;
        let mut rest: Vec<Vec<Msg>> = Vec::new();
        std::mem::swap(&mut rest, &mut self.threads);
        let ghost orig = threads_view(rest@);
        assert(orig == old_view.threads);
        let mut sorted: Vec<Vec<Msg>> = Vec::new();
        assert(orig.skip(0) =~= orig);
        while rest.len() > 0
            invariant
                sorted@.len() <= orig.len(),
                threads_view(rest@) == orig.skip(sorted@.len() as int),
                forall|i: int|
                    0 <= i < sorted@.len() ==> is_stable_sort_of(
                        #[trigger] keyed_by_time(threads_view(sorted@)[i]),
                        keyed_by_time(orig[i]),
                    ),
                forall|i: int| 0 <= i < sorted@.len() ==> #[trigger] threads_view(sorted@)[i].len() == orig[i].len(),
            decreases rest@.len(),
        {
            let ghost before = threads_view(sorted@);
            let ghost rest_before = threads_view(rest@);
            let t = rest.remove(0);
            let ghost tv = thread_view(t@);
            assert(rest_before =~= seq![tv] + threads_view(rest@));
            let st = sort_thread(t);
            sorted.push(st);
            assert(threads_view(sorted@) =~= before.push(thread_view(st@)));
            assert(threads_view(rest@) =~= rest_before.drop_first());
            assert(rest_before[0] == tv);
            assert(rest_before == orig.skip(before.len() as int));
            assert(orig.skip(before.len() as int)[0] == orig[before.len() as int]);
            assert(tv == orig[before.len() as int]);
            assert(rest_before.drop_first() =~= orig.skip(before.len() as int + 1));
        }
        assert(threads_view(sorted@).len() == orig.len());
        self.threads = sorted;
        proof {
            lemma_sorted_threads_keep_wf(old_view, self@);
            assert forall|i: int| 0 <= i < self@.threads.len() implies is_sorted_by_time(
                #[trigger] self@.threads[i],
            ) by {
                lemma_sorted_keys_in_time_order(self@.threads[i], old_view.threads[i]);
            }
            lemma_sorted_threads_keep_ids_distinct(old_view, self@);
        }
    }
}

/// A thread's messages keyed by their times.
pub open spec fn keyed_by_time(t: Seq<MsgView>) -> Seq<(i64, MsgView)> {
    t.map_values(|m: MsgView| (mail_timestamp(m.time) as i64, m))
}

/// The view of a message, as a function.
pub open spec fn view_msg() -> spec_fn(Msg) -> MsgView {
    |m: Msg| m@
}

/// Sorts one thread by time, stably.
fn sort_thread(t: Vec<Msg>) -> (r: Vec<Msg>)
    ensures
        is_stable_sort_of(keyed_by_time(thread_view(r@)), keyed_by_time(thread_view(t@))),
        r@.len() == t@.len(),
{
    let ghost tv = thread_view(t@);
    let mut rest = t;
    let mut keyed: Vec<(i64, Msg)> = Vec::new();
    let ghost mut done: Seq<MsgView> = Seq::empty();
    while rest.len() > 0
        invariant
            done + thread_view(rest@) == tv,
            map_items(keyed@, view_msg()) == keyed_by_time(done),
            forall|j: int| 0 <= j < keyed@.len() ==> #[trigger] keyed@[j].0 == mail_timestamp(keyed@[j].1.time),
        decreases rest@.len(),
    {
        let ghost rb = thread_view(rest@);
        let m = rest.remove(0);
        let k = m.time.to_timestamp();
        let ghost mv = m@;
        let ghost kp = keyed@;
        let ghost pair = (k, m);
        keyed.push((k, m));
        proof {
            assert(keyed@ == kp.push(pair));
            assert(map_items(keyed@, view_msg()) =~= map_items(kp, view_msg()).push((k, mv)));
            assert(rb =~= seq![mv] + thread_view(rest@));
            assert(done.push(mv) + thread_view(rest@) =~= tv);
            assert(k as int == mail_timestamp(mv.time));
            assert(map_items(keyed@, view_msg()).last() == keyed_by_time(done.push(mv)).last());
            assert(map_items(keyed@, view_msg()) =~= keyed_by_time(done.push(mv)));
            done = done.push(mv);
        }
    }
    assert(done =~= tv);
    let ghost kv = keyed@;
    let sorted = stable_sort_by_key(keyed);
    proof {
        lemma_stable_sort_map(sorted@, kv, view_msg());
    }
    let ghost sv = sorted@;
    let total = sorted.len();
    assert(sv.len() == total);
    let mut out: Vec<Msg> = Vec::new();
    let mut rest2 = sorted;
    let mut i: usize = 0;
    while rest2.len() > 0
        invariant
            sv.len() == i + rest2@.len(),
            sv.len() <= usize::MAX,
            forall|j: int| 0 <= j < rest2@.len() ==> rest2@[j] == sv[i + j],
            out@.len() == i,
            forall|j: int| 0 <= j < i ==> out@[j] == sv[j].1,
        decreases rest2@.len(),
    {
        let (_, m) = rest2.remove(0);
        out.push(m);
        i = i + 1;
    }
    proof {
        assert forall|j: int| 0 <= j < sv.len() implies #[trigger] sv[j].0 == mail_timestamp(sv[j].1.time) by {
            lemma_with_key_contains(sv, sv[j]);
            lemma_with_key_contains(kv, sv[j]);
            assert(sv.contains(sv[j]));
            let q = choose|q: int| 0 <= q < kv.len() && kv[q] == sv[j];
        }
        assert(keyed_by_time(thread_view(out@)) =~= map_items(sv, view_msg()));
    }
    out
}

proof fn lemma_add_keeps_wf(v: ThreadIdxView, id: Seq<char>, time: MailDate, name: Seq<char>, path: Seq<char>)
    requires
        v.wf(),
        !v.ids.contains_key(id),
        !v.subjects.contains_key(name) ==> v.threads.len() < usize::MAX,
    ensures
        v.add(Some(id), Some(time), name, path).indexes_agree(),
{
    let n = v.add(Some(id), Some(time), name, path);
    let msg = MsgView { id, path, time };
    if v.subjects.contains_key(name) {
        let t = v.subjects[name] as int;
        assert forall|i: int, j: int|
            0 <= i < n.threads.len() && 0 <= j < n.threads[i].len() implies {
                let x = #[trigger] n.threads[i][j].id;
                &&& n.ids.contains_key(x)
                &&& n.ids[x] == i
            } by {
            if i == t && j == v.threads[t].len() {
                assert(n.threads[i][j] == msg);
            } else {
                assert(n.threads[i][j] == v.threads[i][j]);
                let x = v.threads[i][j].id;
                assert(v.ids.contains_key(x));
                assert(x != id);
            }
        }
        assert forall|x: Seq<char>| #[trigger] n.ids.contains_key(x) implies {
            &&& n.ids[x] < n.threads.len()
            &&& exists|j: int|
                0 <= j < n.threads[n.ids[x] as int].len()
                    && #[trigger] n.threads[n.ids[x] as int][j].id == x
        } by {
            if x == id {
                assert(n.threads[t][v.threads[t].len() as int].id == x);
            } else {
                let j = choose|j: int|
                    0 <= j < v.threads[v.ids[x] as int].len()
                        && #[trigger] v.threads[v.ids[x] as int][j].id == x;
                assert(n.threads[v.ids[x] as int][j] == v.threads[v.ids[x] as int][j]);
            }
        }
        assert forall|i: int| 0 <= i < n.threads.len() implies #[trigger] n.threads[i].len() > 0 by {
            if i != t {
                assert(n.threads[i] == v.threads[i]);
            }
        }
    } else {
        let t = v.threads.len() as int;
        assert forall|i: int, j: int|
            0 <= i < n.threads.len() && 0 <= j < n.threads[i].len() implies {
                let x = #[trigger] n.threads[i][j].id;
                &&& n.ids.contains_key(x)
                &&& n.ids[x] == i
            } by {
            if i == t {
                assert(n.threads[i] == seq![msg]);
                assert(n.threads[i][j] == msg);
            } else {
                assert(n.threads[i][j] == v.threads[i][j]);
                let x = v.threads[i][j].id;
                assert(v.ids.contains_key(x));
                assert(x != id);
            }
        }
        assert forall|x: Seq<char>| #[trigger] n.ids.contains_key(x) implies {
            &&& n.ids[x] < n.threads.len()
            &&& exists|j: int|
                0 <= j < n.threads[n.ids[x] as int].len()
                    && #[trigger] n.threads[n.ids[x] as int][j].id == x
        } by {
            if x == id {
                assert(n.threads[t][0].id == x);
            } else {
                let j = choose|j: int|
                    0 <= j < v.threads[v.ids[x] as int].len()
                        && #[trigger] v.threads[v.ids[x] as int][j].id == x;
                assert(n.threads[v.ids[x] as int][j] == v.threads[v.ids[x] as int][j]);
            }
        }
        assert forall|i: int| 0 <= i < n.threads.len() implies #[trigger] n.threads[i].len() > 0 by {
            if i != t {
                assert(n.threads[i] == v.threads[i]);
            }
        }
    }
}

/// Times never decrease along `t`.
pub open spec fn is_sorted_by_time(t: Seq<MsgView>) -> bool {
    forall|i: int, j: int| 0 <= i <= j < t.len() ==> mail_timestamp(t[i].time) <= mail_timestamp(
        t[j].time,
    )
}

/// A thread sorted by its keyed times is in time order.
proof fn lemma_sorted_keys_in_time_order(a: Seq<MsgView>, b: Seq<MsgView>)
    requires
        is_stable_sort_of(keyed_by_time(a), keyed_by_time(b)),
    ensures
        is_sorted_by_time(a),
{
    let ka = keyed_by_time(a);
    assert forall|i: int, j: int| 0 <= i <= j < a.len() implies mail_timestamp(a[i].time)
        <= mail_timestamp(a[j].time) by {
        lemma_mail_timestamp_fits(a[i].time);
        lemma_mail_timestamp_fits(a[j].time);
        assert(ka[i].0 <= ka[j].0);
    }
}

/// A message whose id the index already holds changes nothing: adding a
/// message a second time is the same as adding it once.
pub proof fn law_adding_twice_is_adding_once(
    v: ThreadIdxView,
    id: Seq<char>,
    time: MailDate,
    name: Seq<char>,
    path: Seq<char>,
    time2: Option<MailDate>,
    name2: Seq<char>,
    path2: Seq<char>,
)
    ensures
        v.add(Some(id), Some(time), name, path).add(Some(id), time2, name2, path2) == v.add(
            Some(id),
            Some(time),
            name,
            path,
        ),
{
}

/// A new message joins the thread of its base subject: the subject index
/// then names the thread that holds it.
pub proof fn law_message_joins_its_subject_thread(
    v: ThreadIdxView,
    id: Seq<char>,
    time: MailDate,
    name: Seq<char>,
    path: Seq<char>,
)
    requires
        !v.ids.contains_key(id),
    ensures
        ({
            let w = v.add(Some(id), Some(time), name, path);
            &&& w.subjects.contains_key(name)
            &&& w.ids[id] == w.subjects[name]
            &&& v.subjects.contains_key(name) ==> w.subjects[name] == v.subjects[name]
        }),
{
}

/// Two new messages with the same base subject share a thread.
pub proof fn law_same_subject_same_thread(
    v: ThreadIdxView,
    id1: Seq<char>,
    time1: MailDate,
    path1: Seq<char>,
    id2: Seq<char>,
    time2: MailDate,
    path2: Seq<char>,
    name: Seq<char>,
)
    requires
        id1 != id2,
        !v.ids.contains_key(id1),
        !v.ids.contains_key(id2),
    ensures
        ({
            let w = v.add(Some(id1), Some(time1), name, path1).add(Some(id2), Some(time2), name, path2);
            w.ids[id1] == w.ids[id2]
        }),
{
    law_message_joins_its_subject_thread(v, id1, time1, name, path1);
    let u = v.add(Some(id1), Some(time1), name, path1);
    law_message_joins_its_subject_thread(u, id2, time2, name, path2);
}

/// Adding a message never makes two messages share an id: an index whose
/// message ids are distinct keeps them distinct.
pub proof fn law_adding_keeps_message_ids_distinct(
    v: ThreadIdxView,
    id: Option<Seq<char>>,
    time: Option<MailDate>,
    name: Seq<char>,
    path: Seq<char>,
)
    requires
        v.wf(),
    ensures
        v.add(id, time, name, path).ids_distinct(),
{
    let n = v.add(id, time, name, path);
    if id is Some && time is Some && !v.ids.contains_key(id->0) {
        let x = id->0;
        let msg = MsgView { id: x, path, time: time->0 };
        let t = if v.subjects.contains_key(name) { v.subjects[name] as int } else { v.threads.len() as int };
        assert forall|i: int, j: int| 0 <= i < n.threads.len() && 0 <= j < n.threads[i].len() implies
            (#[trigger] n.threads[i][j] == msg) || (0 <= i < v.threads.len() && 0 <= j < v.threads[i].len()
                && n.threads[i][j] == v.threads[i][j] && v.ids.contains_key(v.threads[i][j].id)
                && (i != t || j != v.threads[i].len() )) by {
            if v.subjects.contains_key(name) {
                if i == t && j == v.threads[t].len() {
                    assert(n.threads[i][j] == msg);
                } else {
                    assert(n.threads[i][j] == v.threads[i][j]);
                }
            } else {
                if i == t {
                    assert(n.threads[i][j] == msg);
                } else {
                    assert(n.threads[i][j] == v.threads[i][j]);
                }
            }
        }
        assert forall|i1: int, j1: int, i2: int, j2: int|
            0 <= i1 < n.threads.len() && 0 <= j1 < n.threads[i1].len() && 0 <= i2 < n.threads.len()
                && 0 <= j2 < n.threads[i2].len() && (i1 != i2 || j1 != j2) implies #[trigger] n.threads[i1][j1].id
            != #[trigger] n.threads[i2][j2].id by {
            let a = n.threads[i1][j1];
            let b = n.threads[i2][j2];
            if a == msg && b == msg {
                assert(!(0 <= i1 < v.threads.len() && 0 <= j1 < v.threads[i1].len() && n.threads[i1][j1]
                    == v.threads[i1][j1] && v.ids.contains_key(v.threads[i1][j1].id)));
                assert(!(0 <= i2 < v.threads.len() && 0 <= j2 < v.threads[i2].len() && n.threads[i2][j2]
                    == v.threads[i2][j2] && v.ids.contains_key(v.threads[i2][j2].id)));
                if v.subjects.contains_key(name) {
                    assert(i1 == t && j1 == v.threads[t].len());
                    assert(i2 == t && j2 == v.threads[t].len());
                } else {
                    assert(i1 == t && i2 == t);
                    assert(n.threads[t].len() == 1);
                }
            } else if a == msg {
                assert(v.threads[i2][j2].id != x);
            } else if b == msg {
                assert(v.threads[i1][j1].id != x);
            } else {
                assert(v.threads[i1][j1].id != v.threads[i2][j2].id);
            }
        }
    }
}

proof fn lemma_sorted_threads_keep_wf(v: ThreadIdxView, n: ThreadIdxView)
    requires
        v.wf(),
        n.ids == v.ids,
        n.subjects == v.subjects,
        n.threads.len() == v.threads.len(),
        forall|i: int| 0 <= i < n.threads.len() ==> #[trigger] n.threads[i].len() == v.threads[i].len(),
        forall|i: int|
            0 <= i < n.threads.len() ==> is_stable_sort_of(
                #[trigger] keyed_by_time(n.threads[i]),
                keyed_by_time(v.threads[i]),
            ),
    ensures
        n.indexes_agree(),
{
    assert forall|i: int, x: MsgView| 0 <= i < n.threads.len() implies
        (#[trigger] n.threads[i].contains(x) <==> v.threads[i].contains(x)) by {
        lemma_keyed_contains(n.threads[i], v.threads[i], x);
    }
    assert forall|i: int| 0 <= i < n.threads.len() implies #[trigger] n.threads[i].len() > 0 by {
        assert(v.threads[i].len() > 0);
        assert(v.threads[i].contains(v.threads[i][0]));
        assert(n.threads[i].contains(v.threads[i][0]));
    }
    assert forall|i: int, j: int|
        0 <= i < n.threads.len() && 0 <= j < n.threads[i].len() implies {
            let x = #[trigger] n.threads[i][j].id;
            &&& n.ids.contains_key(x)
            &&& n.ids[x] == i
        } by {
        assert(n.threads[i].contains(n.threads[i][j]));
        assert(v.threads[i].contains(n.threads[i][j]));
        let q = choose|q: int| 0 <= q < v.threads[i].len() && v.threads[i][q] == n.threads[i][j];
        assert(v.threads[i][q].id == n.threads[i][j].id);
    }
    assert forall|x: Seq<char>| #[trigger] n.ids.contains_key(x) implies {
        &&& n.ids[x] < n.threads.len()
        &&& exists|j: int|
            0 <= j < n.threads[n.ids[x] as int].len()
                && #[trigger] n.threads[n.ids[x] as int][j].id == x
    } by {
        let t = v.ids[x] as int;
        let j = choose|j: int| 0 <= j < v.threads[t].len() && #[trigger] v.threads[t][j].id == x;
        assert(v.threads[t].contains(v.threads[t][j]));
        assert(n.threads[t].contains(v.threads[t][j]));
        let q = choose|q: int| 0 <= q < n.threads[t].len() && n.threads[t][q] == v.threads[t][j];
        assert(n.threads[t][q].id == x);
    }
}

/// No message id occurs twice in `t`.
pub open spec fn thread_ids_distinct(t: Seq<MsgView>) -> bool {
    forall|p: int, q: int| 0 <= p < t.len() && 0 <= q < t.len() && p != q ==> #[trigger] t[p].id != #[trigger] t[q].id
}

/// Sorting a thread whose ids are distinct keeps them distinct.
proof fn lemma_sorted_thread_ids_distinct(a: Seq<MsgView>, b: Seq<MsgView>)
    requires
        is_stable_sort_of(keyed_by_time(a), keyed_by_time(b)),
        thread_ids_distinct(b),
    ensures
        thread_ids_distinct(a),
{
    let ka = keyed_by_time(a);
    let kb = keyed_by_time(b);
    assert forall|p: int, q: int| 0 <= p < a.len() && 0 <= q < a.len() && p != q implies #[trigger] a[p].id
        != #[trigger] a[q].id by {
        if a[p].id == a[q].id {
            if a[p] == a[q] {
                let (lo, hi) = if p < q { (p, q) } else { (q, p) };
                let kx = ka[lo];
                assert(ka[hi] == kx);
                lemma_two_places_count(ka, lo, hi);
                lemma_count_with_key(ka, kx);
                lemma_count_with_key(kb, kx);
                assert(count_of(kb, kx) >= 2);
                lemma_count_two_places(kb, kx);
                let (i, j) = choose|i: int, j: int| #![trigger kb[i], kb[j]] 0 <= i < j < kb.len() && kb[i] == kx && kb[j] == kx;
                assert(b[i] == a[p] && b[j] == a[p]);
                assert(b[i].id == b[j].id);
            } else {
                lemma_keyed_contains(a, b, a[p]);
                lemma_keyed_contains(a, b, a[q]);
                assert(a.contains(a[p]));
                assert(a.contains(a[q]));
                let i = choose|i: int| 0 <= i < b.len() && b[i] == a[p];
                let j = choose|j: int| 0 <= j < b.len() && b[j] == a[q];
                assert(b[i].id == b[j].id);
            }
        }
    }
}

/// Sorting each thread keeps the message ids distinct.
proof fn lemma_sorted_threads_keep_ids_distinct(v: ThreadIdxView, n: ThreadIdxView)
    requires
        v.ids_distinct(),
        n.indexes_agree(),
        n.threads.len() == v.threads.len(),
        forall|i: int|
            0 <= i < n.threads.len() ==> is_stable_sort_of(
                #[trigger] keyed_by_time(n.threads[i]),
                keyed_by_time(v.threads[i]),
            ),
    ensures
        n.ids_distinct(),
{
    assert forall|i1: int, j1: int, i2: int, j2: int|
        0 <= i1 < n.threads.len() && 0 <= j1 < n.threads[i1].len() && 0 <= i2 < n.threads.len()
            && 0 <= j2 < n.threads[i2].len() && (i1 != i2 || j1 != j2) implies #[trigger] n.threads[i1][j1].id
        != #[trigger] n.threads[i2][j2].id by {
        if i1 == i2 {
            assert(thread_ids_distinct(v.threads[i1])) by {
                assert forall|p: int, q: int| 0 <= p < v.threads[i1].len() && 0 <= q < v.threads[i1].len()
                    && p != q implies #[trigger] v.threads[i1][p].id != #[trigger] v.threads[i1][q].id by {
                }
            }
            lemma_sorted_thread_ids_distinct(n.threads[i1], v.threads[i1]);
        } else {
            assert(n.ids[n.threads[i1][j1].id] == i1);
            assert(n.ids[n.threads[i2][j2].id] == i2);
        }
    }
}

/// Sorting a thread keeps its messages.
proof fn lemma_keyed_contains(a: Seq<MsgView>, b: Seq<MsgView>, x: MsgView)
    requires
        is_stable_sort_of(keyed_by_time(a), keyed_by_time(b)),
    ensures
        a.contains(x) <==> b.contains(x),
{
    let ka = keyed_by_time(a);
    let kb = keyed_by_time(b);
    let kx = (mail_timestamp(x.time) as i64, x);
    lemma_with_key_contains(ka, kx);
    lemma_with_key_contains(kb, kx);
    assert(with_key(ka, kx.0) == with_key(kb, kx.0));
    if a.contains(x) {
        let i = choose|i: int| 0 <= i < a.len() && a[i] == x;
        assert(ka[i] == kx);
        let q = choose|q: int| 0 <= q < kb.len() && kb[q] == kx;
        assert(b[q] == x);
    }
    if b.contains(x) {
        let i = choose|i: int| 0 <= i < b.len() && b[i] == x;
        assert(kb[i] == kx);
        let q = choose|q: int| 0 <= q < ka.len() && ka[q] == kx;
        assert(a[q] == x);
    }
}

impl Msg {
    pub fn copy(&self) -> (r: Msg)
        ensures
            r@ == self@,
    {
        Msg { id: self.id.clone(), path: self.path.clone(), time: self.time }
    }
}

/// The messages of all threads, thread after thread.
pub open spec fn all_messages(threads: Seq<Seq<MsgView>>) -> Seq<MsgView>
    decreases threads.len(),
{
    if threads.len() == 0 {
        Seq::empty()
    } else {
        all_messages(threads.drop_last()) + threads.last()
    }
}

/// The first `limit` messages of `sorted` taken from its end: the newest
/// first when `sorted` runs from oldest to newest.
pub open spec fn newest_first(sorted: Seq<MsgView>, limit: nat) -> Seq<MsgView> {
    let r = sorted.reverse();
    if r.len() <= limit {
        r
    } else {
        r.take(limit as int)
    }
}

impl ThreadIdx {
    /// The `limit` newest messages of all threads, newest first: all
    /// messages stably sorted by time, then taken from the end.
    pub fn recent_msgs(&self, limit: usize) -> (r: Vec<Msg>)
        ensures
            exists|s: Seq<MsgView>|
                #![trigger newest_first(s, limit as nat)]
                is_stable_sort_of(keyed_by_time(s), keyed_by_time(all_messages(self@.threads)))
                    && thread_view(r@) == newest_first(s, limit as nat),
    {
        let ghost tv = self@.threads;
        let mut all: Vec<Msg> = Vec::new();
        let mut i: usize = 0;
        assert(tv.take(0) =~= Seq::<Seq<MsgView>>::empty());
        while i < self.threads.len()
            invariant
                tv == self@.threads,
                tv == threads_view(self.threads@),
                i <= tv.len(),
                thread_view(all@) == all_messages(tv.take(i as int)),
            decreases tv.len() - i,
        {
            let t = &self.threads[i];
            let ghost before = thread_view(all@);
            let mut j: usize = 0;
            while j < t.len()
                invariant
                    j <= t@.len(),
                    thread_view(all@) == before + thread_view(t@).take(j as int),
                decreases t@.len() - j,
            {
                let m = t[j].copy();
                let ghost prev = thread_view(all@);
                all.push(m);
                assert(thread_view(all@) =~= prev.push(t@[j as int]@));
                j = j + 1;
                assert(thread_view(t@).take(j as int) =~= thread_view(t@).take(j - 1).push(
                    t@[j - 1]@,
                ));
            }
            assert(thread_view(t@).take(t@.len() as int) =~= thread_view(t@));
            assert(tv.take(i + 1 as int).drop_last() =~= tv.take(i as int));
            assert(tv[i as int] == thread_view(t@));
            i = i + 1;
        }
        assert(tv.take(tv.len() as int) =~= tv);
        let sorted = sort_thread(all);
        let ghost sv = thread_view(sorted@);
        let n = sorted.len();
        let count: usize = if n <= limit { n } else { limit };
        let mut out: Vec<Msg> = Vec::new();
        let mut k: usize = 0;
        while k < count
            invariant
                n == sorted@.len(),
                sv == thread_view(sorted@),
                count <= n,
                k <= count,
                thread_view(out@) == sv.reverse().take(k as int),
            decreases count - k,
        {
            let m = sorted[n - 1 - k].copy();
            let ghost prev = thread_view(out@);
            out.push(m);
            assert(thread_view(out@) =~= prev.push(sv[n - 1 - k]));
            k = k + 1;
            assert(sv.reverse().take(k as int) =~= sv.reverse().take(k - 1).push(sv[n - k]));
        }
        assert(thread_view(out@) =~= newest_first(sv, limit as nat));
        out
    }
}

} // verus!
