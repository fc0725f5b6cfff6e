//! The first steps of jwz's threading algorithm
//! (<https://www.jwz.org/doc/threading.html>): a table of containers by
//! message id, linked into parents and children by the References of each
//! message.
use vstd::prelude::*;
use vstd::hash_map::StringHashMap;
use crate::models::MessageFields;

verus! {

/// A message as the threading algorithm sees it.
pub struct JwzMessage {
    id: String,
    subject: String,
    references: Vec<String>,
}

pub struct JwzMessageView {
    pub id: Seq<char>,
    pub subject: Seq<char>,
    pub references: Seq<Seq<char>>,
}

pub open spec fn strings_view(v: Seq<String>) -> Seq<Seq<char>> {
    v.map_values(|s: String| s@)
}

impl View for JwzMessage {
    type V = JwzMessageView;

    closed spec fn view(&self) -> JwzMessageView {
        JwzMessageView {
            id: self.id@,
            subject: self.subject@,
            references: strings_view(self.references@),
        }
    }
}

/// Why a message cannot be threaded.
pub enum JwzError {
    MissingMessageId,
    MissingSubject,
}

fn copy_strings(v: &Vec<String>) -> (r: Vec<String>)
    ensures
        strings_view(r@) == strings_view(v@),
{
    let mut out: Vec<String> = Vec::new();
    let mut i: usize = 0;
    while i < v.len()
        invariant
            i <= v@.len(),
            strings_view(out@) =~= strings_view(v@).take(i as int),
        decreases v@.len() - i,
    {
        let ghost prev = strings_view(out@);
        out.push(v[i].clone());
        assert(strings_view(out@) =~= prev.push(v@[i as int]@));
        i = i + 1;
        assert(strings_view(v@).take(i as int) =~= strings_view(v@).take(i - 1).push(v@[i - 1]@));
    }
    assert(strings_view(v@).take(v@.len() as int) =~= strings_view(v@));
    out
}

impl JwzMessage {
    /// The message that `msg` describes, with no references; an error
    /// when it has no Message-ID or no Subject.
    pub fn parse(msg: &MessageFields) -> (r: Result<JwzMessage, JwzError>)
        ensures
            match r {
                Ok(m) => msg@.message_id == Some(m@.id) && msg@.subject == Some(m@.subject)
                    && m@.references.len() == 0,
                Err(JwzError::MissingMessageId) => msg@.message_id is None,
                Err(JwzError::MissingSubject) => msg@.message_id is Some && msg@.subject is None,
            },
    {
        let id = match &msg.message_id {
            Some(i) => i.clone(),
            None => return Err(JwzError::MissingMessageId),
        };
        let subject = match &msg.subject {
            Some(s) => s.clone(),
            None => return Err(JwzError::MissingSubject),
        };
        let r = JwzMessage { id, subject, references: Vec::new() };
        assert(r@.references =~= Seq::<Seq<char>>::empty());
        Ok(r)
    }

    fn copy(&self) -> (r: JwzMessage)
        ensures
            r@ == self@,
    {
        JwzMessage {
            id: self.id.clone(),
            subject: self.subject.clone(),
            references: copy_strings(&self.references),
        }
    }
}

/// A place in the thread tree: the message, if it has been seen, its
/// parent and its children, by message id.
struct JwzContainer {
    message: Option<JwzMessage>,
    parent: Option<String>,
    children: Vec<String>,
    next: Option<String>,
}

pub struct ContainerView {
    pub message: Option<JwzMessageView>,
    pub parent: Option<Seq<char>>,
    pub children: Seq<Seq<char>>,
    pub next: Option<Seq<char>>,
}

pub open spec fn opt_string_view(o: Option<String>) -> Option<Seq<char>> {
    match o {
        Some(s) => Some(s@),
        None => None,
    }
}

impl View for JwzContainer {
    type V = ContainerView;

    closed spec fn view(&self) -> ContainerView {
        ContainerView {
            message: match self.message {
                Some(m) => Some(m@),
                None => None,
            },
            parent: opt_string_view(self.parent),
            children: strings_view(self.children@),
            next: opt_string_view(self.next),
        }
    }
}

/// A container with nothing in it.
pub open spec fn empty_container() -> ContainerView {
    ContainerView { message: None, parent: None, children: Seq::empty(), next: None }
}

impl JwzContainer {
    fn empty() -> (r: JwzContainer)
        ensures
            r@ == empty_container(),
    {
        let r = JwzContainer { message: None, parent: None, children: Vec::new(), next: None };
        assert(r@.children =~= Seq::<Seq<char>>::empty());
        r
    }

    fn copy(&self) -> (r: JwzContainer)
        ensures
            r@ == self@,
    {
        JwzContainer {
            message: match &self.message {
                Some(m) => Some(m.copy()),
                None => None,
            },
            parent: match &self.parent {
                Some(p) => Some(p.clone()),
                None => None,
            },
            children: copy_strings(&self.children),
            next: match &self.next {
                Some(n) => Some(n.clone()),
                None => None,
            },
        }
    }
}

/// The containers of a list, by message id.
pub struct List {
    id_table: StringHashMap<JwzContainer>,
    subject_table: StringHashMap<String>,
}

pub type ContainerTable = Map<Seq<char>, ContainerView>;

impl View for List {
    type V = ContainerTable;

    closed spec fn view(&self) -> ContainerTable {
        self.id_table@.map_values(|c: JwzContainer| c@)
    }
}

/// The container for `id`: the table's, or an empty one.
pub open spec fn container_in(t: ContainerTable, id: Seq<char>) -> ContainerView {
    if t.contains_key(id) {
        t[id]
    } else {
        empty_container()
    }
}

/// Step 1A: the message goes into the container of its id when that one
/// is still empty of messages; otherwise into a new container, which
/// takes the id's place.
pub open spec fn store_message(t: ContainerTable, m: JwzMessageView) -> ContainerTable {
    if t.contains_key(m.id) && t[m.id].message is None {
        t.insert(m.id, ContainerView { message: Some(m), ..t[m.id] })
    } else {
        t.insert(
            m.id,
            ContainerView { message: Some(m), parent: None, children: Seq::empty(), next: None },
        )
    }
}

/// Step 1B for one pair of consecutive references: `child` becomes a child
/// of `parent` (once), and `parent` the parent of `child`.
pub open spec fn link(t: ContainerTable, parent: Seq<char>, child: Seq<char>) -> ContainerTable {
    let p = container_in(t, parent);
    let t1 = t.insert(
        parent,
        if p.children.contains(child) {
            p
        } else {
            ContainerView { children: p.children.push(child), ..p }
        },
    );
    t1.insert(child, ContainerView { parent: Some(parent), ..container_in(t1, child) })
}

/// Step 1B: each pair of consecutive references among the first `n`
/// linked, in order.
pub open spec fn link_all(t: ContainerTable, refs: Seq<Seq<char>>, n: nat) -> ContainerTable
    decreases n,
{
    if n == 0 || n > refs.len() {
        t
    } else if n == 1 {
        t
    } else {
        link(link_all(t, refs, (n - 1) as nat), refs[n - 2], refs[n - 1])
    }
}

/// Steps 1A to 1C for the message `m`.
pub open spec fn add_message(t: ContainerTable, m: JwzMessageView) -> ContainerTable {
    let t1 = link_all(store_message(t, m), m.references, m.references.len());
    if m.references.len() > 0 {
        t1.insert(m.id, ContainerView { parent: Some(m.references.last()), ..container_in(t1, m.id) })
    } else {
        t1
    }
}

proof fn lemma_link_keeps_messages(t: ContainerTable, parent: Seq<char>, child: Seq<char>)
    ensures
        forall|k: Seq<char>|
            #[trigger] t.contains_key(k) ==> link(t, parent, child).contains_key(k) && link(
                t,
                parent,
                child,
            )[k].message == t[k].message,
{
}

proof fn lemma_link_all_keeps_messages(t: ContainerTable, refs: Seq<Seq<char>>, n: nat)
    ensures
        forall|k: Seq<char>|
            #[trigger] t.contains_key(k) ==> link_all(t, refs, n).contains_key(k) && link_all(
                t,
                refs,
                n,
            )[k].message == t[k].message,
    decreases n,
{
    if n > 1 && n <= refs.len() {
        lemma_link_all_keeps_messages(t, refs, (n - 1) as nat);
        lemma_link_keeps_messages(link_all(t, refs, (n - 1) as nat), refs[n - 2], refs[n - 1]);
    }
}

/// Adding a message stores it in the container of its id, and every other
/// container of the table stays, with the message it held.
pub proof fn law_added_message_is_stored(t: ContainerTable, m: JwzMessageView)
    ensures
        add_message(t, m).contains_key(m.id),
        add_message(t, m)[m.id].message == Some(m),
        forall|k: Seq<char>|
            #[trigger] t.contains_key(k) && k != m.id ==> add_message(t, m).contains_key(k)
                && add_message(t, m)[k].message == t[k].message,
{
    let s = store_message(t, m);
    assert(s.contains_key(m.id) && s[m.id].message == Some(m));
    assert forall|k: Seq<char>| #[trigger] t.contains_key(k) && k != m.id implies s.contains_key(k)
        && s[k].message == t[k].message by {}
    lemma_link_all_keeps_messages(s, m.references, m.references.len());
    let t1 = link_all(s, m.references, m.references.len());
    assert(t1.contains_key(m.id) && t1[m.id].message == Some(m));
    assert(container_in(t1, m.id) == t1[m.id]);
    assert forall|k: Seq<char>| #[trigger] t.contains_key(k) && k != m.id implies add_message(
        t,
        m,
    ).contains_key(k) && add_message(t, m)[k].message == t[k].message by {
        assert(s.contains_key(k));
        assert(t1.contains_key(k) && t1[k].message == s[k].message);
    }
}

impl List {
    pub fn new() -> (r: List)
        ensures
            r@ == Map::<Seq<char>, ContainerView>::empty(),
    {
        let r = List { id_table: StringHashMap::new(), subject_table: StringHashMap::new() };
        assert(r@ =~= Map::<Seq<char>, ContainerView>::empty());
        r
    }

    /// The container for `id`, taken out of the table (an empty one when
    /// the table has none).
    fn container_from_id(&self, id: &str) -> (r: JwzContainer)
        ensures
            r@ == container_in(self@, id@),
    {
        match self.id_table.get(id) {
            Some(c) => c.copy(),
            None => JwzContainer::empty(),
        }
    }

    fn put(&mut self, id: &str, c: JwzContainer)
        ensures
            final(self)@ == old(self)@.insert(id@, c@),
    {
        let mut key = String::new();
        crate::text::push_str(&mut key, id);
        assert(key@ =~= id@);
        let ghost cv = c@;
        self.id_table.insert(key, c);
        assert(self@ =~= old(self)@.insert(id@, cv));
    }

    /// Steps 1A to 1C of the algorithm for one message: store it, link its
    /// references, and make the last reference its parent.
    pub fn add_email(&mut self, jwz_msg: JwzMessage)
        ensures
            final(self)@ == add_message(old(self)@, jwz_msg@),
    {
        let ghost mv = jwz_msg@;
        let msg_id = jwz_msg.id.clone();
        let references = copy_strings(&jwz_msg.references);
        let ghost refs = strings_view(references@);
        // 1A
        let reuse = match self.id_table.get(msg_id.as_str()) {
            Some(c) => c.message.is_none(),
            None => false,
        };
        if reuse {
            let mut c = self.container_from_id(msg_id.as_str());
            c.message = Some(jwz_msg);
            self.put(msg_id.as_str(), c);
        } else {
            let c = JwzContainer {
                message: Some(jwz_msg),
                parent: None,
                children: Vec::new(),
                next: None,
            };
            assert(c@.children =~= Seq::<Seq<char>>::empty());
            self.put(msg_id.as_str(), c);
        }
        assert(self@ == store_message(old(self)@, mv));
        let ghost stored = self@;
        // 1B
        let n = references.len();
        if n >= 2 {
            let mut k: usize = 1;
            while k < n
                invariant
                    n == references@.len(),
                    refs == strings_view(references@),
                    1 <= k <= n,
                    self@ == link_all(stored, refs, k as nat),
                decreases n - k,
            {
                let parent_id = &references[k - 1];
                let child_id = &references[k];
                let mut parent = self.container_from_id(parent_id.as_str());
                let mut contains = false;
                let mut j: usize = 0;
                let ghost cv = strings_view(parent.children@);
                while j < parent.children.len()
                    invariant
                        cv == strings_view(parent.children@),
                        j <= cv.len(),
                        contains == (exists|q: int| 0 <= q < j && #[trigger] cv[q] == child_id@),
                    decreases cv.len() - j,
                {
                    if crate::text::str_eq(parent.children[j].as_str(), child_id.as_str()) {
                        contains = true;
                    }
                    assert(cv[j as int] == parent.children@[j as int]@);
                    j = j + 1;
                }
                assert(contains == cv.contains(child_id@));
                if !contains {
                    let ghost before = strings_view(parent.children@);
                    parent.children.push(child_id.clone());
                    assert(strings_view(parent.children@) =~= before.push(child_id@));
                }
                self.put(parent_id.as_str(), parent);
                let mut child = self.container_from_id(child_id.as_str());
                child.parent = Some(parent_id.clone());
                self.put(child_id.as_str(), child);
                assert(refs[k - 1] == parent_id@);
                assert(refs[k as int] == child_id@);
                k = k + 1;
            }
        }
        assert(self@ == link_all(stored, refs, n as nat));
        // 1C
        if n > 0 {
            let mut c = self.container_from_id(msg_id.as_str());
            c.parent = Some(references[n - 1].clone());
            self.put(msg_id.as_str(), c);
        }
    }

    /// Nothing remains to be done once every message is in.
    pub fn finalize(&mut self)
        ensures
            final(self)@ == old(self)@,
    {
    }
}

} // verus!
