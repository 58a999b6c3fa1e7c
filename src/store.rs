use vstd::prelude::*;
use crate::node::{Node, NoteView, notes_view, strings_view, copy_strings};
use crate::extract::tokens_of;
use crate::index::{TitleIndex, title_pairs, first_match, title_target};
use crate::resolve::{resolved, resolve_links, lemma_resolved_agree};

verus! {

/// What can go wrong in an operation on the corpus.
#[derive(PartialEq, Eq, Structural, Clone, Copy, Debug)]
pub enum EngineError {
    /// The identity named is not in the store.
    NotFound,
    /// The underlying storage failed.
    StoreError,
    /// The corpus has more notes or links than a graph can index.
    TooLarge,
}

/// No two notes share an identity.
pub open spec fn ids_distinct(ns: Seq<NoteView>) -> bool {
    forall|j: int, k: int| 0 <= j < k < ns.len() ==> ns[j].id != ns[k].id
}

/// Some note carries identity `id`.
pub open spec fn has_id(ns: Seq<NoteView>, id: Seq<char>) -> bool {
    exists|k: int| 0 <= k < ns.len() && ns[k].id == id
}

/// Some link in `links` is `id`.
pub open spec fn links_to(links: Seq<Seq<char>>, id: Seq<char>) -> bool {
    exists|k: int| 0 <= k < links.len() && links[k] == id
}

/// The corpus with the link list of the note `id` replaced by `links`.
pub open spec fn with_links(ns: Seq<NoteView>, id: Seq<char>, links: Seq<Seq<char>>) -> Seq<NoteView> {
    ns.map_values(
        |n: NoteView|
            if n.id == id {
                NoteView { id: n.id, title: n.title, content: n.content, links: links }
            } else {
                n
            },
    )
}

/// The corpus after storing `n`: it replaces the note with its identity, or
/// is added at the end.
pub open spec fn put_note(ns: Seq<NoteView>, n: NoteView) -> Seq<NoteView> {
    if has_id(ns, n.id) {
        ns.map_values(|m: NoteView| if m.id == n.id { n } else { m })
    } else {
        ns.push(n)
    }
}

/// `links` with every occurrence of `id` removed, the others kept in order.
pub open spec fn purge(links: Seq<Seq<char>>, id: Seq<char>) -> Seq<Seq<char>>
    decreases links.len(),
{
    if links.len() == 0 {
        Seq::empty()
    } else if links.last() == id {
        purge(links.drop_last(), id)
    } else {
        purge(links.drop_last(), id).push(links.last())
    }
}

/// The corpus after deleting `id`: the note is gone and every other note's
/// link list is purged of `id`, the order of notes kept.
pub open spec fn cascade(ns: Seq<NoteView>, id: Seq<char>) -> Seq<NoteView>
    decreases ns.len(),
{
    if ns.len() == 0 {
        Seq::empty()
    } else {
        let r = cascade(ns.drop_last(), id);
        let n = ns.last();
        if n.id == id {
            r
        } else {
            r.push(NoteView { id: n.id, title: n.title, content: n.content, links: purge(n.links, id) })
        }
    }
}

/// The identities, in store order, of the notes other than `id` whose link
/// list holds `id`: those that a deletion of `id` rewrites.
pub open spec fn rewritten(ns: Seq<NoteView>, id: Seq<char>) -> Seq<Seq<char>>
    decreases ns.len(),
{
    if ns.len() == 0 {
        Seq::empty()
    } else {
        let r = rewritten(ns.drop_last(), id);
        let n = ns.last();
        if n.id != id && links_to(n.links, id) {
            r.push(n.id)
        } else {
            r
        }
    }
}

pub proof fn lemma_purge(links: Seq<Seq<char>>, id: Seq<char>)
    ensures
        !links_to(purge(links, id), id),
        purge(links, id) == links <==> !links_to(links, id),
        purge(links, id).len() <= links.len(),
    decreases links.len(),
{
    if links.len() == 0 {
        assert(purge(links, id) =~= links);
    } else {
        let d = links.drop_last();
        lemma_purge(d, id);
        let p = purge(d, id);
        assert forall|k: int| 0 <= k < d.len() implies d[k] == links[k] by {}
        if links.last() == id {
            assert(links[links.len() - 1] == id);
            assert(links_to(links, id));
            assert(purge(links, id).len() < links.len());
        } else {
            assert forall|k: int| 0 <= k < p.len() + 1 && #[trigger] p.push(links.last())[k] == id implies k < p.len() by {}
            if links_to(links, id) {
                let k = choose|k: int| 0 <= k < links.len() && links[k] == id;
                assert(d[k] == id);
            }
            if !links_to(links, id) {
                assert(!links_to(d, id)) by {
                    if links_to(d, id) {
                        let k = choose|k: int| 0 <= k < d.len() && d[k] == id;
                        assert(links[k] == id);
                    }
                }
                assert(links =~= d.push(links.last()));
            }
        }
    }
}

/// A note left by deleting `id` from `ns`: it is not `id`, links no more to
/// it, and was in `ns` before.
pub open spec fn survives(ns: Seq<NoteView>, id: Seq<char>, n: NoteView) -> bool {
    &&& n.id != id
    &&& !links_to(n.links, id)
    &&& has_id(ns, n.id)
}

/// Every note left by a deletion differs from `id`, links no more to it, and
/// was in the corpus before.
pub proof fn lemma_cascade(ns: Seq<NoteView>, id: Seq<char>)
    ensures
        forall|j: int| 0 <= j < cascade(ns, id).len() ==> survives(ns, id, #[trigger] cascade(ns, id)[j]),
        ids_distinct(ns) ==> ids_distinct(cascade(ns, id)),
        has_id(ns, id) ==> cascade(ns, id).len() < ns.len(),
        cascade(ns, id).len() <= ns.len(),
    decreases ns.len(),
{
    if ns.len() > 0 {
        let d = ns.drop_last();
        let n = ns.last();
        lemma_cascade(d, id);
        lemma_purge(n.links, id);
        let c = cascade(ns, id);
        let cd = cascade(d, id);
        assert forall|j: int| 0 <= j < c.len() implies survives(ns, id, #[trigger] c[j]) by {
            if j < cd.len() {
                assert(c[j] == cd[j]);
                assert(survives(d, id, cd[j]));
                let k = choose|k: int| 0 <= k < d.len() && d[k].id == cd[j].id;
                assert(ns[k] == d[k]);
            } else {
                assert(ns[ns.len() - 1].id == c[j].id);
                assert(c[j].links == purge(n.links, id));
            }
        }
        if ids_distinct(ns) {
            assert(ids_distinct(d)) by {
                assert forall|j: int, k: int| 0 <= j < k < d.len() implies d[j].id != d[k].id by {
                    assert(ns[j] == d[j] && ns[k] == d[k]);
                }
            }
            assert forall|j: int, k: int| 0 <= j < k < c.len() implies c[j].id != c[k].id by {
                if k >= cd.len() {
                    let m = choose|m: int| 0 <= m < d.len() && d[m].id == cd[j].id;
                    assert(ns[m] == d[m]);
                    assert(c[j] == cd[j]);
                }
            }
        }
        if has_id(ns, id) && n.id != id {
            let k = choose|k: int| 0 <= k < ns.len() && ns[k].id == id;
            assert(d[k].id == id);
        }
    }
}

/// `links` purged of `id`, and whether `id` was among them.
pub fn purge_links(links: &Vec<String>, id: &String) -> (r: (Vec<String>, bool))
    ensures
        strings_view(r.0@) == purge(strings_view(links@), id@),
        r.1 == links_to(strings_view(links@), id@),
{
    let ghost lv = strings_view(links@);
    let mut out: Vec<String> = Vec::new();
    let mut hit = false;
    let mut i: usize = 0;
    while i < links.len()
        invariant
            i <= links.len(),
            lv == strings_view(links@),
            strings_view(out@) == purge(lv.take(i as int), id@),
            hit == links_to(lv.take(i as int), id@),
        decreases links.len() - i,
    {
        let ghost prev = out@;
        let ghost t = lv.take(i as int + 1);
        assert(t.drop_last() =~= lv.take(i as int));
        assert(t.last() == links@[i as int]@);
        assert(links_to(t, id@) == (links_to(lv.take(i as int), id@) || t.last() == id@)) by {
            if links_to(t, id@) {
                let k = choose|k: int| 0 <= k < t.len() && t[k] == id@;
                if k < i {
                    assert(lv.take(i as int)[k] == id@);
                }
            }
            if links_to(lv.take(i as int), id@) {
                let k = choose|k: int| 0 <= k < i && lv.take(i as int)[k] == id@;
                assert(t[k] == id@);
            }
            if t.last() == id@ {
                assert(t[i as int] == id@);
            }
        }
        if links[i] == *id {
            hit = true;
        } else {
            out.push(links[i].clone());
            assert(strings_view(out@) =~= strings_view(prev).push(links@[i as int]@));
        }
        i += 1;
    }
    assert(lv.take(i as int) =~= lv);
    (out, hit)
}

/// Relies on uuid's `Uuid::new_v4` and its `Display`: a random version-4
/// identity written in hyphenated form, which is 36 characters long.
#[verifier::external_body]
fn fresh_id() -> (r: String)
    ensures
        r@.len() == 36,
{
    uuid::Uuid::new_v4().to_string()
}

/// The notes of the corpus, held in memory in store order: a snapshot of the
/// persisted records on which the engine's operations run.
pub struct NoteStore {
    notes: Vec<Node>,
}

impl View for NoteStore {
    type V = Seq<NoteView>;

    closed spec fn view(&self) -> Seq<NoteView> {
        notes_view(self.notes@)
    }
}

impl NoteStore {
    /// Identities are unique.
    pub open spec fn wf(&self) -> bool {
        ids_distinct(self@)
    }

    /// An empty store.
    pub fn new() -> (r: NoteStore)
        ensures
            r.wf(),
            r@ == Seq::<NoteView>::empty(),
    {
        let r = NoteStore { notes: Vec::new() };
        assert(r@ =~= Seq::<NoteView>::empty());
        r
    }

    /// The notes, in store order.
    pub fn notes(&self) -> (r: &Vec<Node>)
        ensures
            notes_view(r@) == self@,
    {
        &self.notes
    }

    /// The number of notes.
    pub fn len(&self) -> (r: usize)
        ensures
            r == self@.len(),
    {
        self.notes.len()
    }

    /// The position of the note `id`, if it is stored.
    pub fn find(&self, id: &str) -> (r: Option<usize>)
        ensures
            match r {
                Some(k) => k < self@.len() && self@[k as int].id == id@,
                None => !has_id(self@, id@),
            },
    {
        let key = id.to_string();
        let mut i: usize = 0;
        while i < self.notes.len()
            invariant
                i <= self.notes.len(),
                key@ == id@,
                forall|k: int| 0 <= k < i ==> self@[k].id != id@,
            decreases self.notes.len() - i,
        {
            assert(self@[i as int] == self.notes@[i as int]@);
            if self.notes[i].id == key {
                return Some(i);
            }
            i += 1;
        }
        None
    }

    /// The note `id`, if it is stored.
    pub fn get(&self, id: &str) -> (r: Option<&Node>)
        ensures
            match r {
                Some(n) => has_id(self@, id@) && n@.id == id@ && self@.contains(n@),
                None => !has_id(self@, id@),
            },
    {
        match self.find(id) {
            Some(k) => {
                assert(self@[k as int] == self.notes@[k as int]@);
                Some(&self.notes[k])
            },
            None => None,
        }
    }

    /// Stores `node`: it replaces the note with the same identity, or is
    /// added at the end.
    pub fn put(&mut self, node: Node)
        requires
            old(self).wf(),
        ensures
            final(self).wf(),
            final(self)@ == put_note(old(self)@, node@),
    {
        let ghost prev = self@;
        let ghost nv = node@;
        let key = node.id.clone();
        match self.find(key.as_str()) {
            Some(k) => {
                self.notes.set(k, node);
                proof {
                    assert forall|j: int| 0 <= j < prev.len() implies #[trigger] self@[j] == (
                        if prev[j].id == nv.id {
                            nv
                        } else {
                            prev[j]
                        }) by {
                        if j != k {
                            assert(self@[j] == prev[j]);
                        }
                    }
                    assert(self@ =~= prev.map_values(
                        |m: NoteView| if m.id == nv.id { nv } else { m },
                    ));
                }
            },
            None => {
                self.notes.push(node);
                assert(self@ =~= prev.push(nv));
            },
        }
    }

    /// Creates a note with a fresh random identity, the given title and
    /// content and no links, stores it, and returns its identity.
    pub fn add_note(&mut self, title: String, content: String) -> (r: String)
        requires
            old(self).wf(),
        ensures
            final(self).wf(),
            r@.len() == 36,
            final(self)@ == put_note(
                old(self)@,
                NoteView { id: r@, title: title@, content: content@, links: Seq::empty() },
            ),
    {
        let id = fresh_id();
        let node = Node::new(id.clone(), title, content);
        self.put(node);
        id
    }

    /// Resolves the references of `content` against the title index of the
    /// current corpus and stores the result as the link list of note `id`,
    /// replacing the one it had. Returns the new link list. The note's other
    /// fields are left as they are.
    pub fn resolve_and_persist(&mut self, id: &str, content: &str) -> (r: Result<Vec<String>, EngineError>)
        requires
            old(self).wf(),
        ensures
            final(self).wf(),
            match r {
                Ok(links) => {
                    &&& has_id(old(self)@, id@)
                    &&& strings_view(links@) == resolved(title_pairs(old(self)@), tokens_of(content@))
                    &&& final(self)@ == with_links(old(self)@, id@, strings_view(links@))
                },
                Err(e) => {
                    &&& e == EngineError::NotFound
                    &&& !has_id(old(self)@, id@)
                    &&& final(self)@ == old(self)@
                },
            },
    {
        let ghost prev = self@;
        let k = match self.find(id) {
            Some(k) => k,
            None => {
                return Err(EngineError::NotFound);
            },
        };
        let index = TitleIndex::build(&self.notes);
        let links = resolve_links(&index, content);
        proof {
            assert forall|t: Seq<char>| #[trigger] first_match(index@, t) == first_match(title_pairs(prev), t) by {
                assert(index.resolves(t) == title_target(prev, t));
            }
            lemma_resolved_agree(index@, title_pairs(prev), tokens_of(content@));
        }
        let mut n = self.notes[k].duplicate();
        n.links = copy_strings(&links);
        let ghost lv = strings_view(links@);
        self.notes.set(k, n);
        proof {
            assert forall|j: int| 0 <= j < prev.len() implies #[trigger] self@[j] == (
                if prev[j].id == id@ {
                    NoteView { id: prev[j].id, title: prev[j].title, content: prev[j].content, links: lv }
                } else {
                    prev[j]
                }) by {
                if j != k {
                    assert(self@[j] == prev[j]);
                }
            }
            assert(self@ =~= with_links(prev, id@, lv));
        }
        Ok(links)
    }

    /// Deletes note `id`, then purges `id` from the link list of every
    /// other note, keeping the order of notes and of the links left.
    /// Returns the identities of the notes whose link list was rewritten.
    pub fn delete(&mut self, id: &str) -> (r: Result<Vec<String>, EngineError>)
        requires
            old(self).wf(),
        ensures
            final(self).wf(),
            match r {
                Ok(changed) => {
                    &&& has_id(old(self)@, id@)
                    &&& final(self)@ == cascade(old(self)@, id@)
                    &&& strings_view(changed@) == rewritten(old(self)@, id@)
                },
                Err(e) => {
                    &&& e == EngineError::NotFound
                    &&& !has_id(old(self)@, id@)
                    &&& final(self)@ == old(self)@
                },
            },
    {
        let ghost prev = self@;
        if self.find(id).is_none() {
            return Err(EngineError::NotFound);
        }
        let key = id.to_string();
        let mut out: Vec<Node> = Vec::new();
        let mut changed: Vec<String> = Vec::new();
        let mut i: usize = 0;
        while i < self.notes.len()
            invariant
                i <= self.notes.len(),
                prev == self@,
                key@ == id@,
                notes_view(out@) == cascade(prev.take(i as int), id@),
                strings_view(changed@) == rewritten(prev.take(i as int), id@),
            decreases self.notes.len() - i,
        {
            let ghost pc = changed@;
            let ghost po = out@;
            let ghost t = prev.take(i as int + 1);
            assert(t.drop_last() =~= prev.take(i as int));
            assert(t.last() == self.notes@[i as int]@);
            let n = &self.notes[i];
            if !(n.id == key) {
                let (links, hit) = purge_links(&n.links, &key);
                if hit {
                    changed.push(n.id.clone());
                    assert(strings_view(changed@) =~= strings_view(pc).push(n.id@));
                }
                out.push(Node { id: n.id.clone(), title: n.title.clone(), content: n.content.clone(), links });
                assert(notes_view(out@) =~= notes_view(po).push(out@.last()@));
            }
            i += 1;
        }
        assert(prev.take(i as int) =~= prev);
        proof {
            lemma_cascade(prev, id@);
        }
        self.notes = out;
        Ok(changed)
    }
}


/// After a successful resolve-and-persist of `content` on note `id`, that
/// note's stored link list is exactly what the tokens of `content` resolve
/// to through the title index of the corpus as it was, in encounter order
/// with repeats, unresolved tokens left out; every other note is unchanged.
pub proof fn persisted_links_follow_index(
    before: Seq<NoteView>,
    after: Seq<NoteView>,
    id: Seq<char>,
    content: Seq<char>,
    links: Seq<Seq<char>>,
    index: TitleIndex,
)
    requires
        index.indexes(before),
        links == resolved(title_pairs(before), tokens_of(content)),
        after == with_links(before, id, links),
    ensures
        after.len() == before.len(),
        forall|k: int| 0 <= k < after.len() && after[k].id == id ==> #[trigger] after[k].links == resolved(
            index@,
            tokens_of(content),
        ),
        forall|k: int| 0 <= k < after.len() && after[k].id != id ==> #[trigger] after[k] == before[k],
{
    assert forall|t: Seq<char>| #[trigger] first_match(index@, t) == first_match(title_pairs(before), t) by {
        assert(index.resolves(t) == title_target(before, t));
    }
    lemma_resolved_agree(index@, title_pairs(before), tokens_of(content));
}

} // verus!
