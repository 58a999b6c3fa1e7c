use vstd::prelude::*;
use crate::node::{Node, NoteView, notes_view};

verus! {

/// Pairs of (title, identity), one per note, in store order.
pub open spec fn title_pairs(notes: Seq<NoteView>) -> Seq<(Seq<char>, Seq<char>)> {
    notes.map_values(|n: NoteView| (n.title, n.id))
}

/// The identity paired with the first occurrence of title `t`, if any.
pub open spec fn first_match(pairs: Seq<(Seq<char>, Seq<char>)>, t: Seq<char>) -> Option<Seq<char>>
    decreases pairs.len(),
{
    if pairs.len() == 0 {
        None
    } else {
        match first_match(pairs.drop_last(), t) {
            Some(v) => Some(v),
            None => if pairs.last().0 == t {
                Some(pairs.last().1)
            } else {
                None
            },
        }
    }
}

/// The identity that title `t` resolves to in a corpus: that of the first
/// note in store order that carries the title.
pub open spec fn title_target(notes: Seq<NoteView>, t: Seq<char>) -> Option<Seq<char>> {
    first_match(title_pairs(notes), t)
}

pub proof fn lemma_first_match_none(pairs: Seq<(Seq<char>, Seq<char>)>, t: Seq<char>)
    ensures
        first_match(pairs, t) is None <==> (forall|k: int| 0 <= k < pairs.len() ==> pairs[k].0 != t),
    decreases pairs.len(),
{
    if pairs.len() > 0 {
        lemma_first_match_none(pairs.drop_last(), t);
        assert forall|k: int| 0 <= k < pairs.len() - 1 implies pairs.drop_last()[k] == pairs[k] by {}
    }
}

pub proof fn lemma_first_match_prefix(pairs: Seq<(Seq<char>, Seq<char>)>, i: int, t: Seq<char>)
    requires
        0 <= i <= pairs.len(),
        first_match(pairs.take(i), t) is Some,
    ensures
        first_match(pairs, t) == first_match(pairs.take(i), t),
    decreases pairs.len(),
{
    if i == pairs.len() {
        assert(pairs.take(i) =~= pairs);
    } else {
        assert(pairs.drop_last().take(i) =~= pairs.take(i));
        lemma_first_match_prefix(pairs.drop_last(), i, t);
    }
}

/// The title index of a corpus: for each title, the identity of the first
/// note in store order that carries it. Each title is held once.
pub struct TitleIndex {
    entries: Vec<(String, String)>,
}

impl View for TitleIndex {
    type V = Seq<(Seq<char>, Seq<char>)>;

    closed spec fn view(&self) -> Seq<(Seq<char>, Seq<char>)> {
        self.entries@.map_values(|p: (String, String)| (p.0@, p.1@))
    }
}

impl TitleIndex {
    /// No title is held twice.
    pub open spec fn wf(&self) -> bool {
        forall|j: int, k: int| 0 <= j < k < self@.len() ==> self@[j].0 != self@[k].0
    }

    /// The identity that title `t` maps to, if any.
    pub open spec fn resolves(&self, t: Seq<char>) -> Option<Seq<char>> {
        first_match(self@, t)
    }

    /// This index maps every title exactly as the corpus `notes` resolves it.
    pub open spec fn indexes(&self, notes: Seq<NoteView>) -> bool {
        &&& self.wf()
        &&& forall|t: Seq<char>| #[trigger] self.resolves(t) == title_target(notes, t)
    }

    /// Builds the index of `notes` in one pass, the first note with a title
    /// taking it.
    pub fn build(notes: &Vec<Node>) -> (r: TitleIndex)
        ensures
            r.indexes(notes_view(notes@)),
    {
        let ghost tp = title_pairs(notes_view(notes@));
        let mut r = TitleIndex { entries: Vec::new() };
        let mut i: usize = 0;
        while i < notes.len()
            invariant
                i <= notes.len(),
                tp == title_pairs(notes_view(notes@)),
                r.wf(),
                forall|t: Seq<char>| #[trigger] first_match(r@, t) == first_match(tp.take(i as int), t),
            decreases notes.len() - i,
        {
            let ghost prev = r@;
            let title = &notes[i].title;
            let found = r.lookup(title);
            assert(tp.take(i as int + 1).drop_last() =~= tp.take(i as int));
            assert(tp[i as int] == (notes[i as int].title@, notes[i as int].id@));
            if found.is_none() {
                let p = (title.clone(), notes[i].id.clone());
                r.entries.push(p);
                proof {
                    assert(r@ =~= prev.push((title@, notes[i as int].id@)));
                    assert(r@.drop_last() =~= prev);
                    lemma_first_match_none(prev, title@);
                    assert forall|t: Seq<char>| #[trigger] first_match(r@, t) == first_match(
                        tp.take(i as int + 1),
                        t,
                    ) by {
                        assert(first_match(prev, t) == first_match(tp.take(i as int), t));
                    }
                }
            } else {
                assert forall|t: Seq<char>| #[trigger] first_match(r@, t) == first_match(
                    tp.take(i as int + 1),
                    t,
                ) by {}
            }
            i += 1;
        }
        assert(tp.take(i as int) =~= tp);
        r
    }

    /// The identity that `title` maps to, if any.
    pub fn lookup(&self, title: &String) -> (r: Option<String>)
        ensures
            match r {
                Some(id) => self.resolves(title@) == Some(id@),
                None => self.resolves(title@) is None,
            },
    {
        let ghost v = self@;
        let mut i: usize = 0;
        while i < self.entries.len()
            invariant
                i <= self.entries.len(),
                v == self@,
                v.len() == self.entries@.len(),
                forall|k: int| 0 <= k < i ==> v[k].0 != title@,
            decreases self.entries.len() - i,
        {
            assert(v[i as int] == (self.entries@[i as int].0@, self.entries@[i as int].1@));
            if self.entries[i].0 == *title {
                proof {
                    let p = v.take(i as int + 1);
                    assert(p.drop_last() =~= v.take(i as int));
                    lemma_first_match_none(v.take(i as int), title@);
                    lemma_first_match_prefix(v, i as int + 1, title@);
                }
                return Some(self.entries[i].1.clone());
            }
            i += 1;
        }
        proof {
            lemma_first_match_none(v, title@);
        }
        None
    }
}


/// Rebuilding the index of an unchanged corpus maps every title to the same
/// identity as before.
pub proof fn index_rebuild_stable(notes: Seq<NoteView>, a: TitleIndex, b: TitleIndex)
    requires
        a.indexes(notes),
        b.indexes(notes),
    ensures
        forall|t: Seq<char>| #[trigger] a.resolves(t) == b.resolves(t),
{
    assert forall|t: Seq<char>| #[trigger] a.resolves(t) == b.resolves(t) by {
        assert(a.resolves(t) == title_target(notes, t));
        assert(b.resolves(t) == title_target(notes, t));
    }
}

} // verus!
