use vstd::prelude::*;

verus! {

/// A stored note: its identity, its title, its content and the identities
/// that its content links to.
#[derive(Clone, Debug)]
pub struct Node {
    pub id: String,
    pub title: String,
    pub content: String,
    pub links: Vec<String>,
}

/// The mathematical value of a note.
pub struct NoteView {
    pub id: Seq<char>,
    pub title: Seq<char>,
    pub content: Seq<char>,
    pub links: Seq<Seq<char>>,
}

/// The character sequences held by a sequence of strings.
pub open spec fn strings_view(v: Seq<String>) -> Seq<Seq<char>> {
    v.map_values(|s: String| s@)
}

impl View for Node {
    type V = NoteView;

    open spec fn view(&self) -> NoteView {
        NoteView {
            id: self.id@,
            title: self.title@,
            content: self.content@,
            links: strings_view(self.links@),
        }
    }
}

/// The values of a sequence of notes.
pub open spec fn notes_view(v: Seq<Node>) -> Seq<NoteView> {
    v.map_values(|n: Node| n@)
}

/// A copy of a list of strings, element by element.
pub fn copy_strings(v: &Vec<String>) -> (r: Vec<String>)
    ensures
        r@ == v@,
{
    let mut r: Vec<String> = Vec::new();
    let mut i: usize = 0;
    while i < v.len()
        invariant
            i <= v.len(),
            r@ == v@.take(i as int),
        decreases v.len() - i,
    {
        r.push(v[i].clone());
        assert(r@ =~= v@.take(i as int + 1));
        i += 1;
    }
    assert(r@ =~= v@);
    r
}

impl Node {
    /// A fresh note with the given identity, title and content and no links.
    pub fn new(id: String, title: String, content: String) -> (r: Node)
        ensures
            r.id == id,
            r.title == title,
            r.content == content,
            r.links@.len() == 0,
            r@.links == Seq::<Seq<char>>::empty(),
    {
        let r = Node { id, title, content, links: Vec::<String>::new() };
        assert(r@.links =~= Seq::<Seq<char>>::empty());
        r
    }

    /// A copy of this note, field by field.
    pub fn duplicate(&self) -> (r: Node)
        ensures
            r.id == self.id,
            r.title == self.title,
            r.content == self.content,
            r.links@ == self.links@,
            r@ == self@,
    {
        Node {
            id: self.id.clone(),
            title: self.title.clone(),
            content: self.content.clone(),
            links: copy_strings(&self.links),
        }
    }
}

} // verus!
