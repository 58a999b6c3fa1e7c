use brainbox::extract::extract;
use brainbox::graph::{note_edge_list, MyGraph};
use brainbox::index::TitleIndex;
use brainbox::node::{copy_strings, Node};
use brainbox::resolve::resolve_links;
use brainbox::store::{purge_links, EngineError, NoteStore};

fn s(x: &str) -> String {
    x.to_string()
}

fn note(id: &str, title: &str, content: &str) -> Node {
    Node::new(s(id), s(title), s(content))
}

fn alpha_beta() -> NoteStore {
    let mut st = NoteStore::new();
    st.put(note("a", "Alpha", "see [[Beta]]"));
    st.put(note("b", "Beta", ""));
    st
}

fn links_of(st: &NoteStore, id: &str) -> Vec<String> {
    st.get(id).expect("note is stored").links.clone()
}

fn edges_of(g: &MyGraph) -> Vec<(usize, usize)> {
    (0..g.edge_count()).map(|e| g.edge(e)).collect()
}

#[test]
fn node_new_has_no_links() {
    let n = note("x", "Title", "body");
    assert_eq!(n.id, "x");
    assert_eq!(n.title, "Title");
    assert_eq!(n.content, "body");
    assert!(n.links.is_empty());
    let d = n.duplicate();
    assert_eq!(d.id, n.id);
    assert_eq!(d.links, n.links);
}

#[test]
fn copy_strings_keeps_order() {
    let v = vec![s("b"), s("a"), s("b")];
    assert_eq!(copy_strings(&v), v);
}

#[test]
fn extract_finds_tokens_in_order() {
    assert_eq!(extract("see [[Beta]] and [[Gamma Ray]]."), vec![s("Beta"), s("Gamma Ray")]);
}

#[test]
fn extract_empty_content() {
    assert!(extract("").is_empty());
    assert!(extract("no links here").is_empty());
}

#[test]
fn extract_empty_token_is_kept() {
    assert_eq!(extract("[[]]"), vec![s("")]);
}

#[test]
fn extract_unclosed_gives_nothing() {
    assert!(extract("[[open but never closed").is_empty());
    assert_eq!(extract("[[a]] then [[b"), vec![s("a")]);
    assert!(extract("[single] ]] [").is_empty());
}

#[test]
fn extract_first_close_ends_token() {
    assert_eq!(extract("[[a]]]]"), vec![s("a")]);
    assert_eq!(extract("[[[x]]"), vec![s("[x")]);
    assert_eq!(extract("[[a [[b]] c]]"), vec![s("a [[b")]);
}

#[test]
fn extract_non_ascii() {
    assert_eq!(extract("é[[Zürich]]ß[[日本]]"), vec![s("Zürich"), s("日本")]);
}

#[test]
fn extract_is_repeatable_on_same_content() {
    let c = "x [[One]] y [[Two]] [[One]] [[";
    assert_eq!(extract(c), extract(c));
}

#[test]
fn index_first_title_wins() {
    let notes = vec![note("1", "Dup", ""), note("2", "Other", ""), note("3", "Dup", "")];
    let idx = TitleIndex::build(&notes);
    assert_eq!(idx.lookup(&s("Dup")), Some(s("1")));
    assert_eq!(idx.lookup(&s("Other")), Some(s("2")));
    assert_eq!(idx.lookup(&s("Missing")), None);
}

#[test]
fn index_rebuild_is_stable() {
    let notes = vec![note("1", "A", ""), note("2", "B", ""), note("3", "A", "")];
    let a = TitleIndex::build(&notes);
    let b = TitleIndex::build(&notes);
    for t in ["A", "B", "C", ""] {
        assert_eq!(a.lookup(&s(t)), b.lookup(&s(t)));
    }
}

#[test]
fn resolve_links_drops_unresolved_and_keeps_repeats() {
    let notes = vec![note("1", "A", ""), note("2", "B", "")];
    let idx = TitleIndex::build(&notes);
    assert_eq!(resolve_links(&idx, "[[B]] [[X]] [[A]] [[B]]"), vec![s("2"), s("1"), s("2")]);
}

#[test]
fn scenario_alpha_beta_delete_cascades() {
    let mut st = alpha_beta();
    let links = st.resolve_and_persist("a", "see [[Beta]]").unwrap();
    assert_eq!(links, vec![s("b")]);
    assert_eq!(links_of(&st, "a"), vec![s("b")]);
    let g = MyGraph::new(&st).unwrap();
    assert_eq!(g.vertex_count(), 2);
    assert_eq!(g.edge_count(), 1);
    let (from, to) = g.edge(0);
    assert_eq!(g.vertex_id(from), "a");
    assert_eq!(g.vertex_id(to), "b");
    let changed = st.delete("b").unwrap();
    assert_eq!(changed, vec![s("a")]);
    assert!(links_of(&st, "a").is_empty());
    assert!(st.get("b").is_none());
    let g2 = MyGraph::new(&st).unwrap();
    assert_eq!(g2.vertex_count(), 1);
    assert_eq!(g2.edge_count(), 0);
}

#[test]
fn scenario_unknown_title_resolves_to_nothing() {
    let mut st = alpha_beta();
    let links = st.resolve_and_persist("a", "[[Unknown Title]]").unwrap();
    assert!(links.is_empty());
    assert!(links_of(&st, "a").is_empty());
}

#[test]
fn scenario_duplicate_references_kept() {
    let mut st = alpha_beta();
    let links = st.resolve_and_persist("a", "[[Beta]] and [[Beta]]").unwrap();
    assert_eq!(links, vec![s("b"), s("b")]);
    assert_eq!(links_of(&st, "a"), vec![s("b"), s("b")]);
}

#[test]
fn resolve_replaces_previous_links() {
    let mut st = alpha_beta();
    st.resolve_and_persist("a", "[[Beta]] [[Alpha]]").unwrap();
    assert_eq!(links_of(&st, "a"), vec![s("b"), s("a")]);
    st.resolve_and_persist("a", "only [[Alpha]]").unwrap();
    assert_eq!(links_of(&st, "a"), vec![s("a")]);
    assert_eq!(st.get("a").unwrap().content, "see [[Beta]]");
}

#[test]
fn resolve_unknown_note_is_not_found() {
    let mut st = alpha_beta();
    assert_eq!(st.resolve_and_persist("zzz", "[[Beta]]"), Err(EngineError::NotFound));
    assert!(links_of(&st, "a").is_empty());
    assert_eq!(st.len(), 2);
}

#[test]
fn delete_unknown_note_is_not_found() {
    let mut st = alpha_beta();
    assert_eq!(st.delete("zzz"), Err(EngineError::NotFound));
    assert_eq!(st.len(), 2);
}

#[test]
fn delete_keeps_order_of_remaining_links() {
    let mut st = NoteStore::new();
    st.put(note("a", "A", ""));
    st.put(note("b", "B", ""));
    st.put(note("c", "C", ""));
    st.resolve_and_persist("a", "[[B]] [[C]] [[B]] [[A]]").unwrap();
    st.resolve_and_persist("c", "[[A]]").unwrap();
    let changed = st.delete("b").unwrap();
    assert_eq!(changed, vec![s("a")]);
    assert_eq!(links_of(&st, "a"), vec![s("c"), s("a")]);
    assert_eq!(links_of(&st, "c"), vec![s("a")]);
    let ids: Vec<String> = st.notes().iter().map(|n| n.id.clone()).collect();
    assert_eq!(ids, vec![s("a"), s("c")]);
    let g = MyGraph::new(&st).unwrap();
    for (x, y) in edges_of(&g) {
        assert_ne!(g.vertex_id(x), "b");
        assert_ne!(g.vertex_id(y), "b");
    }
}

#[test]
fn purge_links_reports_hit() {
    let v = vec![s("x"), s("y"), s("x")];
    assert_eq!(purge_links(&v, &s("x")), (vec![s("y")], true));
    assert_eq!(purge_links(&v, &s("z")), (v.clone(), false));
}

#[test]
fn put_replaces_same_identity() {
    let mut st = alpha_beta();
    st.put(note("a", "Alpha 2", "new"));
    assert_eq!(st.len(), 2);
    assert_eq!(st.get("a").unwrap().title, "Alpha 2");
    assert_eq!(st.find("b"), Some(1));
    assert_eq!(st.find("q"), None);
}

#[test]
fn add_note_gives_fresh_identity() {
    let mut st = NoteStore::new();
    let a = st.add_note(s("New Note"), String::new());
    let b = st.add_note(s("New Note"), String::new());
    assert_eq!(a.chars().count(), 36);
    assert_ne!(a, b);
    assert_eq!(st.len(), 2);
    assert_eq!(st.get(&a).unwrap().title, "New Note");
}

#[test]
fn graph_labels_and_edges() {
    let mut st = NoteStore::new();
    st.put(note("a", "Alpha", ""));
    st.put(note("b", "Beta", ""));
    st.put(note("c", "Gamma", ""));
    st.resolve_and_persist("a", "[[Gamma]] [[Beta]]").unwrap();
    st.resolve_and_persist("c", "[[Alpha]] [[Nope]]").unwrap();
    let g = MyGraph::new(&st).unwrap();
    assert_eq!(g.vertex_label(0), "Alpha");
    assert_eq!(g.vertex_label(1), "Beta");
    assert_eq!(g.vertex_label(2), "Gamma");
    assert_eq!(edges_of(&g), vec![(0, 2), (0, 1), (2, 0)]);
    assert_eq!(note_edge_list(&st), vec![(0, 2), (0, 1), (2, 0)]);
    assert_eq!(g.graph().node_count(), 3);
}

#[test]
fn graph_skips_links_to_missing_notes() {
    let mut st = NoteStore::new();
    let mut a = note("a", "A", "");
    a.links = vec![s("gone"), s("a")];
    st.put(a);
    let g = MyGraph::new(&st).unwrap();
    assert_eq!(edges_of(&g), vec![(0, 0)]);
}

#[test]
fn graph_rebuild_twice_is_identical() {
    let mut st = alpha_beta();
    st.resolve_and_persist("a", "[[Beta]] [[Alpha]]").unwrap();
    let g1 = MyGraph::new(&st).unwrap();
    let mut g2 = MyGraph::new(&NoteStore::new()).unwrap();
    assert_eq!(g2.vertex_count(), 0);
    g2.update(&st).unwrap();
    assert_eq!(edges_of(&g1), edges_of(&g2));
    assert_eq!(g1.vertex_count(), g2.vertex_count());
    for i in 0..g1.vertex_count() {
        assert_eq!(g1.vertex_id(i), g2.vertex_id(i));
        assert_eq!(g1.vertex_label(i), g2.vertex_label(i));
    }
}
