use vstd::prelude::*;
use crate::node::strings_view;
use crate::extract::{extract, tokens_of};
use crate::index::{TitleIndex, first_match};

verus! {

/// The identities that `toks` resolve to through the (title, identity) pairs
/// `pairs`, in the order of the tokens, repeats kept and unresolved tokens
/// left out.
pub open spec fn resolved(pairs: Seq<(Seq<char>, Seq<char>)>, toks: Seq<Seq<char>>) -> Seq<Seq<char>>
    decreases toks.len(),
{
    if toks.len() == 0 {
        Seq::empty()
    } else {
        let r = resolved(pairs, toks.drop_last());
        match first_match(pairs, toks.last()) {
            Some(id) => r.push(id),
            None => r,
        }
    }
}

/// Two pair lists that resolve every title alike resolve every token list alike.
pub proof fn lemma_resolved_agree(
    p: Seq<(Seq<char>, Seq<char>)>,
    q: Seq<(Seq<char>, Seq<char>)>,
    toks: Seq<Seq<char>>,
)
    requires
        forall|t: Seq<char>| #[trigger] first_match(p, t) == first_match(q, t),
    ensures
        resolved(p, toks) == resolved(q, toks),
    decreases toks.len(),
{
    if toks.len() > 0 {
        lemma_resolved_agree(p, q, toks.drop_last());
        assert(first_match(p, toks.last()) == first_match(q, toks.last()));
    }
}

/// The identities that the reference tokens of `content` resolve to through
/// `index`, in encounter order, with repeats kept and unresolved tokens
/// dropped.
pub fn resolve_links(index: &TitleIndex, content: &str) -> (r: Vec<String>)
    ensures
        strings_view(r@) == resolved(index@, tokens_of(content@)),
{
    let toks = extract(content);
    let ghost tv = strings_view(toks@);
    let mut r: Vec<String> = Vec::new();
    let mut i: usize = 0;
    while i < toks.len()
        invariant
            i <= toks.len(),
            tv == strings_view(toks@),
            tv == tokens_of(content@),
            strings_view(r@) == resolved(index@, tv.take(i as int)),
        decreases toks.len() - i,
    {
        let ghost prev = r@;
        assert(tv.take(i as int + 1).drop_last() =~= tv.take(i as int));
        assert(tv[i as int] == toks@[i as int]@);
        match index.lookup(&toks[i]) {
            Some(id) => {
                r.push(id);
                assert(strings_view(r@) =~= strings_view(prev).push(id@));
            },
            None => {},
        }
        i += 1;
    }
    assert(tv.take(i as int) =~= tv);
    r
}

} // verus!
