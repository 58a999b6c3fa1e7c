use vstd::prelude::*;
use vstd::string::*;
use vstd::std_specs::iter::IteratorSpec;
use crate::node::strings_view;

verus! {

broadcast use vstd::string::group_string_axioms;

/// `s` holds an opening pair `[[` at position `i`.
pub open spec fn opens_at(s: Seq<char>, i: int) -> bool {
    0 <= i && i + 1 < s.len() && s[i] == '[' && s[i + 1] == '['
}

/// `s` holds a closing pair `]]` at position `j`.
pub open spec fn closes_at(s: Seq<char>, j: int) -> bool {
    0 <= j && j + 1 < s.len() && s[j] == ']' && s[j + 1] == ']'
}

/// The first position at or after `j` where a closing pair stands, if any.
pub open spec fn first_close(s: Seq<char>, j: int) -> Option<int>
    decreases s.len() - j,
{
    if j < 0 || j + 1 >= s.len() {
        None
    } else if closes_at(s, j) {
        Some(j)
    } else {
        first_close(s, j + 1)
    }
}

/// The reference tokens of `s` found from position `i` on: each opening pair
/// is closed by the first closing pair after it, and the text between them is
/// the token; an opening pair that is never closed ends the scan.
pub open spec fn tokens_from(s: Seq<char>, i: int) -> Seq<Seq<char>>
    decreases s.len() - i,
{
    if i < 0 || i + 1 >= s.len() {
        Seq::empty()
    } else if opens_at(s, i) {
        match first_close(s, i + 2) {
            Some(j) => if i + 2 <= j && closes_at(s, j) {
                seq![s.subrange(i + 2, j)] + tokens_from(s, j + 2)
            } else {
                Seq::empty()
            },
            None => Seq::empty(),
        }
    } else {
        tokens_from(s, i + 1)
    }
}

/// The reference tokens of `s`, in the order in which they appear.
pub open spec fn tokens_of(s: Seq<char>) -> Seq<Seq<char>> {
    tokens_from(s, 0)
}

proof fn lemma_first_close_bounds(s: Seq<char>, j: int)
    ensures
        match first_close(s, j) {
            Some(k) => j <= k && closes_at(s, k),
            None => true,
        },
    decreases s.len() - j,
{
    if j < 0 || j + 1 >= s.len() {
    } else if closes_at(s, j) {
    } else {
        lemma_first_close_bounds(s, j + 1);
    }
}

/// The characters of `s`, one by one.
fn chars_of(s: &str) -> (r: Vec<char>)
    ensures
        r@ == s@,
{
    let mut r: Vec<char> = Vec::new();
    for c in it: s.chars()
        invariant
            r@ == it.seq().take(it.index() as int),
    {
        r.push(c);
    }
    r
}

/// The reference tokens of `content`, in the order in which they appear.
/// A token is the text between an opening pair `[[` and the first closing
/// pair `]]` after it; it may be empty. Brackets that are never closed give
/// no token.
pub fn extract(content: &str) -> (r: Vec<String>)
    ensures
        strings_view(r@) == tokens_of(content@),
{
    let cs = chars_of(content);
    let ghost s = content@;
    let n = cs.len();
    let mut out: Vec<String> = Vec::new();
    let mut i: usize = 0;
    while n >= 2 && i < n - 1
        invariant
            cs@ == s,
            s == content@,
            n == s.len(),
            i <= n,
            strings_view(out@) + tokens_from(s, i as int) == tokens_of(s),
        decreases n - i,
    {
        if cs[i] == '[' && cs[i + 1] == '[' {
            proof {
                lemma_first_close_bounds(s, i + 2);
            }
            let mut j: usize = i + 2;
            while j < n - 1 && !(cs[j] == ']' && cs[j + 1] == ']')
                invariant
                    cs@ == s,
                    s == content@,
                    n == s.len(),
                    i + 2 <= j <= n,
                    n >= 2,
                    first_close(s, i + 2) == first_close(s, j as int),
                decreases n - j,
            {
                j += 1;
            }
            if j < n - 1 {
                assert(first_close(s, j as int) == Some(j as int));
                let ghost prev = out@;
                let tok = content.substring_char(i + 2, j);
                let t = tok.to_string();
                assert(t@ == s.subrange(i + 2, j as int));
                out.push(t);
                proof {
                    assert(out@ =~= prev.push(t));
                    assert(strings_view(out@) =~= strings_view(prev).push(t@));
                    assert(tokens_from(s, i as int) =~= seq![t@] + tokens_from(s, j + 2));
                    assert(strings_view(out@) + tokens_from(s, j + 2) =~= strings_view(prev)
                        + tokens_from(s, i as int));
                }
                i = j + 2;
            } else {
                assert(first_close(s, j as int) is None);
                assert(tokens_from(s, i as int) =~= Seq::<Seq<char>>::empty());
                assert(strings_view(out@) =~= tokens_of(s));
                return out;
            }
        } else {
            i += 1;
        }
    }
    assert(tokens_from(s, i as int) =~= Seq::<Seq<char>>::empty());
    assert(strings_view(out@) + tokens_from(s, i as int) =~= strings_view(out@));
    out
}


/// Extraction is repeatable: two extractions of equal content give the same
/// token sequence.
pub proof fn extract_repeatable(a: &str, b: &str, ra: Vec<String>, rb: Vec<String>)
    requires
        a@ == b@,
        strings_view(ra@) == tokens_of(a@),
        strings_view(rb@) == tokens_of(b@),
    ensures
        strings_view(ra@) == strings_view(rb@),
{
}

} // verus!
