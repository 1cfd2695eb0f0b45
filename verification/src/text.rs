//! Strings as sequences of characters: comparison, search in a list, joining.
//!
//! Every contract in this crate speaks of a string through its view, a
//! `Seq<char>`, and of a list of strings through [`texts`].

use vstd::prelude::*;
use vstd::utf8::*;

verus! {

/// The views of the strings of a list, in order.
pub open spec fn texts(list: Seq<String>) -> Seq<Seq<char>> {
    list.map_values(|s: String| s@)
}

/// The view of a string that may be missing.
pub open spec fn text_of(s: Option<String>) -> Option<Seq<char>> {
    match s {
        Some(s) => Some(s@),
        None => None,
    }
}

/// Whether two strings hold the same characters.
///
/// Compared byte by byte; two strings with the same encoding are the same
/// sequence of characters, since decoding undoes encoding.
pub(crate) fn same_text(a: &str, b: &str) -> (r: bool)
    ensures
        r == (a@ == b@),
{
    let x = a.as_bytes();
    let y = b.as_bytes();
    proof {
        encode_utf8_decode_utf8(a@);
        encode_utf8_decode_utf8(b@);
    }
    if x.len() != y.len() {
        return false;
    }
    let n = x.len();
    let mut i: usize = 0;
    while i < n
        invariant
            i <= n,
            n == x@.len(),
            n == y@.len(),
            x@ == encode_utf8(a@),
            y@ == encode_utf8(b@),
            decode_utf8(encode_utf8(a@)) == a@,
            decode_utf8(encode_utf8(b@)) == b@,
            forall|k: int| 0 <= k < i ==> x@[k] == y@[k],
        decreases n - i,
    {
        if x[i] != y[i] {
            return false;
        }
        i += 1;
    }
    assert(x@ =~= y@);
    true
}

/// The first place at which `needle` stands in `list`, if it stands there.
pub(crate) fn position_of(list: &Vec<String>, needle: &str) -> (r: Option<usize>)
    ensures
        match r {
            Some(i) => {
                &&& i < list@.len()
                &&& list@[i as int]@ == needle@
                &&& forall|k: int| 0 <= k < i ==> list@[k]@ != needle@
            },
            None => !texts(list@).contains(needle@),
        },
        r is Some <==> texts(list@).contains(needle@),
{
    let mut i: usize = 0;
    while i < list.len()
        invariant
            i <= list@.len(),
            forall|k: int| 0 <= k < i ==> list@[k]@ != needle@,
        decreases list@.len() - i,
    {
        if same_text(list[i].as_str(), needle) {
            assert(texts(list@)[i as int] == needle@);
            return Some(i);
        }
        i += 1;
    }
    assert forall|k: int| 0 <= k < texts(list@).len() implies texts(list@)[k] != needle@ by {
        assert(texts(list@)[k] == list@[k]@);
    }
    None
}

/// A copy of `list`, string by string.
pub(crate) fn copy_of(list: &Vec<String>) -> (r: Vec<String>)
    ensures
        r@ == list@,
{
    let mut out: Vec<String> = Vec::new();
    let mut i: usize = 0;
    while i < list.len()
        invariant
            i <= list@.len(),
            out@ == list@.take(i as int),
        decreases list@.len() - i,
    {
        out.push(list[i].clone());
        assert(list@.take(i + 1) =~= list@.take(i as int).push(list@[i as int]));
        i += 1;
    }
    assert(list@.take(list@.len() as int) =~= list@);
    out
}

/// The predicate "is another text than `x`".
pub open spec fn other_than(x: Seq<char>) -> spec_fn(Seq<char>) -> bool {
    |y: Seq<char>| y != x
}

/// What stays of a list after `x` is taken out: every other member, and
/// nothing twice that did not stand twice before.
pub proof fn lemma_without(list: Seq<Seq<char>>, x: Seq<char>)
    ensures
        forall|y: Seq<char>|
            list.filter(other_than(x)).contains(y) <==> list.contains(y) && y != x,
        list.no_duplicates() ==> list.filter(other_than(x)).no_duplicates(),
        !list.contains(x) ==> list.filter(other_than(x)) == list,
    decreases list.len(),
{
    reveal(Seq::filter);
    let keep = other_than(x);
    if list.len() > 0 {
        let front = list.drop_last();
        let last = list.last();
        lemma_without(front, x);
        assert(list =~= front.push(last));
        front.lemma_filter_push(last, keep);
        assert forall|y: Seq<char>| list.filter(keep).contains(y) <==> list.contains(y) && y
            != x by {
            if list.contains(y) {
                let i = choose|i: int| 0 <= i < list.len() && list[i] == y;
                if i < front.len() {
                    assert(front[i] == y);
                }
            }
            if front.contains(y) {
                let i = choose|i: int| 0 <= i < front.len() && front[i] == y;
                assert(list[i] == y);
            }
            if list.filter(keep).contains(y) {
                let out = list.filter(keep);
                let i = choose|i: int| 0 <= i < out.len() && out[i] == y;
                if keep(last) && i == out.len() - 1 {
                    assert(y == last);
                    assert(list[list.len() - 1] == y);
                } else {
                    assert(front.filter(keep)[i] == y);
                }
            }
            if list.contains(y) && y != x {
                if front.contains(y) {
                    let out = front.filter(keep);
                    let i = choose|i: int| 0 <= i < out.len() && out[i] == y;
                    assert(list.filter(keep)[i] == y);
                } else {
                    assert(y == last);
                    let out = list.filter(keep);
                    assert(out[out.len() - 1] == y);
                }
            }
        }
        if list.no_duplicates() {
            assert(front.no_duplicates());
            let out = front.filter(keep);
            if keep(last) {
                assert(!front.contains(last)) by {
                    if front.contains(last) {
                        let i = choose|i: int| 0 <= i < front.len() && front[i] == last;
                        assert(list[i] == list[list.len() - 1]);
                    }
                }
                assert(out.contains(last) <==> front.contains(last) && last != x);
                assert forall|i: int, j: int|
                    0 <= i < out.len() + 1 && 0 <= j < out.len() + 1 && i != j implies out.push(
                    last,
                )[i] != out.push(last)[j] by {
                    if i == out.len() {
                        assert(out.contains(out[j]));
                    } else if j == out.len() {
                        assert(out.contains(out[i]));
                    }
                }
            }
        }
        if !list.contains(x) {
            assert(!front.contains(x)) by {
                if front.contains(x) {
                    let i = choose|i: int| 0 <= i < front.len() && front[i] == x;
                    assert(list[i] == x);
                }
            }
            assert(list[list.len() - 1] != x);
        }
    }
}

/// `list` without the strings that read `needle`, the rest in order.
pub(crate) fn without_text(list: Vec<String>, needle: &str) -> (r: Vec<String>)
    ensures
        texts(r@) == texts(list@).filter(other_than(needle@)),
{
    let mut out: Vec<String> = Vec::new();
    let ghost all = list@;
    for s in it: list
        invariant
            it.seq() == all,
            texts(out@) == texts(all.take(it.index())).filter(other_than(needle@)),
    {
        let ghost k = it.index();
        proof {
            assert(all.take(k + 1) =~= all.take(k).push(s));
            assert(texts(all.take(k).push(s)) =~= texts(all.take(k)).push(s@));
            texts(all.take(k)).lemma_filter_push(s@, other_than(needle@));
        }
        if !same_text(s.as_str(), needle) {
            let ghost before = out@;
            out.push(s);
            assert(texts(before.push(s)) =~= texts(before).push(s@));
        }
    }
    assert(all.take(all.len() as int) =~= all);
    out
}

/// The text `prefix` followed by `rest`.
pub(crate) fn joined(prefix: &str, rest: &str) -> (r: String)
    ensures
        r@ == prefix@ + rest@,
{
    let mut out = prefix.to_string();
    out.append(rest);
    out
}

} // verus!
