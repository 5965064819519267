//! Comma-joined lists of names, as the package databases store them.

use vstd::prelude::*;
use vstd::string::*;
use vstd::std_specs::iter::IteratorSpec;

verus! {

/// The texts of a vector of strings.
pub open spec fn views(v: Seq<String>) -> Seq<Seq<char>> {
    Seq::new(v.len(), |i: int| v[i]@)
}

/// The pieces of `s` between its separators: one more piece than there are
/// separators.
pub open spec fn pieces(s: Seq<char>, sep: char) -> Seq<Seq<char>>
    decreases s.len(),
{
    if s.len() == 0 {
        seq![Seq::<char>::empty()]
    } else {
        let init = pieces(s.drop_last(), sep);
        if s.last() == sep {
            init.push(Seq::<char>::empty())
        } else {
            init.drop_last().push(init.last().push(s.last()))
        }
    }
}

/// The pieces of `s` between its commas.
pub open spec fn split(s: Seq<char>) -> Seq<Seq<char>> {
    pieces(s, ',')
}

/// The entries of a stored list: none for the empty text, else its pieces.
pub open spec fn entries(s: Seq<char>) -> Seq<Seq<char>> {
    if s.len() == 0 {
        Seq::<Seq<char>>::empty()
    } else {
        split(s)
    }
}

/// The names written one after the other with a comma between neighbours.
pub open spec fn join(names: Seq<Seq<char>>) -> Seq<char>
    decreases names.len(),
{
    if names.len() == 0 {
        Seq::<char>::empty()
    } else if names.len() == 1 {
        names[0]
    } else {
        join(names.drop_last()) + seq![','] + names.last()
    }
}

/// `split` never yields an empty list.
pub proof fn lemma_split_nonempty(s: Seq<char>)
    ensures
        pieces(s, ',').len() >= 1,
    decreases s.len(),
{
    if s.len() > 0 {
        lemma_split_nonempty(s.drop_last());
    }
}

/// Joining the pieces of a text gives the text back.
pub proof fn lemma_join_split(s: Seq<char>)
    ensures
        join(split(s)) == s,
    decreases s.len(),
{
    if s.len() == 0 {
        assert(join(split(s)) =~= s);
    } else {
        let init = pieces(s.drop_last(), ',');
        lemma_split_nonempty(s.drop_last());
        lemma_join_split(s.drop_last());
        if s.last() == ',' {
            let all = init.push(Seq::<char>::empty());
            assert(all.drop_last() =~= init);
            assert(join(all) =~= s);
        } else {
            let all = init.drop_last().push(init.last().push(s.last()));
            if init.len() == 1 {
                assert(join(all) =~= s);
            } else {
                assert(all.drop_last() =~= init.drop_last());
                assert(join(all) =~= join(init).push(s.last()));
                assert(join(all) =~= s);
            }
        }
    }
}

/// Writing a stored list out again gives the stored text back.
pub proof fn lemma_join_entries(s: Seq<char>)
    ensures
        join(entries(s)) == s,
{
    if s.len() == 0 {
        assert(join(entries(s)) =~= s);
    } else {
        lemma_join_split(s);
    }
}

/// The characters of a string, in order.
pub fn chars_of(s: &str) -> (r: Vec<char>)
    ensures
        r@ == s@,
{
    broadcast use vstd::string::group_string_axioms;
    let mut out: Vec<char> = Vec::new();
    let mut it = s.chars();
    loop
        invariant
            it.obeys_prophetic_iter_laws(),
            out@ + it.remaining() == s@,
            it.decrease() is Some,
        decreases it.decrease()->0,
    {
        match it.next() {
            Some(c) => {
                out.push(c);
                assert(out@ + it.remaining() =~= s@);
            },
            None => {
                assert(out@ =~= s@);
                return out;
            },
        }
    }
}

/// Splits a text at its commas.
pub fn split_commas(s: &String) -> (r: Vec<String>)
    ensures
        views(r@) == split(s@),
{
    split_text(s.as_str(), ',')
}

/// Splits a text at each `sep`.
pub fn split_text(s: &str, sep: char) -> (r: Vec<String>)
    ensures
        views(r@) == pieces(s@, sep),
{
    let chars = chars_of(s);
    let n = chars.len();
    let mut out: Vec<String> = Vec::new();
    let mut start: usize = 0;
    let mut i: usize = 0;
    assert(s@.take(0) =~= Seq::<char>::empty());
    assert(views(out@).push(s@.subrange(0, 0)) =~= pieces(s@.take(0), sep));
    while i < n
        invariant
            chars@ == s@,
            n == chars.len(),
            start <= i <= n,
            pieces(s@.take(i as int), sep) == views(out@).push(s@.subrange(start as int, i as int)),
        decreases n - i,
    {
        let ghost before = views(out@);
        let ghost from = start as int;
        assert(s@.take(i + 1).drop_last() =~= s@.take(i as int));
        if chars[i] == sep {
            let piece = String::from_str(s.substring_char(start, i));
            out.push(piece);
            start = i + 1;
            assert(views(out@) =~= before.push(s@.subrange(from, i as int)));
            assert(s@.take(i + 1).last() == sep);
            assert(s@.subrange(i + 1, i + 1) =~= Seq::<char>::empty());
            assert(pieces(s@.take(i + 1), sep) == pieces(s@.take(i as int), sep).push(Seq::<char>::empty()));
        } else {
            assert(pieces(s@.take(i + 1), sep) =~= before.push(
                s@.subrange(start as int, i as int).push(s@[i as int]),
            ));
            assert(s@.subrange(start as int, i as int).push(s@[i as int]) =~= s@.subrange(
                start as int,
                i + 1,
            ));
        }
        i = i + 1;
    }
    assert(s@.take(n as int) =~= s@);
    let last = String::from_str(s.substring_char(start, n));
    out.push(last);
    assert(views(out@) =~= pieces(s@, sep));
    out
}

/// Converts a comma-joined list to its entries; the empty text has none.
pub fn string_to_vec(vec: String) -> (r: Vec<String>)
    ensures
        views(r@) == entries(vec@),
{
    if vec.as_str().unicode_len() == 0 {
        let out: Vec<String> = Vec::new();
        assert(views(out@) =~= entries(vec@));
        out
    } else {
        split_commas(&vec)
    }
}

/// Converts a list of names to one text, the names separated by ",".
pub fn vec_to_string(vec: &Vec<String>) -> (r: String)
    ensures
        r@ == join(views(vec@)),
{
    let mut out = String::new();
    let n = vec.len();
    let mut i: usize = 0;
    assert(views(vec@).take(0) =~= Seq::<Seq<char>>::empty());
    while i < n
        invariant
            n == vec.len(),
            i <= n,
            out@ == join(views(vec@).take(i as int)),
        decreases n - i,
    {
        proof {
            reveal_strlit(",");
            assert(views(vec@).take(i + 1).drop_last() =~= views(vec@).take(i as int));
            assert(","@ =~= seq![',']);
        }
        if i > 0 {
            out.append(",");
        }
        out.append(vec[i].as_str());
        assert(out@ =~= join(views(vec@).take(i + 1)));
        i = i + 1;
    }
    assert(views(vec@).take(n as int) =~= views(vec@));
    out
}

/// Whether `name` is one of `names`.
pub fn contains_name(names: &Vec<String>, name: &String) -> (r: bool)
    ensures
        r == views(names@).contains(name@),
{
    let n = names.len();
    let mut i: usize = 0;
    while i < n
        invariant
            n == names.len(),
            i <= n,
            forall|k: int| 0 <= k < i ==> views(names@)[k] != name@,
        decreases n - i,
    {
        if names[i] == *name {
            assert(views(names@)[i as int] == name@);
            return true;
        }
        i = i + 1;
    }
    false
}

/// A copy of a list of names.
pub fn clone_names(names: &Vec<String>) -> (r: Vec<String>)
    ensures
        r@ == names@,
{
    let mut out: Vec<String> = Vec::new();
    let n = names.len();
    let mut i: usize = 0;
    while i < n
        invariant
            n == names.len(),
            i <= n,
            out@ == names@.take(i as int),
        decreases n - i,
    {
        out.push(names[i].clone());
        assert(out@ =~= names@.take(i + 1));
        i = i + 1;
    }
    assert(names@.take(n as int) =~= names@);
    out
}

/// Adds a name to a list unless the list has it.
pub fn insert_name(names: &mut Vec<String>, name: String)
    ensures
        forall|x: Seq<char>|
            #![trigger views(final(names)@).contains(x)]
            views(final(names)@).contains(x) <==> views(old(names)@).contains(x) || x == name@,
        views(final(names)@) == if views(old(names)@).contains(name@) {
            views(old(names)@)
        } else {
            views(old(names)@).push(name@)
        },
{
    let ghost before = views(names@);
    if !contains_name(names, &name) {
        names.push(name);
        proof {
            assert(views(names@) =~= before.push(name@));
            assert(views(names@)[before.len() as int] == name@);
            assert forall|x: Seq<char>| #![trigger views(names@).contains(x)]
                views(names@).contains(x) <==> before.contains(x) || x == name@ by {
                if before.contains(x) {
                    let i = choose|i: int| 0 <= i < before.len() && before[i] == x;
                    assert(views(names@)[i] == x);
                }
                if views(names@).contains(x) {
                    let i = choose|i: int| 0 <= i < views(names@).len() && views(names@)[i] == x;
                    if i < before.len() {
                        assert(before[i] == x);
                    }
                }
            }
        }
    }
}

} // verus!
