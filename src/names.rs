//! Names of slots, compared as exact strings.
use vstd::prelude::*;

verus! {

pub open spec fn names_view(s: Seq<String>) -> Seq<Seq<char>> {
    Seq::new(s.len(), |i: int| s[i]@)
}

/// The string holds exactly the word `w`.
pub fn is_word(s: &String, w: &str) -> (r: bool)
    ensures
        r == (s@ == w@),
{
    let w = String::from_str(w);
    *s == w
}

/// `v` holds the name `x`.
pub fn contains_name(v: &Vec<String>, x: &String) -> (r: bool)
    ensures
        r == names_view(v@).contains(x@),
{
    let mut i: usize = 0;
    while i < v.len()
        invariant
            i <= v@.len(),
            forall|k: int| 0 <= k < i ==> v@[k]@ != x@,
        decreases v@.len() - i,
    {
        if v[i] == *x {
            assert(names_view(v@)[i as int] == x@);
            return true;
        }
        i += 1;
    }
    proof {
        if names_view(v@).contains(x@) {
            let k = choose|k: int| 0 <= k < names_view(v@).len() && names_view(v@)[k] == x@;
            assert(v@[k]@ == x@);
        }
    }
    false
}

/// The index of the first name that repeats an earlier one.
pub open spec fn first_repeat(s: Seq<Seq<char>>) -> Option<int>
    decreases s.len(),
{
    if s.len() == 0 {
        None
    } else {
        match first_repeat(s.drop_last()) {
            Some(j) => Some(j),
            None => if s.drop_last().contains(s.last()) {
                Some(s.len() - 1)
            } else {
                None
            },
        }
    }
}

pub proof fn lemma_first_repeat(s: Seq<Seq<char>>)
    ensures
        first_repeat(s) is None <==> s.no_duplicates(),
        first_repeat(s) matches Some(j) ==> 0 <= j < s.len() && s.take(j).contains(s[j]),
    decreases s.len(),
{
    if s.len() > 0 {
        let p = s.drop_last();
        lemma_first_repeat(p);
        if let Some(j) = first_repeat(p) {
            assert(p.take(j) =~= s.take(j));
            let k = choose|k: int| 0 <= k < p.take(j).len() && p.take(j)[k] == p[j];
            assert(s[k] == s[j]);
        } else if p.contains(s.last()) {
            assert(s.take(s.len() - 1) =~= p);
            let k = choose|k: int| 0 <= k < p.len() && p[k] == s.last();
            assert(s[k] == s[s.len() - 1]);
        } else {
            assert forall|i: int, j: int| 0 <= i < s.len() && 0 <= j < s.len() && i != j implies s[i] != s[j] by {
                if i < s.len() - 1 && j < s.len() - 1 {
                    assert(p[i] != p[j]);
                } else if i == s.len() - 1 {
                    assert(p[j] == s[j]);
                } else {
                    assert(p[i] == s[i]);
                }
            }
        }
    }
}

proof fn lemma_first_repeat_prefix(s: Seq<Seq<char>>, n: int)
    requires
        0 <= n <= s.len(),
        first_repeat(s.take(n)) is Some,
    ensures
        first_repeat(s) == first_repeat(s.take(n)),
    decreases s.len(),
{
    if s.len() == n {
        assert(s.take(n) =~= s);
    } else {
        assert(s.drop_last().take(n) =~= s.take(n));
        lemma_first_repeat_prefix(s.drop_last(), n);
    }
}

/// The index of the first name in `v` that repeats an earlier one.
pub fn find_repeat(v: &Vec<String>) -> (r: Option<usize>)
    ensures
        match r {
            Some(j) => first_repeat(names_view(v@)) == Some(j as int),
            None => first_repeat(names_view(v@)) is None,
        },
{
    let ghost s = names_view(v@);
    let mut seen: Vec<String> = Vec::new();
    let mut i: usize = 0;
    while i < v.len()
        invariant
            i <= v@.len(),
            s == names_view(v@),
            names_view(seen@) == s.take(i as int),
            first_repeat(s.take(i as int)) is None,
        decreases v@.len() - i,
    {
        assert(s.take(i + 1).drop_last() =~= s.take(i as int));
        if contains_name(&seen, &v[i]) {
            proof {
                lemma_first_repeat_prefix(s, i + 1);
            }
            return Some(i);
        }
        seen.push(v[i].clone());
        i += 1;
        assert(names_view(seen@) =~= s.take(i as int));
    }
    assert(s.take(i as int) =~= s);
    None
}

/// The names of `xs` that `ys` lacks, each once, in the order in which they first occur.
pub open spec fn absent_in(xs: Seq<Seq<char>>, ys: Seq<Seq<char>>) -> Seq<Seq<char>>
    decreases xs.len(),
{
    if xs.len() == 0 {
        seq![]
    } else {
        let p = absent_in(xs.drop_last(), ys);
        let x = xs.last();
        if ys.contains(x) || p.contains(x) {
            p
        } else {
            p.push(x)
        }
    }
}

/// What [`absent_in`] holds: each name of `xs` that `ys` lacks, and no other, and none twice.
pub proof fn lemma_absent_in(xs: Seq<Seq<char>>, ys: Seq<Seq<char>>)
    ensures
        forall|x: Seq<char>| #[trigger]
            absent_in(xs, ys).contains(x) <==> (xs.contains(x) && !ys.contains(x)),
        absent_in(xs, ys).no_duplicates(),
    decreases xs.len(),
{
    if xs.len() > 0 {
        let p = xs.drop_last();
        lemma_absent_in(p, ys);
        let pa = absent_in(p, ys);
        let x0 = xs.last();
        assert(xs =~= p.push(x0));
        assert forall|x: Seq<char>| xs.contains(x) <==> (p.contains(x) || x == x0) by {
            if xs.contains(x) {
                let k = choose|k: int| 0 <= k < xs.len() && xs[k] == x;
                if k < xs.len() - 1 {
                    assert(p[k] == x);
                }
            }
            if p.contains(x) {
                let k = choose|k: int| 0 <= k < p.len() && p[k] == x;
                assert(xs[k] == x);
            }
            if x == x0 {
                assert(xs[xs.len() - 1] == x);
            }
        }
        if !(ys.contains(x0) || pa.contains(x0)) {
            assert forall|x: Seq<char>| pa.push(x0).contains(x) <==> (pa.contains(x) || x == x0) by {
                if pa.push(x0).contains(x) {
                    let k = choose|k: int| 0 <= k < pa.len() + 1 && pa.push(x0)[k] == x;
                    if k < pa.len() {
                        assert(pa[k] == x);
                    }
                }
                if pa.contains(x) {
                    let k = choose|k: int| 0 <= k < pa.len() && pa[k] == x;
                    assert(pa.push(x0)[k] == x);
                }
                if x == x0 {
                    assert(pa.push(x0)[pa.len() as int] == x);
                }
            }
            assert forall|i: int, j: int|
                0 <= i < pa.len() + 1 && 0 <= j < pa.len() + 1 && i != j implies pa.push(x0)[i]
                != pa.push(x0)[j] by {
                if i == pa.len() {
                    assert(pa[j] == pa.push(x0)[j]);
                } else if j == pa.len() {
                    assert(pa[i] == pa.push(x0)[i]);
                }
            }
        }
        assert forall|x: Seq<char>| #[trigger]
            absent_in(xs, ys).contains(x) <==> (xs.contains(x) && !ys.contains(x)) by {
            assert(pa.contains(x) <==> (p.contains(x) && !ys.contains(x)));
            assert(pa.contains(x0) <==> (p.contains(x0) && !ys.contains(x0)));
            assert(xs.contains(x) <==> (p.contains(x) || x == x0));
            if ys.contains(x0) || pa.contains(x0) {
                assert(absent_in(xs, ys) == pa);
            } else {
                assert(absent_in(xs, ys) == pa.push(x0));
                assert(pa.push(x0).contains(x) <==> (pa.contains(x) || x == x0));
            }
        }
    }
}

/// Compares two lists of names: the first result holds the names of `rights` that `lefts`
/// lacks, the second the names of `lefts` that `rights` lacks; each once, in the order of
/// first occurrence.
pub fn diff_by_display(lefts: &Vec<String>, rights: &Vec<String>) -> (r: (Vec<String>, Vec<String>))
    ensures
        names_view(r.0@) == absent_in(names_view(rights@), names_view(lefts@)),
        names_view(r.1@) == absent_in(names_view(lefts@), names_view(rights@)),
{
    let a = absent(rights, lefts);
    let b = absent(lefts, rights);
    (a, b)
}

fn absent(xs: &Vec<String>, ys: &Vec<String>) -> (r: Vec<String>)
    ensures
        names_view(r@) == absent_in(names_view(xs@), names_view(ys@)),
{
    let ghost s = names_view(xs@);
    let mut out: Vec<String> = Vec::new();
    let mut i: usize = 0;
    while i < xs.len()
        invariant
            i <= xs@.len(),
            s == names_view(xs@),
            names_view(out@) == absent_in(s.take(i as int), names_view(ys@)),
        decreases xs@.len() - i,
    {
        assert(s.take(i + 1).drop_last() =~= s.take(i as int));
        if !contains_name(ys, &xs[i]) && !contains_name(&out, &xs[i]) {
            out.push(xs[i].clone());
            assert(names_view(out@) =~= absent_in(s.take(i as int), names_view(ys@)).push(s[i as int]));
        }
        i += 1;
    }
    assert(s.take(i as int) =~= s);
    out
}

} // verus!
