use vstd::prelude::*;
use vstd::string::StringExecFns;

use crate::output::chars_of;
use crate::state::views;

verus! {

/// Text order: by the first differing character's code point, a proper
/// prefix first.
pub open spec fn text_lt(a: Seq<char>, b: Seq<char>) -> bool
    decreases a.len(),
{
    if a.len() == 0 {
        b.len() > 0
    } else if b.len() == 0 {
        false
    } else if a[0] != b[0] {
        a[0] < b[0]
    } else {
        text_lt(a.drop_first(), b.drop_first())
    }
}

/// The characters of each text.
pub open spec fn strs(v: Seq<&str>) -> Seq<Seq<char>> {
    v.map_values(|s: &str| s@)
}

/// Whether each item comes strictly before every later one.
pub open spec fn strictly_sorted(s: Seq<Seq<char>>) -> bool {
    forall|i: int, j: int| 0 <= i < j < s.len() ==> text_lt(#[trigger] s[i], #[trigger] s[j])
}

/// No text comes before itself.
pub proof fn lemma_text_lt_irreflexive(a: Seq<char>)
    ensures
        !text_lt(a, a),
    decreases a.len(),
{
    if a.len() > 0 {
        lemma_text_lt_irreflexive(a.drop_first());
    }
}

/// Of two different texts, one comes before the other.
pub proof fn lemma_text_lt_total(a: Seq<char>, b: Seq<char>)
    ensures
        a == b || text_lt(a, b) || text_lt(b, a),
    decreases a.len(),
{
    if a.len() > 0 && b.len() > 0 && a[0] == b[0] {
        lemma_text_lt_total(a.drop_first(), b.drop_first());
        if a.drop_first() == b.drop_first() {
            assert(a =~= seq![a[0]] + a.drop_first());
            assert(b =~= seq![b[0]] + b.drop_first());
        }
    } else if a.len() == 0 && b.len() == 0 {
        assert(a =~= b);
    } else if a.len() > 0 && b.len() > 0 {
        assert(a[0] < b[0] || b[0] < a[0]);
    }
}

/// Text order is transitive.
pub proof fn lemma_text_lt_transitive(a: Seq<char>, b: Seq<char>, c: Seq<char>)
    requires
        text_lt(a, b),
        text_lt(b, c),
    ensures
        text_lt(a, c),
    decreases a.len(),
{
    if a.len() > 0 && a[0] == b[0] && b[0] == c[0] {
        lemma_text_lt_transitive(a.drop_first(), b.drop_first(), c.drop_first());
    }
}

/// Whether `a` comes before `b` in text order.
fn text_less(a: &Vec<char>, b: &Vec<char>) -> (r: bool)
    ensures
        r == text_lt(a@, b@),
{
    let mut i: usize = 0;
    proof {
        assert(a@.skip(0) =~= a@);
        assert(b@.skip(0) =~= b@);
    }
    while i < a.len() && i < b.len()
        invariant
            i <= a.len(),
            i <= b.len(),
            text_lt(a@, b@) == text_lt(a@.skip(i as int), b@.skip(i as int)),
        decreases a.len() - i,
    {
        if a[i] != b[i] {
            return a[i] < b[i];
        }
        proof {
            assert(a@.skip(i + 1) =~= a@.skip(i as int).drop_first());
            assert(b@.skip(i + 1) =~= b@.skip(i as int).drop_first());
        }
        i = i + 1;
    }
    i == a.len() && i < b.len()
}

/// The roots to consider: the given paths followed by the extra ones, or the
/// platform's filesystem roots when neither names any.
pub fn root_candidates(paths: Vec<String>, extra: Vec<String>, defaults: Vec<String>) -> (r: Vec<
    String,
>)
    ensures
        views(r@) == if paths@.len() == 0 && extra@.len() == 0 {
            views(defaults@)
        } else {
            views(paths@) + views(extra@)
        },
{
    if paths.len() == 0 && extra.len() == 0 {
        return defaults;
    }
    let mut r = paths;
    let mut extra = extra;
    let ghost r0 = r@;
    let ghost e0 = extra@;
    r.append(&mut extra);
    proof {
        assert(views(r@) =~= views(r0) + views(e0));
    }
    r
}

/// The texts of `candidates` whose `keep` flag is set, each once, in text
/// order.
pub fn sorted_unique<'a>(candidates: &Vec<&'a str>, keep: &Vec<bool>) -> (r: Vec<&'a str>)
    requires
        candidates.len() == keep.len(),
    ensures
        strictly_sorted(strs(r@)),
        forall|p: Seq<char>|
            strs(r@).contains(p) <==> exists|i: int|
                0 <= i < candidates.len() && #[trigger] candidates@[i]@ == p && keep@[i],
{
    let mut r: Vec<&'a str> = Vec::new();
    let mut k: usize = 0;
    while k < candidates.len()
        invariant
            k <= candidates.len(),
            candidates.len() == keep.len(),
            strictly_sorted(strs(r@)),
            forall|p: Seq<char>|
                strs(r@).contains(p) <==> exists|i: int|
                    0 <= i < k && #[trigger] candidates@[i]@ == p && keep@[i],
        decreases candidates.len() - k,
    {
        if keep[k] {
            let c: &'a str = candidates[k];
            let cc = chars_of(c);
            let ghost rs = strs(r@);
            // Where `c` goes: after every root before it in text order.
            let mut pos: usize = 0;
            let mut present = false;
            let mut j: usize = 0;
            while j < r.len()
                invariant
                    j <= r.len(),
                    rs == strs(r@),
                    strictly_sorted(rs),
                    cc@ == c@,
                    pos <= j,
                    present == exists|m: int| 0 <= m < j && rs[m] == c@,
                    forall|m: int| 0 <= m < pos ==> text_lt(#[trigger] rs[m], c@),
                    forall|m: int| pos <= m < j ==> !text_lt(#[trigger] rs[m], c@),
                decreases r.len() - j,
            {
                let rc = chars_of(r[j]);
                let before = text_less(&rc, &cc);
                if before {
                    if pos < j {
                        proof {
                            assert(!text_lt(rs[pos as int], c@));
                            assert(text_lt(rs[pos as int], rs[j as int]));
                            lemma_text_lt_transitive(rs[pos as int], rs[j as int], c@);
                        }
                    }
                    pos = j + 1;
                }
                if !before && !text_less(&cc, &rc) {
                    proof {
                        lemma_text_lt_total(rc@, cc@);
                        assert(rs[j as int] == c@);
                    }
                    present = true;
                } else {
                    proof {
                        if rs[j as int] == c@ {
                            lemma_text_lt_irreflexive(c@);
                        }
                    }
                }
                j = j + 1;
            }
            if !present {
                proof {
                    assert forall|m: int| pos <= m < rs.len() implies text_lt(c@, #[trigger] rs[m]) by {
                        lemma_text_lt_total(rs[m], c@);
                    }
                }
                r.insert(pos, c);
                proof {
                    let ns = strs(r@);
                    assert(ns =~= rs.insert(pos as int, c@));
                    assert forall|a: int, b: int| 0 <= a < b < ns.len() implies text_lt(
                        #[trigger] ns[a],
                        #[trigger] ns[b],
                    ) by {
                        if a < pos && b == pos {
                        } else if a < pos && b > pos {
                            assert(ns[b] == rs[b - 1]);
                        } else if a == pos {
                            assert(ns[b] == rs[b - 1]);
                        } else if a > pos {
                            assert(ns[a] == rs[a - 1] && ns[b] == rs[b - 1]);
                        } else {
                            assert(ns[a] == rs[a] && ns[b] == rs[b]);
                        }
                    }
                }
            }
            proof {
                let ns = strs(r@);
                assert forall|p: Seq<char>| ns.contains(p) <==> exists|i: int|
                    0 <= i < k + 1 && #[trigger] candidates@[i]@ == p && keep@[i] by {
                    if ns.contains(p) {
                        if p != c@ {
                            let n = choose|n: int| 0 <= n < ns.len() && ns[n] == p;
                            if !present {
                                if n < pos {
                                    assert(rs[n] == p);
                                } else {
                                    assert(rs[n - 1] == p);
                                }
                            }
                            assert(rs.contains(p));
                        }
                    }
                    if exists|i: int| 0 <= i < k + 1 && #[trigger] candidates@[i]@ == p && keep@[i] {
                        if p == c@ {
                            if !present {
                                assert(ns[pos as int] == p);
                            } else {
                                let m = choose|m: int| 0 <= m < rs.len() && rs[m] == c@;
                                assert(ns[m] == p);
                            }
                        } else {
                            let i = choose|i: int| 0 <= i < k + 1 && #[trigger] candidates@[i]@ == p && keep@[i];
                            assert(i < k);
                            assert(rs.contains(p));
                            let n = choose|n: int| 0 <= n < rs.len() && rs[n] == p;
                            if !present {
                                if n < pos {
                                    assert(ns[n] == p);
                                } else {
                                    assert(ns[n + 1] == p);
                                }
                            } else {
                                assert(ns[n] == p);
                            }
                        }
                    }
                }
            }
        }
        k = k + 1;
    }
    r
}


/// The roots to scan: the candidates that are directories, each once, in
/// text order. `is_dir[i]` tells whether `candidates[i]` is a directory.
pub fn normalize_roots(candidates: &Vec<String>, is_dir: &Vec<bool>) -> (r: Vec<String>)
    requires
        candidates.len() == is_dir.len(),
    ensures
        strictly_sorted(views(r@)),
        forall|p: Seq<char>|
            views(r@).contains(p) <==> exists|i: int|
                0 <= i < candidates.len() && #[trigger] candidates@[i]@ == p && is_dir@[i],
{
    let mut texts: Vec<&str> = Vec::new();
    let mut i: usize = 0;
    while i < candidates.len()
        invariant
            i <= candidates.len(),
            texts.len() == i,
            forall|j: int| 0 <= j < i ==> #[trigger] texts@[j]@ == candidates@[j]@,
        decreases candidates.len() - i,
    {
        texts.push(candidates[i].as_str());
        i = i + 1;
    }
    let sorted = sorted_unique(&texts, is_dir);
    let mut r: Vec<String> = Vec::new();
    let mut i: usize = 0;
    while i < sorted.len()
        invariant
            i <= sorted.len(),
            r.len() == i,
            forall|j: int| 0 <= j < i ==> #[trigger] r@[j]@ == sorted@[j]@,
        decreases sorted.len() - i,
    {
        r.push(String::from_str(sorted[i]));
        i = i + 1;
    }
    proof {
        assert(views(r@) =~= strs(sorted@));
        assert forall|p: Seq<char>| views(r@).contains(p) <==> exists|i: int|
            0 <= i < candidates.len() && #[trigger] candidates@[i]@ == p && is_dir@[i] by {
            if views(r@).contains(p) {
                let i = choose|i: int| 0 <= i < texts.len() && #[trigger] texts@[i]@ == p && is_dir@[i];
                assert(candidates@[i]@ == p);
            }
            if exists|i: int| 0 <= i < candidates.len() && #[trigger] candidates@[i]@ == p && is_dir@[i] {
                let i = choose|i: int| 0 <= i < candidates.len() && #[trigger] candidates@[i]@ == p && is_dir@[i];
                assert(texts@[i]@ == p);
            }
        }
    }
    r
}

} // verus!
