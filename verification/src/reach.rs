//! Reachability between fragments through spreads, and the walk that
//! collects it.
use vstd::prelude::*;
use crate::spreads::str_views;
use crate::text::{contains_name, str_eq};

verus! {

/// The spread graph: for each fragment definition, in document order, its
/// name and the names it spreads.
pub type SpecGraph = Seq<(Seq<char>, Seq<Seq<char>>)>;

/// The names that `n` spreads: those spread by every fragment named `n`, in
/// document order; none when no fragment is named `n`.
pub open spec fn lookup_deps(g: SpecGraph, n: Seq<char>) -> Seq<Seq<char>>
    decreases g.len(),
{
    if g.len() == 0 {
        Seq::empty()
    } else if g.last().0 == n {
        lookup_deps(g.drop_last(), n) + g.last().1
    } else {
        lookup_deps(g.drop_last(), n)
    }
}

/// `p` is a walk that starts at one of `roots` and follows spreads.
pub open spec fn is_spread_path(g: SpecGraph, roots: Seq<Seq<char>>, p: Seq<Seq<char>>) -> bool {
    &&& p.len() > 0
    &&& roots.contains(p[0])
    &&& forall|k: int| 0 <= k < p.len() - 1 ==> #[trigger] lookup_deps(g, p[k]).contains(p[k + 1])
}

/// `n` can be reached from one of `roots` by following spreads (the roots
/// themselves included).
pub open spec fn reachable(g: SpecGraph, roots: Seq<Seq<char>>, n: Seq<char>) -> bool {
    exists|p: Seq<Seq<char>>| #[trigger] is_spread_path(g, roots, p) && p.last() == n
}

/// Every name spread by a member of `s` is a member of `s`.
pub open spec fn closed_under(g: SpecGraph, s: Seq<Seq<char>>) -> bool {
    forall|a: Seq<char>, b: Seq<char>|
        #![trigger s.contains(a), lookup_deps(g, a).contains(b)]
        s.contains(a) && lookup_deps(g, a).contains(b) ==> s.contains(b)
}

/// Every name that some entry of `g` spreads, with repeats.
pub open spec fn all_deps(g: SpecGraph) -> Seq<Seq<char>>
    decreases g.len(),
{
    if g.len() == 0 {
        Seq::empty()
    } else {
        all_deps(g.drop_last()) + g.last().1
    }
}

/// How many positions of `u` hold a name that `c` lacks.
pub open spec fn count_missing(u: Seq<Seq<char>>, c: Seq<Seq<char>>) -> nat
    decreases u.len(),
{
    if u.len() == 0 {
        0
    } else {
        count_missing(u.drop_last(), c) + if c.contains(u.last()) {
            0nat
        } else {
            1nat
        }
    }
}

/// The view of an exec spread graph.
pub open spec fn graph_view(g: Seq<(&str, Vec<&str>)>) -> SpecGraph {
    g.map_values(|e: (&str, Vec<&str>)| (e.0@, str_views(e.1@)))
}

pub proof fn lemma_root_reachable(g: SpecGraph, roots: Seq<Seq<char>>, n: Seq<char>)
    requires
        roots.contains(n),
    ensures
        reachable(g, roots, n),
{
    let p = seq![n];
    assert(is_spread_path(g, roots, p));
}

pub proof fn lemma_path_extend(g: SpecGraph, roots: Seq<Seq<char>>, p: Seq<Seq<char>>, b: Seq<char>)
    requires
        is_spread_path(g, roots, p),
        lookup_deps(g, p.last()).contains(b),
    ensures
        is_spread_path(g, roots, p.push(b)),
{
    let q = p.push(b);
    assert forall|k: int| 0 <= k < q.len() - 1 implies #[trigger] lookup_deps(g, q[k]).contains(
        q[k + 1],
    ) by {
        if k < p.len() - 1 {
            assert(lookup_deps(g, p[k]).contains(p[k + 1]));
        }
    }
}

pub proof fn lemma_reach_step(g: SpecGraph, roots: Seq<Seq<char>>, a: Seq<char>, b: Seq<char>)
    requires
        reachable(g, roots, a),
        lookup_deps(g, a).contains(b),
    ensures
        reachable(g, roots, b),
{
    let p = choose|p: Seq<Seq<char>>| #[trigger] is_spread_path(g, roots, p) && p.last() == a;
    lemma_path_extend(g, roots, p, b);
    assert(p.push(b).last() == b);
}

/// A closed set that holds every root holds the end of every walk.
pub proof fn lemma_closed_holds_path(
    g: SpecGraph,
    roots: Seq<Seq<char>>,
    s: Seq<Seq<char>>,
    p: Seq<Seq<char>>,
)
    requires
        closed_under(g, s),
        forall|r: Seq<char>| roots.contains(r) ==> s.contains(r),
        is_spread_path(g, roots, p),
    ensures
        s.contains(p.last()),
    decreases p.len(),
{
    if p.len() > 1 {
        let q = p.drop_last();
        assert forall|k: int| 0 <= k < q.len() - 1 implies #[trigger] lookup_deps(g, q[k]).contains(
            q[k + 1],
        ) by {
            assert(lookup_deps(g, p[k]).contains(p[k + 1]));
        }
        assert(is_spread_path(g, roots, q));
        lemma_closed_holds_path(g, roots, s, q);
        let k = p.len() - 2;
        assert(lookup_deps(g, p[k]).contains(p[k + 1]));
        assert(q.last() == p[k]);
    }
}

/// A closed set that holds every root holds every reachable name.
pub proof fn lemma_closed_holds_reachable(
    g: SpecGraph,
    roots: Seq<Seq<char>>,
    s: Seq<Seq<char>>,
    n: Seq<char>,
)
    requires
        closed_under(g, s),
        forall|r: Seq<char>| roots.contains(r) ==> s.contains(r),
        reachable(g, roots, n),
    ensures
        s.contains(n),
{
    let p = choose|p: Seq<Seq<char>>| #[trigger] is_spread_path(g, roots, p) && p.last() == n;
    lemma_closed_holds_path(g, roots, s, p);
}

/// Reaching from the first `i + 1` roots is reaching from the first `i`,
/// or from root `i`.
pub proof fn lemma_reach_roots_take(g: SpecGraph, roots: Seq<Seq<char>>, i: int, n: Seq<char>)
    requires
        0 <= i < roots.len(),
    ensures
        reachable(g, roots.take(i + 1), n) <==> (reachable(g, roots.take(i), n) || reachable(
            g,
            seq![roots[i]],
            n,
        )),
{
    let front = roots.take(i + 1);
    let prev = roots.take(i);
    let single = seq![roots[i]];
    if reachable(g, front, n) {
        let p = choose|p: Seq<Seq<char>>| #[trigger] is_spread_path(g, front, p) && p.last() == n;
        let k = choose|k: int| 0 <= k < front.len() && front[k] == p[0];
        if k < i {
            assert(prev[k] == p[0]);
            assert(is_spread_path(g, prev, p));
        } else {
            assert(single[0] == p[0]);
            assert(is_spread_path(g, single, p));
        }
    }
    if reachable(g, prev, n) {
        let p = choose|p: Seq<Seq<char>>| #[trigger] is_spread_path(g, prev, p) && p.last() == n;
        let k = choose|k: int| 0 <= k < prev.len() && prev[k] == p[0];
        assert(front[k] == p[0]);
        assert(is_spread_path(g, front, p));
    }
    if reachable(g, single, n) {
        let p = choose|p: Seq<Seq<char>>| #[trigger] is_spread_path(g, single, p) && p.last() == n;
        assert(single[0] == p[0]);
        assert(front[i] == p[0]);
        assert(is_spread_path(g, front, p));
    }
}

proof fn lemma_lookup_in_all_deps(g: SpecGraph, n: Seq<char>, b: Seq<char>)
    requires
        lookup_deps(g, n).contains(b),
    ensures
        all_deps(g).contains(b),
    decreases g.len(),
{
    if g.len() > 0 {
        let front = all_deps(g.drop_last());
        let rest = lookup_deps(g.drop_last(), n);
        if rest.contains(b) {
            lemma_lookup_in_all_deps(g.drop_last(), n, b);
            let k = choose|k: int| 0 <= k < front.len() && front[k] == b;
            assert((front + g.last().1)[k] == b);
        } else {
            assert(g.last().0 == n);
            let k = choose|k: int| 0 <= k < lookup_deps(g, n).len() && lookup_deps(g, n)[k] == b;
            assert(k >= rest.len());
            assert(g.last().1[k - rest.len()] == b);
            assert((front + g.last().1)[front.len() + k - rest.len()] == b);
        }
    }
}

/// Law: a name reached from `from` is `from` itself or a name that some
/// fragment spreads.
pub proof fn law_reached_name_is_root_or_spread(g: SpecGraph, from: Seq<char>, n: Seq<char>)
    requires
        reachable(g, seq![from], n),
    ensures
        n == from || all_deps(g).contains(n),
{
    let p = choose|p: Seq<Seq<char>>| #[trigger] is_spread_path(g, seq![from], p) && p.last() == n;
    if p.len() == 1 {
        assert(seq![from].contains(p[0]));
        assert(seq![from][0] == from);
    } else {
        let k = p.len() - 2;
        assert(lookup_deps(g, p[k]).contains(p[k + 1]));
        lemma_lookup_in_all_deps(g, p[k], n);
    }
}

proof fn lemma_lookup_unnamed(g: SpecGraph, n: Seq<char>)
    requires
        forall|i: int| 0 <= i < g.len() ==> (#[trigger] g[i]).0 != n,
    ensures
        lookup_deps(g, n) =~= Seq::<Seq<char>>::empty(),
    decreases g.len(),
{
    if g.len() > 0 {
        assert(g.last() == g[g.len() - 1]);
        assert forall|i: int| 0 <= i < g.drop_last().len() implies (#[trigger] g.drop_last()[i]).0 != n by {
            assert(g.drop_last()[i] == g[i]);
        }
        lemma_lookup_unnamed(g.drop_last(), n);
    }
}

/// Law: a name that no fragment bears reaches only itself, so collecting
/// from it adds just that name.
pub proof fn law_unnamed_reaches_only_itself(g: SpecGraph, from: Seq<char>, n: Seq<char>)
    requires
        forall|i: int| 0 <= i < g.len() ==> (#[trigger] g[i]).0 != from,
    ensures
        reachable(g, seq![from], n) <==> n == from,
{
    lemma_lookup_unnamed(g, from);
    if n == from {
        assert(seq![from][0] == from);
        lemma_root_reachable(g, seq![from], from);
    }
    if reachable(g, seq![from], n) {
        let p = choose|p: Seq<Seq<char>>| #[trigger] is_spread_path(g, seq![from], p) && p.last() == n;
        assert(seq![from].contains(p[0]));
        let k = choose|k: int| 0 <= k < 1 && seq![from][k] == p[0];
        assert(p[0] == from);
        if p.len() > 1 {
            assert(lookup_deps(g, p[0]).contains(p[1]));
            assert(false);
        }
    }
}

/// Growing `c` never raises the count of missing names; adding a name of
/// `u` that `c` lacked lowers it.
proof fn lemma_count_missing_shrinks(u: Seq<Seq<char>>, c: Seq<Seq<char>>, x: Seq<char>)
    ensures
        count_missing(u, c.push(x)) <= count_missing(u, c),
        u.contains(x) && !c.contains(x) ==> count_missing(u, c.push(x)) < count_missing(u, c),
    decreases u.len(),
{
    if u.len() > 0 {
        lemma_count_missing_shrinks(u.drop_last(), c, x);
        assert forall|y: Seq<char>| c.contains(y) implies c.push(x).contains(y) by {
            let k = choose|k: int| 0 <= k < c.len() && c[k] == y;
            assert(c.push(x)[k] == y);
        }
        assert(c.push(x)[c.len() as int] == x);
        if u.contains(x) && !c.contains(x) && !u.drop_last().contains(x) {
            let k = choose|k: int| 0 <= k < u.len() && u[k] == x;
            if k < u.len() - 1 {
                assert(u.drop_last()[k] == x);
            }
            assert(u.last() == x);
        }
    }
}

proof fn lemma_lookup_take(g: SpecGraph, i: int, n: Seq<char>)
    requires
        0 <= i < g.len(),
    ensures
        g[i].0 == n ==> lookup_deps(g.take(i + 1), n) == lookup_deps(g.take(i), n) + g[i].1,
        g[i].0 != n ==> lookup_deps(g.take(i + 1), n) == lookup_deps(g.take(i), n),
{
    assert(g.take(i + 1).drop_last() =~= g.take(i));
}

/// The names that the fragments called `name` spread, looked up in the
/// spread graph: those of every entry with that name, in order; none when
/// no fragment has that name.
pub fn fragment_spreads_of<'a>(dep_graph: &Vec<(&'a str, Vec<&'a str>)>, name: &str) -> (r: Vec<
    &'a str,
>)
    ensures
        str_views(r@) == lookup_deps(graph_view(dep_graph@), name@),
{
    let ghost g = graph_view(dep_graph@);
    let mut out: Vec<&'a str> = Vec::new();
    let mut i: usize = 0;
    assert(g.take(0) =~= Seq::<(Seq<char>, Seq<Seq<char>>)>::empty());
    while i < dep_graph.len()
        invariant
            0 <= i <= dep_graph.len(),
            g == graph_view(dep_graph@),
            str_views(out@) == lookup_deps(g.take(i as int), name@),
        decreases dep_graph.len() - i,
    {
        proof {
            lemma_lookup_take(g, i as int, name@);
        }
        let entry = &dep_graph[i];
        assert(g[i as int] == (entry.0@, str_views(entry.1@)));
        if str_eq(entry.0, name) {
            let ghost before = out@;
            let mut j: usize = 0;
            while j < entry.1.len()
                invariant
                    0 <= j <= entry.1.len(),
                    out@ == before + entry.1@.take(j as int),
                decreases entry.1.len() - j,
            {
                out.push(entry.1[j]);
                assert(entry.1@.take(j + 1) =~= entry.1@.take(j as int).push(entry.1@[j as int]));
                j = j + 1;
            }
            assert(entry.1@.take(entry.1.len() as int) =~= entry.1@);
            assert(str_views(out@) =~= str_views(before) + str_views(entry.1@));
        }
        i = i + 1;
    }
    assert(g.take(dep_graph.len() as int) =~= g);
    out
}

/// Add `from` and everything it reaches to `collected`.
///
/// The walk uses an explicit stack, so a long fragment chain cannot overflow
/// the call stack, and a visited set of its own, so it terminates on cyclic
/// fragment references and walks past names that `collected` already held.
/// A name with no entry in `dep_graph`, such as a spread of an undefined
/// fragment, is still added but contributes no children. Names already in
/// `collected` stay where they are; new names are appended once each.
pub fn collect_transitive<'a>(
    collected: &mut Vec<&'a str>,
    dep_graph: &Vec<(&'a str, Vec<&'a str>)>,
    from: &'a str,
)
    requires
        str_views(old(collected)@).no_duplicates(),
    ensures
        str_views(final(collected)@).no_duplicates(),
        forall|n: Seq<char>|
            #![trigger str_views(final(collected)@).contains(n)]
            str_views(final(collected)@).contains(n) <==> (str_views(old(collected)@).contains(n)
                || reachable(graph_view(dep_graph@), seq![from@], n)),
        final(collected)@.len() >= old(collected)@.len(),
        final(collected)@.subrange(0, old(collected)@.len() as int) == old(collected)@,
        (forall|n: Seq<char>|
            reachable(graph_view(dep_graph@), seq![from@], n) ==> str_views(
                old(collected)@,
            ).contains(n)) ==> final(collected)@ == old(collected)@,
{
    let ghost g = graph_view(dep_graph@);
    let ghost roots = seq![from@];
    let ghost u = roots + all_deps(g);
    let ghost start = str_views(collected@);
    let ghost n0 = collected@.len();
    let mut visited: Vec<&'a str> = Vec::new();
    let mut stack: Vec<&'a str> = Vec::new();
    stack.push(from);
    assert(u[0] == from@);
    assert(str_views(stack@) =~= seq![from@]);
    assert(str_views(visited@) =~= Seq::<Seq<char>>::empty());
    assert(collected@.subrange(0, n0 as int) =~= collected@);
    proof {
        lemma_root_reachable(g, roots, from@);
        assert(roots[0] == from@);
    }
    while stack.len() > 0
        invariant
            g == graph_view(dep_graph@),
            roots == seq![from@],
            u == roots + all_deps(g),
            start == str_views(old(collected)@),
            n0 == old(collected)@.len(),
            forall|n: Seq<char>| str_views(visited@).contains(n) ==> reachable(g, roots, n),
            forall|n: Seq<char>| str_views(stack@).contains(n) ==> reachable(g, roots, n),
            forall|n: Seq<char>| str_views(stack@).contains(n) ==> u.contains(n),
            forall|a: Seq<char>, b: Seq<char>|
                #![trigger str_views(visited@).contains(a), lookup_deps(g, a).contains(b)]
                str_views(visited@).contains(a) && lookup_deps(g, a).contains(b) ==> str_views(
                    visited@,
                ).contains(b) || str_views(stack@).contains(b),
            str_views(visited@).contains(from@) || str_views(stack@).contains(from@),
            str_views(visited@).no_duplicates(),
            forall|n: Seq<char>|
                #![trigger str_views(collected@).contains(n)]
                str_views(collected@).contains(n) <==> start.contains(n) || str_views(
                    visited@,
                ).contains(n),
            str_views(collected@).no_duplicates(),
            collected@.len() >= n0,
            collected@.subrange(0, n0 as int) == old(collected)@,
        decreases count_missing(u, str_views(visited@)), stack.len(),
    {
        let ghost vv = str_views(visited@);
        let ghost cv = str_views(collected@);
        let ghost sv = str_views(stack@);
        let name = stack.pop().unwrap();
        let ghost sv1 = str_views(stack@);
        assert(sv1 =~= sv.drop_last());
        assert(sv.last() == name@);
        assert forall|n: Seq<char>| sv.contains(n) implies sv1.contains(n) || n == name@ by {
            let k = choose|k: int| 0 <= k < sv.len() && sv[k] == n;
            if k < sv.len() - 1 {
                assert(sv1[k] == n);
            }
        }
        assert(sv.contains(name@));
        if contains_name(&visited, name) {
            continue;
        }
        visited.push(name);
        let ghost vv1 = str_views(visited@);
        assert(vv1 =~= vv.push(name@));
        assert forall|n: Seq<char>| vv.contains(n) implies vv1.contains(n) by {
            let k = choose|k: int| 0 <= k < vv.len() && vv[k] == n;
            assert(vv1[k] == n);
        }
        assert(vv1[vv.len() as int] == name@);
        assert forall|n: Seq<char>| vv1.contains(n) implies vv.contains(n) || n == name@ by {
            let k = choose|k: int| 0 <= k < vv1.len() && vv1[k] == n;
            if k < vv.len() {
                assert(vv[k] == n);
            }
        }
        proof {
            lemma_count_missing_shrinks(u, vv, name@);
        }
        if !contains_name(collected, name) {
            let ghost before = collected@;
            collected.push(name);
            let ghost cv1 = str_views(collected@);
            assert(cv1 =~= cv.push(name@));
            assert(collected@.subrange(0, n0 as int) =~= before.subrange(0, n0 as int));
            assert forall|n: Seq<char>| cv.contains(n) implies cv1.contains(n) by {
                let k = choose|k: int| 0 <= k < cv.len() && cv[k] == n;
                assert(cv1[k] == n);
            }
            assert(cv1[cv.len() as int] == name@);
            assert forall|n: Seq<char>| cv1.contains(n) implies cv.contains(n) || n == name@ by {
                let k = choose|k: int| 0 <= k < cv1.len() && cv1[k] == n;
                if k < cv.len() {
                    assert(cv[k] == n);
                }
            }
        }
        let deps = fragment_spreads_of(dep_graph, name);
        let ghost dv = str_views(deps@);
        let mut j: usize = 0;
        while j < deps.len()
            invariant
                0 <= j <= deps.len(),
                dv == str_views(deps@),
                dv == lookup_deps(g, name@),
                str_views(stack@) == sv1 + dv.take(j as int),
            decreases deps.len() - j,
        {
            let ghost before = stack@;
            stack.push(deps[j]);
            assert(stack@ == before.push(deps@[j as int]));
            assert(dv[j as int] == deps@[j as int]@);
            assert(str_views(stack@) =~= str_views(before).push(deps@[j as int]@));
            assert(dv.take(j + 1) =~= dv.take(j as int).push(dv[j as int]));
            assert(str_views(stack@) =~= sv1 + dv.take(j + 1));
            j = j + 1;
        }
        let ghost sv2 = str_views(stack@);
        assert(dv.take(deps.len() as int) =~= dv);
        assert forall|n: Seq<char>| sv1.contains(n) implies sv2.contains(n) by {
            let k = choose|k: int| 0 <= k < sv1.len() && sv1[k] == n;
            assert(sv2[k] == n);
        }
        assert forall|n: Seq<char>| dv.contains(n) implies sv2.contains(n) by {
            let k = choose|k: int| 0 <= k < dv.len() && dv[k] == n;
            assert(sv2[sv1.len() + k] == n);
        }
        assert forall|n: Seq<char>| sv2.contains(n) implies sv1.contains(n) || dv.contains(n) by {
            let k = choose|k: int| 0 <= k < sv2.len() && sv2[k] == n;
            if k < sv1.len() {
                assert(sv1[k] == n);
            } else {
                assert(dv[k - sv1.len()] == n);
            }
        }
        assert forall|n: Seq<char>| dv.contains(n) implies reachable(g, roots, n) && u.contains(n) by {
            lemma_reach_step(g, roots, name@, n);
            lemma_lookup_in_all_deps(g, name@, n);
            let k = choose|k: int| 0 <= k < all_deps(g).len() && all_deps(g)[k] == n;
            assert(u[1 + k] == n);
        }
    }
    proof {
        let vv = str_views(visited@);
        let cv = str_views(collected@);
        assert(str_views(stack@) =~= Seq::<Seq<char>>::empty());
        assert forall|r: Seq<char>| roots.contains(r) implies vv.contains(r) by {
            assert(r == roots[0]);
        }
        assert forall|n: Seq<char>| reachable(g, roots, n) implies vv.contains(n) by {
            lemma_closed_holds_reachable(g, roots, vv, n);
        }
        if forall|n: Seq<char>| reachable(g, roots, n) ==> start.contains(n) {
            if collected@.len() > n0 {
                let x = cv[n0 as int];
                assert(cv.contains(x));
                assert(start.contains(x));
                let k = choose|k: int| 0 <= k < start.len() && start[k] == x;
                assert(collected@.subrange(0, n0 as int)[k] == collected@[k]);
                assert(cv[k] == x);
            }
            assert(collected@ =~= collected@.subrange(0, n0 as int));
        }
    }
}

} // verus!
