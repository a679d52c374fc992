//! The modules of a program and the order in which they are compiled.

use vstd::prelude::*;

use crate::sorted::{lemma_place_of_key, TextMap, TextMapView};
use crate::text::{listed, position_of, texts};

verus! {

/// What a module is to its program.
#[derive(Clone, Copy, Debug, PartialEq, Eq, Structural)]
pub enum Role {
    /// The module that every other one imports without saying so.
    System,
    /// The program itself.
    Main,
    /// A module that another one imports.
    Import,
}

/// A module of a program.
#[derive(Debug)]
pub struct Mod {
    pub stem: String,
    pub role: Role,
    /// The stems of the modules that this one imports.
    pub deps: Vec<String>,
}

/// What is known of a module.
#[verifier::ext_equal]
pub ghost struct ModView {
    pub stem: Seq<char>,
    pub role: Role,
    pub deps: Seq<Seq<char>>,
}

impl DeepView for Mod {
    type V = ModView;

    open spec fn deep_view(&self) -> ModView {
        ModView { stem: self.stem@, role: self.role, deps: texts(self.deps@) }
    }
}

/// The modules of a program by their stems.
pub type Mods = TextMapView<ModView>;

/// What the module `s` imports; nothing for a name that is no module.
pub open spec fn deps_of(mods: Mods, s: Seq<char>) -> Seq<Seq<char>> {
    if mods.has(s) {
        mods.at(s).deps
    } else {
        Seq::empty()
    }
}

/// How far a walk over the modules has come.
#[verifier::ext_equal]
pub ghost struct Walk {
    /// The names that were reached.
    pub seen: Set<Seq<char>>,
    /// The names that are done, in the order in which they were.
    pub order: Seq<Seq<char>>,
}

/// The walk after `s`: what it imports first, then `s` itself, unless it was reached before. `fuel`
/// bounds how deep the walk goes.
pub open spec fn visit(mods: Mods, s: Seq<char>, w: Walk, fuel: nat) -> Walk
    decreases fuel, 0nat,
{
    if fuel == 0 || w.seen.contains(s) {
        w
    } else {
        let v = visit_all(
            mods,
            deps_of(mods, s),
            Walk { seen: w.seen.insert(s), order: w.order },
            (fuel - 1) as nat,
        );
        Walk { seen: v.seen, order: v.order.push(s) }
    }
}

/// The walk after all of `names`, in order.
pub open spec fn visit_all(mods: Mods, names: Seq<Seq<char>>, w: Walk, fuel: nat) -> Walk
    decreases fuel, names.len(),
{
    if names.len() == 0 {
        w
    } else {
        visit(mods, names.last(), visit_all(mods, names.drop_last(), w, fuel), fuel)
    }
}

/// The lists of imports of the first `n` modules, one after the other.
pub open spec fn all_deps(vals: Seq<ModView>) -> Seq<Seq<char>>
    decreases vals.len(),
{
    if vals.len() == 0 {
        Seq::empty()
    } else {
        all_deps(vals.drop_last()) + vals.last().deps
    }
}

/// Every name that the walk can reach.
pub open spec fn names_of(mods: Mods) -> Seq<Seq<char>> {
    mods.keys + all_deps(mods.vals)
}

/// The walk before it starts.
pub open spec fn walk_start() -> Walk {
    Walk { seen: Set::empty(), order: Seq::empty() }
}

/// The modules with what they import in front of them, walked in the order of their stems.
pub open spec fn postorder(mods: Mods) -> Walk {
    visit_all(mods, mods.keys, walk_start(), names_of(mods).len())
}

/// `s` is the system module.
pub open spec fn is_system(mods: Mods, s: Seq<char>) -> bool {
    mods.has(s) && mods.at(s).role == Role::System
}

/// The names that are the system module, or those that are not, in their order.
pub open spec fn part_of(mods: Mods, order: Seq<Seq<char>>, system: bool) -> Seq<Seq<char>>
    decreases order.len(),
{
    if order.len() == 0 {
        Seq::empty()
    } else if is_system(mods, order.last()) == system {
        part_of(mods, order.drop_last(), system).push(order.last())
    } else {
        part_of(mods, order.drop_last(), system)
    }
}

/// The order of compilation: the system module first, then the others with what they import in
/// front of them.
pub open spec fn spec_toposort(mods: Mods) -> Seq<Seq<char>> {
    let order = postorder(mods).order;
    part_of(mods, order, true) + part_of(mods, order, false)
}

/// How many of `names` were not reached.
pub open spec fn unseen(names: Seq<Seq<char>>, seen: Set<Seq<char>>) -> nat
    decreases names.len(),
{
    if names.len() == 0 {
        0
    } else {
        unseen(names.drop_last(), seen) + (if seen.contains(names.last()) {
            0nat
        } else {
            1nat
        })
    }
}

/// The more was reached, the less was not.
proof fn lemma_unseen_monotone(names: Seq<Seq<char>>, a: Set<Seq<char>>, b: Set<Seq<char>>)
    requires
        a.subset_of(b),
    ensures
        unseen(names, b) <= unseen(names, a) <= names.len(),
    decreases names.len(),
{
    if names.len() > 0 {
        lemma_unseen_monotone(names.drop_last(), a, b);
    }
}

/// Reaching one more name leaves fewer.
proof fn lemma_unseen_insert(names: Seq<Seq<char>>, seen: Set<Seq<char>>, s: Seq<char>)
    requires
        names.contains(s),
        !seen.contains(s),
    ensures
        unseen(names, seen.insert(s)) < unseen(names, seen),
    decreases names.len(),
{
    let less = names.drop_last();
    lemma_unseen_monotone(less, seen, seen.insert(s));
    if names.last() != s {
        let i = choose|i: int| 0 <= i < names.len() && names[i] == s;
        assert(less[i] == s);
        lemma_unseen_insert(less, seen, s);
    }
}

/// A list of imports is part of all of them.
proof fn lemma_all_deps(vals: Seq<ModView>, i: int, j: int)
    requires
        0 <= i < vals.len(),
        0 <= j < vals[i].deps.len(),
    ensures
        all_deps(vals).contains(vals[i].deps[j]),
    decreases vals.len(),
{
    let less = all_deps(vals.drop_last());
    let last = vals.last().deps;
    if i == vals.len() - 1 {
        assert((less + last)[less.len() + j] == last[j]);
    } else {
        lemma_all_deps(vals.drop_last(), i, j);
        let k = choose|k: int| 0 <= k < less.len() && less[k] == vals[i].deps[j];
        assert((less + last)[k] == less[k]);
    }
}

/// What a module imports can be reached.
proof fn lemma_deps_are_names(mods: Mods, s: Seq<char>, j: int)
    requires
        mods.wf(),
        0 <= j < deps_of(mods, s).len(),
    ensures
        names_of(mods).contains(deps_of(mods, s)[j]),
{
    let i = choose|i: int| 0 <= i < mods.keys.len() && mods.keys[i] == s;
    lemma_place_of_key(mods.keys, i);
    lemma_all_deps(mods.vals, i, j);
    let d = deps_of(mods, s)[j];
    let all = all_deps(mods.vals);
    let k = choose|k: int| 0 <= k < all.len() && all[k] == d;
    assert(names_of(mods)[mods.keys.len() + k] == d);
}

/// A walk only reaches more names.
proof fn lemma_visit_grows(mods: Mods, s: Seq<char>, w: Walk, fuel: nat)
    ensures
        w.seen.subset_of(visit(mods, s, w, fuel).seen),
    decreases fuel, 0nat,
{
    if fuel > 0 && !w.seen.contains(s) {
        lemma_visit_all_grows(
            mods,
            deps_of(mods, s),
            Walk { seen: w.seen.insert(s), order: w.order },
            (fuel - 1) as nat,
        );
    }
}

/// A walk only reaches more names.
proof fn lemma_visit_all_grows(mods: Mods, names: Seq<Seq<char>>, w: Walk, fuel: nat)
    ensures
        w.seen.subset_of(visit_all(mods, names, w, fuel).seen),
    decreases fuel, names.len(),
{
    if names.len() > 0 {
        lemma_visit_all_grows(mods, names.drop_last(), w, fuel);
        lemma_visit_grows(mods, names.last(), visit_all(mods, names.drop_last(), w, fuel), fuel);
    }
}

/// The walk that two lists describe.
pub open spec fn walk_of(seen: Seq<String>, order: Seq<String>) -> Walk {
    Walk { seen: texts(seen).to_set(), order: texts(order) }
}

/// A name was reached exactly when it is listed.
proof fn lemma_listed(seen: Seq<String>, s: Seq<char>)
    ensures
        listed(seen, s) <==> texts(seen).to_set().contains(s),
{
    if listed(seen, s) {
        let i = choose|i: int| 0 <= i < seen.len() && (#[trigger] seen[i])@ == s;
        assert(texts(seen)[i] == s);
    }
    if texts(seen).contains(s) {
        let i = choose|i: int| 0 <= i < texts(seen).len() && texts(seen)[i] == s;
        assert(seen[i]@ == s);
    }
}

/// Walks to `s`.
fn visit_name(
    s: &str,
    mods: &TextMap<Mod>,
    seen: &mut Vec<String>,
    order: &mut Vec<String>,
    Ghost(fuel): Ghost<nat>,
)
    requires
        mods@.wf(),
        names_of(mods@).contains(s@),
        unseen(names_of(mods@), walk_of(old(seen)@, old(order)@).seen) <= fuel,
    ensures
        walk_of(final(seen)@, final(order)@) == visit(
            mods@,
            s@,
            walk_of(old(seen)@, old(order)@),
            fuel,
        ),
    decreases fuel,
{
    let ghost w = walk_of(seen@, order@);
    proof {
        lemma_listed(seen@, s@);
    }
    if position_of(seen.as_slice(), s).is_some() {
        return;
    }
    proof {
        lemma_unseen_insert(names_of(mods@), w.seen, s@);
    }
    seen.push(s.to_owned());
    let ghost start = Walk { seen: w.seen.insert(s@), order: w.order };
    let ghost less = (fuel - 1) as nat;
    assert(walk_of(seen@, order@) =~= start) by {
        assert(texts(seen@) =~= texts(old(seen)@).push(s@));
        texts(old(seen)@).lemma_push_to_set_commute(s@);
    }
    let (at, found) = mods.find(s);
    if found {
        let ghost deps = deps_of(mods@, s@);
        assert(mods@.vals[at as int] == mods.vals@[at as int].deep_view());
        let mut j: usize = 0;
        assert(deps.take(0) =~= Seq::empty());
        while j < mods.vals[at].deps.len()
            invariant
                at < mods.vals@.len(),
                j <= mods.vals@[at as int].deps@.len(),
                mods@.wf(),
                deps == deps_of(mods@, s@),
                deps == texts(mods.vals@[at as int].deps@),
                less + 1 == fuel,
                walk_of(seen@, order@) == visit_all(mods@, deps.take(j as int), start, less),
                unseen(names_of(mods@), start.seen) <= less,
            decreases mods.vals@[at as int].deps@.len() - j,
        {
            proof {
                lemma_deps_are_names(mods@, s@, j as int);
                lemma_visit_all_grows(mods@, deps.take(j as int), start, less);
                lemma_unseen_monotone(
                    names_of(mods@),
                    start.seen,
                    walk_of(seen@, order@).seen,
                );
                let now = deps.take(j as int + 1);
                assert(now.drop_last() =~= deps.take(j as int));
                assert(now.last() == deps[j as int]);
            }
            visit_name(mods.vals[at].deps[j].as_str(), mods, seen, order, Ghost(less));
            j = j + 1;
        }
        assert(deps.take(deps.len() as int) =~= deps);
    } else {
        assert(deps_of(mods@, s@) =~= Seq::empty());
    }
    let ghost before = order@;
    order.push(s.to_owned());
    assert(texts(order@) =~= texts(before).push(s@));
}

/// Copies the names that are the system module, or those that are not.
fn pick(mods: &TextMap<Mod>, order: &[String], system: bool, out: &mut Vec<String>)
    requires
        mods@.wf(),
    ensures
        texts(final(out)@) == texts(old(out)@) + part_of(mods@, texts(order@), system),
{
    let ghost start = texts(out@);
    let ghost all = texts(order@);
    let mut i: usize = 0;
    assert(start + part_of(mods@, all.take(0), system) =~= start);
    while i < order.len()
        invariant
            i <= order.len(),
            mods@.wf(),
            all == texts(order@),
            texts(out@) == start + part_of(mods@, all.take(i as int), system),
        decreases order.len() - i,
    {
        let (at, found) = mods.find(order[i].as_str());
        proof {
            let now = all.take(i as int + 1);
            assert(now.drop_last() =~= all.take(i as int));
            assert(now.last() == order@[i as int]@);
            if found {
                assert(mods@.vals[at as int] == mods.vals@[at as int].deep_view());
            }
        }
        let sys: bool = found && mods.vals[at].role == Role::System;
        if sys == system {
            let ghost before = out@;
            out.push(order[i].clone());
            assert(texts(out@) =~= texts(before).push(order@[i as int]@));
            assert(texts(out@) =~= start + part_of(mods@, all.take(i as int + 1), system));
        }
        i = i + 1;
    }
    assert(all.take(all.len() as int) =~= all);
}

/// The order of compilation.
pub fn toposort(mods: &TextMap<Mod>) -> (r: Vec<String>)
    requires
        mods@.wf(),
    ensures
        texts(r@) == spec_toposort(mods@),
{
    let mut seen: Vec<String> = Vec::new();
    let mut order: Vec<String> = Vec::new();
    let ghost fuel = names_of(mods@).len();
    let mut i: usize = 0;
    assert(walk_of(seen@, order@) =~= walk_start());
    while i < mods.keys.len()
        invariant
            i <= mods.keys.len(),
            mods@.wf(),
            mods@.keys.len() == mods.keys@.len(),
            fuel == names_of(mods@).len(),
            walk_of(seen@, order@) == visit_all(
                mods@,
                mods@.keys.take(i as int),
                walk_start(),
                fuel,
            ),
        decreases mods.keys.len() - i,
    {
        proof {
            let now = mods@.keys.take(i as int + 1);
            assert(now.drop_last() =~= mods@.keys.take(i as int));
            assert(now.last() == mods.keys@[i as int]@);
            assert(names_of(mods@)[i as int] == mods.keys@[i as int]@);
            lemma_unseen_monotone(
                names_of(mods@),
                Set::empty(),
                walk_of(seen@, order@).seen,
            );
        }
        visit_name(mods.keys[i].as_str(), mods, &mut seen, &mut order, Ghost(fuel));
        i = i + 1;
    }
    assert(mods@.keys.take(mods@.keys.len() as int) =~= mods@.keys);
    let mut out: Vec<String> = Vec::new();
    assert(texts(out@) =~= Seq::empty());
    pick(mods, order.as_slice(), true, &mut out);
    pick(mods, order.as_slice(), false, &mut out);
    assert(texts(out@) =~= spec_toposort(mods@));
    out
}

/// `v` continues `w`: what `w` did comes first, and every name that was reached since is done once.
pub open spec fn continues(w: Walk, v: Walk) -> bool {
    let new = v.order.skip(w.order.len() as int);
    &&& w.order.len() <= v.order.len()
    &&& v.order.take(w.order.len() as int) == w.order
    &&& w.seen.subset_of(v.seen)
    &&& new.no_duplicates()
    &&& forall|x: Seq<char>| #[trigger]
        new.contains(x) <==> v.seen.contains(x) && !w.seen.contains(x)
}

/// A continuation of a continuation is one.
proof fn lemma_continues_transitive(a: Walk, b: Walk, c: Walk)
    requires
        continues(a, b),
        continues(b, c),
    ensures
        continues(a, c),
{
    let x = b.order.skip(a.order.len() as int);
    let y = c.order.skip(b.order.len() as int);
    let z = c.order.skip(a.order.len() as int);
    assert(c.order.take(a.order.len() as int) =~= c.order.take(b.order.len() as int).take(
        a.order.len() as int,
    ));
    assert(z =~= x + y) by {
        assert forall|i: int| 0 <= i < z.len() implies z[i] == (x + y)[i] by {
            if i < x.len() {
                assert(c.order.take(b.order.len() as int)[a.order.len() + i] == b.order[a.order.len()
                    + i]);
            }
        }
    }
    assert forall|i: int, j: int| 0 <= i < z.len() && 0 <= j < z.len() && i != j implies z[i] != z[j] by {
        if i < x.len() && j >= x.len() {
            assert(x.contains(x[i]));
            assert(y.contains(y[j - x.len()]));
        } else if j < x.len() && i >= x.len() {
            assert(x.contains(x[j]));
            assert(y.contains(y[i - x.len()]));
        }
    }
    assert forall|n: Seq<char>| #[trigger]
        z.contains(n) <==> c.seen.contains(n) && !a.seen.contains(n) by {
        if z.contains(n) {
            let i = choose|i: int| 0 <= i < z.len() && z[i] == n;
            if i < x.len() {
                assert(x.contains(x[i]));
            } else {
                assert(y.contains(y[i - x.len()]));
            }
        }
        if c.seen.contains(n) && !a.seen.contains(n) {
            if b.seen.contains(n) {
                assert(x.contains(n));
                let i = choose|i: int| 0 <= i < x.len() && x[i] == n;
                assert(z[i] == n);
            } else {
                assert(y.contains(n));
                let i = choose|i: int| 0 <= i < y.len() && y[i] == n;
                assert(z[x.len() + i] == n);
            }
        }
    }
}

/// A walk that stays where it is continues itself.
proof fn lemma_continues_reflexive(w: Walk)
    ensures
        continues(w, w),
{
    assert(w.order.take(w.order.len() as int) =~= w.order);
    assert(w.order.skip(w.order.len() as int) =~= Seq::empty());
}

/// Visiting a name continues the walk.
proof fn lemma_visit_continues(mods: Mods, s: Seq<char>, w: Walk, fuel: nat)
    ensures
        continues(w, visit(mods, s, w, fuel)),
    decreases fuel, 0nat,
{
    if fuel == 0 || w.seen.contains(s) {
        lemma_continues_reflexive(w);
    } else {
        let start = Walk { seen: w.seen.insert(s), order: w.order };
        let v = visit_all(mods, deps_of(mods, s), start, (fuel - 1) as nat);
        lemma_visit_all_continues(mods, deps_of(mods, s), start, (fuel - 1) as nat);
        let r = visit(mods, s, w, fuel);
        let old_new = v.order.skip(w.order.len() as int);
        let new = r.order.skip(w.order.len() as int);
        assert(new =~= old_new.push(s));
        assert(r.order.take(w.order.len() as int) =~= v.order.take(w.order.len() as int));
        assert(!old_new.contains(s));
        assert forall|x: Seq<char>| #[trigger]
            new.contains(x) <==> r.seen.contains(x) && !w.seen.contains(x) by {
            if new.contains(x) {
                let i = choose|i: int| 0 <= i < new.len() && new[i] == x;
                if i < old_new.len() {
                    assert(old_new.contains(old_new[i]));
                }
            }
            if r.seen.contains(x) && !w.seen.contains(x) {
                if x == s {
                    assert(new[old_new.len() as int] == s);
                } else {
                    assert(old_new.contains(x));
                    let i = choose|i: int| 0 <= i < old_new.len() && old_new[i] == x;
                    assert(new[i] == x);
                }
            }
        }
        assert forall|i: int, j: int|
            0 <= i < new.len() && 0 <= j < new.len() && i != j implies new[i] != new[j] by {
            if i == old_new.len() {
                assert(old_new.contains(old_new[j]));
            } else if j == old_new.len() {
                assert(old_new.contains(old_new[i]));
            }
        }
    }
}

/// Visiting names continues the walk.
proof fn lemma_visit_all_continues(mods: Mods, names: Seq<Seq<char>>, w: Walk, fuel: nat)
    ensures
        continues(w, visit_all(mods, names, w, fuel)),
    decreases fuel, names.len(),
{
    if names.len() == 0 {
        lemma_continues_reflexive(w);
    } else {
        let v = visit_all(mods, names.drop_last(), w, fuel);
        lemma_visit_all_continues(mods, names.drop_last(), w, fuel);
        lemma_visit_continues(mods, names.last(), v, fuel);
        lemma_continues_transitive(w, v, visit(mods, names.last(), v, fuel));
    }
}

/// With enough fuel a visited name is reached.
proof fn lemma_visit_reaches(mods: Mods, names: Seq<Seq<char>>, w: Walk, fuel: nat, i: int)
    requires
        0 <= i < names.len(),
        forall|j: int| 0 <= j < names.len() ==> names_of(mods).contains(#[trigger] names[j]),
        unseen(names_of(mods), w.seen) <= fuel,
    ensures
        visit_all(mods, names, w, fuel).seen.contains(names[i]),
    decreases names.len(),
{
    let less = names.drop_last();
    let v = visit_all(mods, less, w, fuel);
    lemma_visit_all_grows(mods, less, w, fuel);
    lemma_visit_grows(mods, names.last(), v, fuel);
    if i < less.len() {
        assert forall|j: int| 0 <= j < less.len() implies names_of(mods).contains(
            #[trigger] less[j],
        ) by {
            assert(names_of(mods).contains(names[j]));
        }
        lemma_visit_reaches(mods, less, w, fuel, i);
    } else {
        let s = names.last();
        assert(names_of(mods).contains(names[i]));
        lemma_unseen_monotone(names_of(mods), w.seen, v.seen);
        if !v.seen.contains(s) {
            lemma_unseen_insert(names_of(mods), v.seen, s);
            lemma_visit_all_grows(
                mods,
                deps_of(mods, s),
                Walk { seen: v.seen.insert(s), order: v.order },
                (fuel - 1) as nat,
            );
        }
    }
}

/// A walk stays within the modules and what they import.
proof fn lemma_visit_within(mods: Mods, s: Seq<char>, w: Walk, fuel: nat)
    requires
        mods.wf(),
        names_of(mods).contains(s),
        forall|x: Seq<char>| #[trigger] w.seen.contains(x) ==> names_of(mods).contains(x),
    ensures
        forall|x: Seq<char>| #[trigger]
            visit(mods, s, w, fuel).seen.contains(x) ==> names_of(mods).contains(x),
    decreases fuel, 0nat,
{
    if fuel > 0 && !w.seen.contains(s) {
        let deps = deps_of(mods, s);
        assert forall|j: int| 0 <= j < deps.len() implies names_of(mods).contains(
            #[trigger] deps[j],
        ) by {
            lemma_deps_are_names(mods, s, j);
        }
        let start = Walk { seen: w.seen.insert(s), order: w.order };
        lemma_visit_all_within(mods, deps, start, (fuel - 1) as nat);
        assert(visit(mods, s, w, fuel).seen == visit_all(mods, deps, start, (fuel - 1) as nat).seen);
    } else {
        assert(visit(mods, s, w, fuel) == w);
    }
}

/// A walk stays within the modules and what they import.
proof fn lemma_visit_all_within(mods: Mods, names: Seq<Seq<char>>, w: Walk, fuel: nat)
    requires
        mods.wf(),
        forall|j: int| 0 <= j < names.len() ==> names_of(mods).contains(#[trigger] names[j]),
        forall|x: Seq<char>| #[trigger] w.seen.contains(x) ==> names_of(mods).contains(x),
    ensures
        forall|x: Seq<char>| #[trigger]
            visit_all(mods, names, w, fuel).seen.contains(x) ==> names_of(mods).contains(x),
    decreases fuel, names.len(),
{
    if names.len() > 0 {
        let less = names.drop_last();
        assert forall|j: int| 0 <= j < less.len() implies names_of(mods).contains(
            #[trigger] less[j],
        ) by {
            assert(names_of(mods).contains(names[j]));
        }
        lemma_visit_all_within(mods, less, w, fuel);
        assert(names_of(mods).contains(names[names.len() - 1]));
        let v = visit_all(mods, less, w, fuel);
        lemma_visit_within(mods, names.last(), v, fuel);
        assert(visit_all(mods, names, w, fuel) == visit(mods, names.last(), v, fuel));
    } else {
        assert(visit_all(mods, names, w, fuel) == w);
    }
}

/// Splitting an order keeps every name, once.
proof fn lemma_part_of(mods: Mods, order: Seq<Seq<char>>, system: bool)
    requires
        order.no_duplicates(),
    ensures
        part_of(mods, order, system).no_duplicates(),
        forall|x: Seq<char>| #[trigger]
            part_of(mods, order, system).contains(x) <==> order.contains(x) && is_system(mods, x)
                == system,
    decreases order.len(),
{
    if order.len() > 0 {
        let less = order.drop_last();
        let p = part_of(mods, less, system);
        let r = part_of(mods, order, system);
        let s = order.last();
        assert(less.no_duplicates());
        lemma_part_of(mods, less, system);
        assert(!less.contains(s)) by {
            if less.contains(s) {
                let i = choose|i: int| 0 <= i < less.len() && less[i] == s;
                assert(order[i] == order[order.len() - 1]);
            }
        }
        assert(!p.contains(s));
        assert forall|x: Seq<char>| #[trigger]
            r.contains(x) <==> order.contains(x) && is_system(mods, x) == system by {
            if r.contains(x) {
                let i = choose|i: int| 0 <= i < r.len() && r[i] == x;
                if i < p.len() {
                    assert(p.contains(p[i]));
                    let k = choose|k: int| 0 <= k < less.len() && less[k] == x;
                    assert(order[k] == x);
                } else {
                    assert(order[order.len() - 1] == x);
                }
            }
            if order.contains(x) && is_system(mods, x) == system {
                let k = choose|k: int| 0 <= k < order.len() && order[k] == x;
                if k < less.len() {
                    assert(less[k] == x);
                    assert(p.contains(x));
                    let i = choose|i: int| 0 <= i < p.len() && p[i] == x;
                    assert(r[i] == x);
                } else {
                    assert(r[p.len() as int] == x);
                }
            }
        }
        assert forall|i: int, j: int|
            0 <= i < r.len() && 0 <= j < r.len() && i != j implies r[i] != r[j] by {
            if i == p.len() {
                assert(p.contains(p[j]));
            } else if j == p.len() {
                assert(p.contains(p[i]));
            }
        }
    }
}

/// The walk over all modules does every name that it reaches exactly once, among them every module.
proof fn lemma_postorder(mods: Mods)
    requires
        mods.wf(),
    ensures
        postorder(mods).order.no_duplicates(),
        forall|x: Seq<char>| #[trigger]
            postorder(mods).order.contains(x) <==> postorder(mods).seen.contains(x),
        forall|x: Seq<char>| #[trigger]
            postorder(mods).order.contains(x) ==> names_of(mods).contains(x),
        forall|i: int|
            0 <= i < mods.keys.len() ==> postorder(mods).order.contains(#[trigger] mods.keys[i]),
{
    let fuel = names_of(mods).len();
    let w = walk_start();
    let v = postorder(mods);
    lemma_visit_all_continues(mods, mods.keys, w, fuel);
    assert(v.order.skip(0) =~= v.order);
    assert forall|j: int| 0 <= j < mods.keys.len() implies names_of(mods).contains(
        #[trigger] mods.keys[j],
    ) by {
        assert(names_of(mods)[j] == mods.keys[j]);
    }
    lemma_visit_all_within(mods, mods.keys, w, fuel);
    lemma_unseen_monotone(names_of(mods), w.seen, w.seen);
    assert forall|i: int| 0 <= i < mods.keys.len() implies v.order.contains(
        #[trigger] mods.keys[i],
    ) by {
        lemma_visit_reaches(mods, mods.keys, w, fuel, i);
    }
}

/// The order of compilation holds every module exactly once, and besides modules only what they
/// import.
pub proof fn law_order_is_complete(mods: Mods)
    requires
        mods.wf(),
    ensures
        spec_toposort(mods).no_duplicates(),
        forall|i: int|
            0 <= i < mods.keys.len() ==> spec_toposort(mods).contains(#[trigger] mods.keys[i]),
        forall|x: Seq<char>| #[trigger]
            spec_toposort(mods).contains(x) ==> names_of(mods).contains(x),
{
    let order = postorder(mods).order;
    let a = part_of(mods, order, true);
    let b = part_of(mods, order, false);
    let all = spec_toposort(mods);
    lemma_postorder(mods);
    lemma_part_of(mods, order, true);
    lemma_part_of(mods, order, false);
    assert forall|i: int, j: int|
        0 <= i < all.len() && 0 <= j < all.len() && i != j implies all[i] != all[j] by {
        if i < a.len() && j >= a.len() {
            assert(a.contains(a[i]));
            assert(b.contains(b[j - a.len()]));
        } else if j < a.len() && i >= a.len() {
            assert(a.contains(a[j]));
            assert(b.contains(b[i - a.len()]));
        }
    }
    assert forall|i: int| 0 <= i < mods.keys.len() implies all.contains(#[trigger] mods.keys[i]) by {
        let x = mods.keys[i];
        if is_system(mods, x) {
            assert(a.contains(x));
            let k = choose|k: int| 0 <= k < a.len() && a[k] == x;
            assert(all[k] == x);
        } else {
            assert(b.contains(x));
            let k = choose|k: int| 0 <= k < b.len() && b[k] == x;
            assert(all[a.len() + k] == x);
        }
    }
    assert forall|x: Seq<char>| #[trigger] all.contains(x) implies names_of(mods).contains(x) by {
        let k = choose|k: int| 0 <= k < all.len() && all[k] == x;
        if k < a.len() {
            assert(a.contains(a[k]));
        } else {
            assert(b.contains(b[k - a.len()]));
        }
        assert(order.contains(x));
    }
}

/// The imports have no circle: every one ranks below what imports it.
pub open spec fn no_circle(mods: Mods, rank: spec_fn(Seq<char>) -> nat) -> bool {
    forall|s: Seq<char>, j: int|
        0 <= j < deps_of(mods, s).len() ==> rank(#[trigger] deps_of(mods, s)[j]) < rank(s)
}

/// Everything that a name of `order` imports stands in front of it.
pub open spec fn deps_first(mods: Mods, order: Seq<Seq<char>>) -> bool {
    forall|i: int, j: int|
        0 <= i < order.len() && 0 <= j < deps_of(mods, order[i]).len() ==> order.take(i).contains(
            #[trigger] deps_of(mods, order[i])[j],
        )
}

/// What is done was reached, and what was reached but is not done ranks above `top`.
pub open spec fn open_above(w: Walk, rank: spec_fn(Seq<char>) -> nat, top: nat) -> bool {
    &&& forall|x: Seq<char>| #[trigger] w.order.contains(x) ==> w.seen.contains(x)
    &&& forall|x: Seq<char>| #[trigger]
        w.seen.contains(x) && !w.order.contains(x) ==> rank(x) > top
}

/// A continuation leaves open exactly what was open.
proof fn lemma_open_kept(w: Walk, v: Walk, x: Seq<char>)
    requires
        continues(w, v),
        forall|y: Seq<char>| #[trigger] w.order.contains(y) ==> w.seen.contains(y),
    ensures
        v.order.contains(x) ==> v.seen.contains(x),
        w.order.contains(x) ==> v.order.contains(x),
        v.seen.contains(x) && !v.order.contains(x) ==> w.seen.contains(x) && !w.order.contains(x),
{
    let new = v.order.skip(w.order.len() as int);
    let n = w.order.len() as int;
    if v.order.contains(x) {
        let i = choose|i: int| 0 <= i < v.order.len() && v.order[i] == x;
        if i < n {
            assert(v.order.take(n)[i] == x);
            assert(w.order.contains(w.order[i]));
        } else {
            assert(new[i - n] == x);
            assert(new.contains(x));
        }
    }
    if w.order.contains(x) {
        let i = choose|i: int| 0 <= i < w.order.len() && w.order[i] == x;
        assert(v.order.take(n)[i] == v.order[i]);
        assert(v.order.contains(v.order[i]));
    }
    if v.seen.contains(x) && !v.order.contains(x) && !w.seen.contains(x) {
        assert(new.contains(x));
        let i = choose|i: int| 0 <= i < new.len() && new[i] == x;
        assert(v.order[n + i] == x);
    }
}

/// A continuation leaves nothing open at or below `top` if nothing was.
proof fn lemma_open_above_kept(w: Walk, v: Walk, rank: spec_fn(Seq<char>) -> nat, top: nat)
    requires
        continues(w, v),
        open_above(w, rank, top),
    ensures
        open_above(v, rank, top),
{
    assert forall|x: Seq<char>| #[trigger] v.order.contains(x) implies v.seen.contains(x) by {
        lemma_open_kept(w, v, x);
    }
    assert forall|x: Seq<char>| #[trigger]
        v.seen.contains(x) && !v.order.contains(x) implies rank(x) > top by {
        lemma_open_kept(w, v, x);
    }
}

/// Visiting a name below everything that is open does it, with what it imports in front.
proof fn lemma_visit_deps_first(
    mods: Mods,
    s: Seq<char>,
    w: Walk,
    fuel: nat,
    rank: spec_fn(Seq<char>) -> nat,
)
    requires
        mods.wf(),
        no_circle(mods, rank),
        names_of(mods).contains(s),
        unseen(names_of(mods), w.seen) <= fuel,
        deps_first(mods, w.order),
        open_above(w, rank, rank(s)),
    ensures
        deps_first(mods, visit(mods, s, w, fuel).order),
        visit(mods, s, w, fuel).order.contains(s),
    decreases fuel, 0nat,
{
    if !w.seen.contains(s) {
        lemma_unseen_insert(names_of(mods), w.seen, s);
        let deps = deps_of(mods, s);
        let start = Walk { seen: w.seen.insert(s), order: w.order };
        let less = (fuel - 1) as nat;
        let v = visit_all(mods, deps, start, less);
        assert forall|j: int| 0 <= j < deps.len() implies names_of(mods).contains(
            #[trigger] deps[j],
        ) && rank(deps[j]) < rank(s) by {
            lemma_deps_are_names(mods, s, j);
            assert(rank(deps_of(mods, s)[j]) < rank(s));
        }
        lemma_visit_all_deps_first(mods, deps, start, less, rank, rank(s));
        let r = v.order.push(s);
        assert(visit(mods, s, w, fuel).order == r);
        assert(r[v.order.len() as int] == s);
        assert forall|i: int, j: int|
            0 <= i < r.len() && 0 <= j < deps_of(mods, r[i]).len() implies r.take(i).contains(
            #[trigger] deps_of(mods, r[i])[j],
        ) by {
            let d = deps_of(mods, r[i])[j];
            if i < v.order.len() {
                assert(r[i] == v.order[i]);
                assert(v.order.take(i).contains(deps_of(mods, v.order[i])[j]));
                assert(r.take(i) =~= v.order.take(i));
            } else {
                assert(v.order.contains(deps[j]));
                assert(r.take(i) =~= v.order);
            }
        }
    } else {
        assert(w.order.contains(s));
    }
}

/// Visiting names below everything that is open does them, with what they import in front.
proof fn lemma_visit_all_deps_first(
    mods: Mods,
    names: Seq<Seq<char>>,
    w: Walk,
    fuel: nat,
    rank: spec_fn(Seq<char>) -> nat,
    top: nat,
)
    requires
        mods.wf(),
        no_circle(mods, rank),
        forall|j: int|
            0 <= j < names.len() ==> names_of(mods).contains(#[trigger] names[j]) && rank(names[j])
                < top,
        unseen(names_of(mods), w.seen) <= fuel,
        deps_first(mods, w.order),
        forall|x: Seq<char>| #[trigger] w.order.contains(x) ==> w.seen.contains(x),
        forall|x: Seq<char>| #[trigger]
            w.seen.contains(x) && !w.order.contains(x) ==> rank(x) >= top,
    ensures
        deps_first(mods, visit_all(mods, names, w, fuel).order),
        forall|j: int|
            0 <= j < names.len() ==> visit_all(mods, names, w, fuel).order.contains(
                #[trigger] names[j],
            ),
    decreases fuel, names.len(),
{
    if names.len() > 0 {
        let less = names.drop_last();
        let v = visit_all(mods, less, w, fuel);
        let s = names.last();
        let r = visit(mods, s, v, fuel);
        assert forall|j: int| 0 <= j < less.len() implies names_of(mods).contains(
            #[trigger] less[j],
        ) && rank(less[j]) < top by {
            assert(names_of(mods).contains(names[j]));
        }
        lemma_visit_all_deps_first(mods, less, w, fuel, rank, top);
        lemma_visit_all_continues(mods, less, w, fuel);
        assert(names_of(mods).contains(names[names.len() - 1]) && rank(names[names.len() - 1]) < top);
        assert(open_above(w, rank, rank(s)));
        lemma_open_above_kept(w, v, rank, rank(s));
        lemma_unseen_monotone(names_of(mods), w.seen, v.seen);
        lemma_visit_deps_first(mods, s, v, fuel, rank);
        lemma_visit_continues(mods, s, v, fuel);
        assert(visit_all(mods, names, w, fuel) == r);
        assert forall|j: int| 0 <= j < names.len() implies r.order.contains(#[trigger] names[j]) by {
            if j < less.len() {
                assert(v.order.contains(less[j]));
                lemma_open_kept(v, r, names[j]);
            }
        }
    } else {
        assert(visit_all(mods, names, w, fuel) == w);
    }
}

/// A part of an order is the part of its front, then the rest.
proof fn lemma_part_prefix(mods: Mods, order: Seq<Seq<char>>, system: bool, i: int)
    requires
        0 <= i <= order.len(),
    ensures
        part_of(mods, order.take(i), system).len() <= part_of(mods, order, system).len(),
        part_of(mods, order, system).take(part_of(mods, order.take(i), system).len() as int)
            == part_of(mods, order.take(i), system),
    decreases order.len(),
{
    let front = part_of(mods, order.take(i), system);
    if i == order.len() {
        assert(order.take(i) =~= order);
        assert(front.take(front.len() as int) =~= front);
    } else {
        let less = order.drop_last();
        assert(less.take(i) =~= order.take(i));
        lemma_part_prefix(mods, less, system, i);
        assert(part_of(mods, order, system).take(front.len() as int) =~= part_of(
            mods,
            less,
            system,
        ).take(front.len() as int));
    }
}

/// Where the imports have no circle, everything that a module imports is compiled before it; the
/// system module alone comes first whatever it imports.
pub proof fn law_dependencies_come_first(
    mods: Mods,
    rank: spec_fn(Seq<char>) -> nat,
    i: int,
    j: int,
)
    requires
        mods.wf(),
        no_circle(mods, rank),
        0 <= i < spec_toposort(mods).len(),
        !is_system(mods, spec_toposort(mods)[i]),
        0 <= j < deps_of(mods, spec_toposort(mods)[i]).len(),
    ensures
        spec_toposort(mods).take(i).contains(deps_of(mods, spec_toposort(mods)[i])[j]),
{
    let order = postorder(mods).order;
    let a = part_of(mods, order, true);
    let b = part_of(mods, order, false);
    let all = spec_toposort(mods);
    let x = all[i];
    let d = deps_of(mods, x)[j];
    lemma_postorder(mods);
    lemma_part_of(mods, order, true);
    lemma_part_of(mods, order, false);
    if i < a.len() {
        assert(a.contains(a[i]));
    }
    assert(b.contains(b[i - a.len()]));
    let at = choose|at: int| 0 <= at < order.len() && order[at] == x;
    lemma_all_in_order(mods, rank);
    assert(order.take(at).contains(deps_of(mods, order[at])[j]));
    let k = choose|k: int| 0 <= k < at && order.take(at)[k] == d;
    assert(order[k] == d);
    assert(order.contains(order[k]));
    if is_system(mods, d) {
        assert(a.contains(d));
        let m = choose|m: int| 0 <= m < a.len() && a[m] == d;
        assert(all.take(i)[m] == d);
    } else {
        let front = order.take(at);
        let part = part_of(mods, front, false);
        assert(front.no_duplicates());
        lemma_part_of(mods, front, false);
        assert(front[k] == d);
        assert(front.contains(d));
        assert(part.contains(d));
        let m = choose|m: int| 0 <= m < part.len() && part[m] == d;
        lemma_part_prefix(mods, order, false, at);
        lemma_part_prefix(mods, order, false, at + 1);
        let now = order.take(at + 1);
        assert(now.drop_last() =~= front);
        assert(now.last() == x);
        let longer = part_of(mods, now, false);
        assert(longer == part.push(x));
        assert(b.take(longer.len() as int)[part.len() as int] == x);
        assert(b[part.len() as int] == x);
        assert(part.len() == i - a.len());
        assert(b.take(part.len() as int)[m] == b[m]);
        assert(all.take(i)[a.len() + m] == d);
    }
}

/// Where the imports have no circle, the whole walk does everything after what it imports.
proof fn lemma_all_in_order(mods: Mods, rank: spec_fn(Seq<char>) -> nat)
    requires
        mods.wf(),
        no_circle(mods, rank),
    ensures
        deps_first(mods, postorder(mods).order),
{
    let fuel = names_of(mods).len();
    lemma_unseen_monotone(names_of(mods), Set::empty(), Set::empty());
    lemma_roots_in_order(mods, mods.keys, fuel, rank);
}

/// The walk over the first modules does everything after what it imports.
proof fn lemma_roots_in_order(
    mods: Mods,
    names: Seq<Seq<char>>,
    fuel: nat,
    rank: spec_fn(Seq<char>) -> nat,
)
    requires
        mods.wf(),
        no_circle(mods, rank),
        forall|j: int| 0 <= j < names.len() ==> mods.keys.contains(#[trigger] names[j]),
        unseen(names_of(mods), Set::empty()) <= fuel,
    ensures
        deps_first(mods, visit_all(mods, names, walk_start(), fuel).order),
    decreases names.len(),
{
    if names.len() > 0 {
        let less = names.drop_last();
        let s = names.last();
        let v = visit_all(mods, less, walk_start(), fuel);
        assert forall|j: int| 0 <= j < less.len() implies mods.keys.contains(#[trigger] less[j]) by {
            assert(mods.keys.contains(names[j]));
        }
        lemma_roots_in_order(mods, less, fuel, rank);
        lemma_visit_all_continues(mods, less, walk_start(), fuel);
        assert(open_above(walk_start(), rank, rank(s)));
        lemma_open_above_kept(walk_start(), v, rank, rank(s));
        lemma_unseen_monotone(names_of(mods), Set::empty(), v.seen);
        assert(mods.keys.contains(names[names.len() - 1]));
        let k = choose|k: int| 0 <= k < mods.keys.len() && mods.keys[k] == s;
        assert(names_of(mods)[k] == s);
        lemma_visit_deps_first(mods, s, v, fuel, rank);
    }
}

/// Where there is a system module, one stands first.
pub proof fn lemma_system_first(mods: Mods, i: int)
    requires
        mods.wf(),
        0 <= i < mods.keys.len(),
        mods.at(mods.keys[i]).role == Role::System,
    ensures
        spec_toposort(mods).len() > 0,
        is_system(mods, spec_toposort(mods)[0]),
{
    let order = postorder(mods).order;
    let a = part_of(mods, order, true);
    lemma_postorder(mods);
    lemma_part_of(mods, order, true);
    assert(mods.has(mods.keys[i]));
    assert(a.contains(mods.keys[i]));
    assert(a.contains(a[0]));
    assert(spec_toposort(mods)[0] == a[0]);
}

/// The system module is compiled before every other one, whatever imports it.
pub proof fn law_system_comes_first(mods: Mods, i: int, j: int)
    requires
        0 <= i < spec_toposort(mods).len(),
        0 <= j < spec_toposort(mods).len(),
        is_system(mods, spec_toposort(mods)[i]),
        !is_system(mods, spec_toposort(mods)[j]),
    ensures
        i < j,
{
    let order = postorder(mods).order;
    let a = part_of(mods, order, true);
    let b = part_of(mods, order, false);
    if i >= a.len() {
        lemma_part_is_its_kind(mods, order, false, i - a.len());
    }
    if j < a.len() {
        lemma_part_is_its_kind(mods, order, true, j);
    }
}

/// A part holds names of its own kind.
proof fn lemma_part_is_its_kind(mods: Mods, order: Seq<Seq<char>>, system: bool, i: int)
    requires
        0 <= i < part_of(mods, order, system).len(),
    ensures
        is_system(mods, part_of(mods, order, system)[i]) == system,
    decreases order.len(),
{
    if order.len() > 0 {
        let less = order.drop_last();
        if is_system(mods, order.last()) == system {
            if i < part_of(mods, less, system).len() {
                lemma_part_is_its_kind(mods, less, system, i);
            }
        } else {
            lemma_part_is_its_kind(mods, less, system, i);
        }
    }
}

/// Modules that import nothing are walked in the order of their names.
proof fn lemma_independent_walk(mods: Mods, n: nat)
    requires
        mods.wf(),
        n <= mods.keys.len(),
        forall|i: int| 0 <= i < mods.keys.len() ==> deps_of(mods, #[trigger] mods.keys[i]).len() == 0,
    ensures
        ({
            let w = visit_all(mods, mods.keys.take(n as int), walk_start(), names_of(mods).len());
            &&& w.order == mods.keys.take(n as int)
            &&& forall|x: Seq<char>| #[trigger]
                w.seen.contains(x) <==> mods.keys.take(n as int).contains(x)
        }),
    decreases n,
{
    let keys = mods.keys;
    let now = keys.take(n as int);
    let fuel = names_of(mods).len();
    if n == 0 {
        assert(walk_start().order =~= now);
    } else {
        let less = now.drop_last();
        assert(less =~= keys.take(n - 1));
        lemma_independent_walk(mods, (n - 1) as nat);
        let w = visit_all(mods, less, walk_start(), fuel);
        let s = now.last();
        assert(s == keys[n - 1]);
        assert(!less.contains(s)) by {
            if less.contains(s) {
                let j = choose|j: int| 0 <= j < less.len() && less[j] == s;
                assert(keys[j] == keys[n - 1]);
                crate::sorted::lemma_before_total(keys[j], keys[n - 1]);
            }
        }
        assert(deps_of(mods, keys[n - 1]).len() == 0);
        let inner = Walk { seen: w.seen.insert(s), order: w.order };
        let v = visit_all(mods, deps_of(mods, s), inner, (fuel - 1) as nat);
        assert(v == inner);
        let after = visit_all(mods, now, walk_start(), fuel);
        assert(after == visit(mods, s, w, fuel));
        assert(after.order =~= now);
        assert forall|x: Seq<char>| #[trigger] after.seen.contains(x) <==> now.contains(x) by {
            if now.contains(x) && x != s {
                let j = choose|j: int| 0 <= j < now.len() && now[j] == x;
                assert(less[j] == x);
            }
            if less.contains(x) {
                let j = choose|j: int| 0 <= j < less.len() && less[j] == x;
                assert(now[j] == x);
            }
            if x == s {
                assert(now[n - 1] == x);
            }
        }
    }
}

/// The order leaves nothing to chance: modules that import nothing come in the order of their names.
pub proof fn law_independent_modules_keep_their_order(mods: Mods)
    requires
        mods.wf(),
        forall|i: int| 0 <= i < mods.keys.len() ==> deps_of(mods, #[trigger] mods.keys[i]).len() == 0,
        forall|i: int| 0 <= i < mods.keys.len() ==> !is_system(mods, #[trigger] mods.keys[i]),
    ensures
        spec_toposort(mods) == mods.keys,
{
    lemma_independent_walk(mods, mods.keys.len());
    assert(mods.keys.take(mods.keys.len() as int) =~= mods.keys);
    lemma_part_of_one_kind(mods, mods.keys);
    assert(spec_toposort(mods) =~= mods.keys);
}

/// Names of one kind are one part.
proof fn lemma_part_of_one_kind(mods: Mods, order: Seq<Seq<char>>)
    requires
        forall|i: int| 0 <= i < order.len() ==> !is_system(mods, #[trigger] order[i]),
    ensures
        part_of(mods, order, true).len() == 0,
        part_of(mods, order, false) == order,
    decreases order.len(),
{
    if order.len() > 0 {
        let less = order.drop_last();
        assert forall|i: int| 0 <= i < less.len() implies !is_system(mods, #[trigger] less[i]) by {
            assert(less[i] == order[i]);
        }
        assert(!is_system(mods, order[order.len() - 1]));
        lemma_part_of_one_kind(mods, less);
        assert(less.push(order.last()) =~= order);
    }
}

} // verus!
