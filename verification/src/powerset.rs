//! Exhaustive enumeration of the subsets of a finite set.
//!
//! The enumerator keeps one inclusion flag per element and counts through
//! all flag combinations in binary-counter fashion: every call emits the
//! subset selected by the current flags and then ripples a carry from the
//! first element towards the last.

use vstd::prelude::*;

verus! {

/// `2^n`.
pub open spec fn pow2(n: nat) -> nat
    decreases n,
{
    if n == 0 {
        1
    } else {
        2 * pow2((n - 1) as nat)
    }
}

/// The number encoded by a flag vector, least significant flag first.
pub open spec fn counter_val(flags: Seq<bool>) -> nat
    decreases flags.len(),
{
    if flags.len() == 0 {
        0
    } else {
        (if flags[0] {
            1nat
        } else {
            0nat
        }) + 2 * counter_val(flags.drop_first())
    }
}

/// Whether every flag is set.
pub open spec fn all_true(flags: Seq<bool>) -> bool {
    forall|i: int| 0 <= i < flags.len() ==> flags[i]
}

/// One binary-counter step: the leading run of set flags is cleared and the
/// first clear flag is set.  When every flag was set, the step wraps around
/// to the all-clear state.
pub open spec fn step_flags(flags: Seq<bool>) -> Seq<bool>
    decreases flags.len(),
{
    if flags.len() == 0 {
        flags
    } else if flags[0] {
        seq![false] + step_flags(flags.drop_first())
    } else {
        seq![true] + flags.drop_first()
    }
}

/// The elements selected by the set flags, in element order.
pub open spec fn selected<T>(flags: Seq<bool>, elems: Seq<T>) -> Seq<T>
    recommends
        flags.len() == elems.len(),
    decreases flags.len(),
{
    if flags.len() == 0 || flags.len() != elems.len() {
        Seq::empty()
    } else {
        let rest = selected(flags.drop_last(), elems.drop_last());
        if flags.last() {
            rest.push(elems.last())
        } else {
            rest
        }
    }
}

/// The subset named by a flag vector.
pub open spec fn chosen<T>(flags: Seq<bool>, elems: Seq<T>) -> Set<T> {
    selected(flags, elems).to_set()
}

pub proof fn lemma_counter_val_bound(flags: Seq<bool>)
    ensures
        counter_val(flags) < pow2(flags.len()),
    decreases flags.len(),
{
    if flags.len() > 0 {
        lemma_counter_val_bound(flags.drop_first());
    }
}

pub proof fn lemma_counter_val_injective(f1: Seq<bool>, f2: Seq<bool>)
    requires
        f1.len() == f2.len(),
        counter_val(f1) == counter_val(f2),
    ensures
        f1 =~= f2,
    decreases f1.len(),
{
    if f1.len() > 0 {
        assert(f1[0] == f2[0]);
        lemma_counter_val_injective(f1.drop_first(), f2.drop_first());
        assert forall|i: int| 0 <= i < f1.len() implies f1[i] == f2[i] by {
            if i > 0 {
                assert(f1.drop_first()[i - 1] == f2.drop_first()[i - 1]);
            }
        }
    }
}

/// The all-set flag vector encodes the top counter value.
pub proof fn lemma_all_true_val(flags: Seq<bool>)
    requires
        all_true(flags),
    ensures
        counter_val(flags) == pow2(flags.len()) - 1,
    decreases flags.len(),
{
    if flags.len() > 0 {
        let rest = flags.drop_first();
        assert(all_true(rest)) by {
            assert(forall|i: int| 0 <= i < rest.len() ==> rest[i] == flags[i + 1]);
        }
        lemma_all_true_val(rest);
    }
}

pub proof fn lemma_step_flags_len(flags: Seq<bool>)
    ensures
        step_flags(flags).len() == flags.len(),
    decreases flags.len(),
{
    if flags.len() > 0 && flags[0] {
        lemma_step_flags_len(flags.drop_first());
    }
}

/// The step counts: it adds one, or wraps to zero from the top value.
pub proof fn lemma_step_flags_val(flags: Seq<bool>)
    ensures
        counter_val(step_flags(flags)) == if all_true(flags) {
            0nat
        } else {
            counter_val(flags) + 1
        },
    decreases flags.len(),
{
    if flags.len() > 0 {
        let rest = flags.drop_first();
        lemma_step_flags_val(rest);
        if flags[0] {
            let s = seq![false] + step_flags(rest);
            assert(s[0] == false);
            assert(s.drop_first() =~= step_flags(rest));
            if all_true(flags) {
                assert(all_true(rest)) by {
                    assert(forall|i: int| 0 <= i < rest.len() ==> rest[i] == flags[i + 1]);
                }
            } else {
                assert(!all_true(rest)) by {
                    let j = choose|i: int| 0 <= i < flags.len() && !flags[i];
                    assert(rest[j - 1] == flags[j]);
                }
            }
        } else {
            let s = seq![true] + rest;
            assert(s[0] == true);
            assert(s.drop_first() =~= rest);
            assert(!all_true(flags));
        }
    }
}

pub proof fn lemma_all_true_step_clears(flags: Seq<bool>)
    requires
        all_true(flags),
    ensures
        forall|i: int| 0 <= i < step_flags(flags).len() ==> !step_flags(flags)[i],
    decreases flags.len(),
{
    if flags.len() > 0 {
        let rest = flags.drop_first();
        assert(all_true(rest)) by {
            assert(forall|i: int| 0 <= i < rest.len() ==> rest[i] == flags[i + 1]);
        }
        lemma_all_true_step_clears(rest);
        lemma_step_flags_len(rest);
        let s = seq![false] + step_flags(rest);
        assert forall|i: int| 0 <= i < s.len() implies !s[i] by {
            if i > 0 {
                assert(s[i] == step_flags(rest)[i - 1]);
            }
        }
    }
}

/// Every selected element comes from the element list, and a selection out
/// of a duplicate-free list is itself duplicate-free.
pub proof fn lemma_selected_sub<T>(flags: Seq<bool>, elems: Seq<T>)
    ensures
        chosen(flags, elems).subset_of(elems.to_set()),
        elems.no_duplicates() ==> selected(flags, elems).no_duplicates(),
    decreases flags.len(),
{
    if flags.len() == 0 || flags.len() != elems.len() {
        assert forall|x: T| chosen(flags, elems).contains(x) implies elems.to_set().contains(
            x,
        ) by {}
    } else {
        let f2 = flags.drop_last();
        let e2 = elems.drop_last();
        lemma_selected_sub(f2, e2);
        assert(elems.no_duplicates() ==> e2.no_duplicates());
        assert forall|x: T| chosen(flags, elems).contains(x) implies elems.to_set().contains(
            x,
        ) by {
            if selected(f2, e2).contains(x) {
                assert(e2.to_set().contains(x));
                let i = choose|i: int| 0 <= i < e2.len() && e2[i] == x;
                assert(elems[i] == x);
            } else {
                assert(x == elems.last());
            }
        }
        if elems.no_duplicates() && flags.last() {
            if selected(f2, e2).contains(elems.last()) {
                assert(e2.to_set().contains(elems.last()));
                let i = choose|i: int| 0 <= i < e2.len() && e2[i] == elems.last();
                assert(elems[i] == elems[elems.len() - 1]);
                assert(false);
            }
        }
    }
}

/// Every subset of a duplicate-free element list is named by some flag
/// vector; together with [`lemma_chosen_injective`] this says that the
/// `2^n` flag vectors name each subset exactly once.
pub proof fn lemma_chosen_complete<T>(elems: Seq<T>, s: Set<T>)
    requires
        s.subset_of(elems.to_set()),
    ensures
        exists|f: Seq<bool>| f.len() == elems.len() && chosen(f, elems) == s,
    decreases elems.len(),
{
    if elems.len() == 0 {
        let f = Seq::<bool>::empty();
        assert forall|x: T| s.contains(x) implies false by {
            assert(elems.to_set().contains(x));
        }
        assert(chosen(f, elems) =~= s);
    } else {
        let e2 = elems.drop_last();
        let t = elems.last();
        let s2 = s.remove(t);
        assert forall|x: T| s2.contains(x) implies e2.to_set().contains(x) by {
            assert(elems.to_set().contains(x));
            let i = choose|i: int| 0 <= i < elems.len() && elems[i] == x;
            assert(i < elems.len() - 1);
            assert(e2[i] == x);
        }
        lemma_chosen_complete(e2, s2);
        let f2 = choose|f2: Seq<bool>| f2.len() == e2.len() && chosen(f2, e2) == s2;
        let f = f2.push(s.contains(t));
        assert(f.drop_last() =~= f2);
        assert(f.last() == s.contains(t));
        if s.contains(t) {
            assert(selected(f, elems) =~= selected(f2, e2).push(t));
            assert(chosen(f, elems) =~= s) by {
                assert forall|x: T| chosen(f, elems).contains(x) implies s.contains(x) by {
                    if selected(f2, e2).contains(x) {
                        assert(s2.contains(x));
                    }
                }
                assert forall|x: T| s.contains(x) implies chosen(f, elems).contains(x) by {
                    if x != t {
                        assert(s2.contains(x));
                        assert(selected(f2, e2).contains(x));
                        let i = choose|i: int|
                            0 <= i < selected(f2, e2).len() && selected(f2, e2)[i] == x;
                        assert(selected(f, elems)[i] == x);
                    } else {
                        assert(selected(f, elems).last() == t);
                    }
                }
            }
        } else {
            assert(selected(f, elems) =~= selected(f2, e2));
            assert(chosen(f, elems) =~= s) by {
                assert forall|x: T| s.contains(x) implies chosen(f, elems).contains(x) by {
                    assert(x != t);
                    assert(s2.contains(x));
                }
                assert forall|x: T| chosen(f, elems).contains(x) implies s.contains(x) by {
                    assert(s2.contains(x));
                }
            }
        }
        assert(f.len() == elems.len());
    }
}

/// Distinct flag vectors over a duplicate-free element list name distinct
/// subsets.
pub proof fn lemma_chosen_injective<T>(f1: Seq<bool>, f2: Seq<bool>, elems: Seq<T>)
    requires
        f1.len() == elems.len(),
        f2.len() == elems.len(),
        elems.no_duplicates(),
        chosen(f1, elems) == chosen(f2, elems),
    ensures
        f1 =~= f2,
    decreases elems.len(),
{
    if elems.len() > 0 {
        let e2 = elems.drop_last();
        let t = elems.last();
        let g1 = f1.drop_last();
        let g2 = f2.drop_last();
        lemma_selected_sub(g1, e2);
        lemma_selected_sub(g2, e2);
        assert(!e2.to_set().contains(t)) by {
            if e2.to_set().contains(t) {
                let i = choose|i: int| 0 <= i < e2.len() && e2[i] == t;
                assert(elems[i] == elems[elems.len() - 1]);
            }
        }
        assert(chosen(f1, elems).contains(t) == f1.last()) by {
            lemma_chosen_last(f1, elems);
        }
        assert(chosen(f2, elems).contains(t) == f2.last()) by {
            lemma_chosen_last(f2, elems);
        }
        assert(f1.last() == f2.last());
        assert(chosen(g1, e2) =~= chosen(g2, e2)) by {
            lemma_chosen_drop(f1, elems);
            lemma_chosen_drop(f2, elems);
        }
        lemma_chosen_injective(g1, g2, e2);
        assert forall|i: int| 0 <= i < f1.len() implies f1[i] == f2[i] by {
            if i < f1.len() - 1 {
                assert(g1[i] == g2[i]);
            }
        }
    }
}

/// The last element is chosen exactly when its flag is set, provided it
/// does not also occur earlier in the list.
proof fn lemma_chosen_last<T>(f: Seq<bool>, elems: Seq<T>)
    requires
        f.len() == elems.len(),
        elems.len() > 0,
        elems.no_duplicates(),
    ensures
        chosen(f, elems).contains(elems.last()) == f.last(),
{
    let e2 = elems.drop_last();
    let g = f.drop_last();
    lemma_selected_sub(g, e2);
    assert(!e2.to_set().contains(elems.last())) by {
        if e2.to_set().contains(elems.last()) {
            let i = choose|i: int| 0 <= i < e2.len() && e2[i] == elems.last();
            assert(elems[i] == elems[elems.len() - 1]);
        }
    }
    if f.last() {
        assert(selected(f, elems).last() == elems.last());
        assert(selected(f, elems).contains(elems.last()));
    } else {
        assert(selected(f, elems) == selected(g, e2));
        if selected(g, e2).contains(elems.last()) {
            assert(e2.to_set().contains(elems.last()));
        }
    }
}

/// Dropping the last flag and element restricts the chosen subset to the
/// earlier elements.
proof fn lemma_chosen_drop<T>(f: Seq<bool>, elems: Seq<T>)
    requires
        f.len() == elems.len(),
        elems.len() > 0,
        elems.no_duplicates(),
    ensures
        chosen(f.drop_last(), elems.drop_last()) =~= chosen(f, elems).remove(elems.last()),
{
    let e2 = elems.drop_last();
    let t = elems.last();
    let g = f.drop_last();
    lemma_selected_sub(g, e2);
    assert(!e2.to_set().contains(t)) by {
        if e2.to_set().contains(t) {
            let i = choose|i: int| 0 <= i < e2.len() && e2[i] == t;
            assert(elems[i] == elems[elems.len() - 1]);
        }
    }
    assert forall|x: T| chosen(g, e2).contains(x) implies chosen(f, elems).remove(t).contains(
        x,
    ) by {
        assert(x != t);
        let i = choose|i: int| 0 <= i < selected(g, e2).len() && selected(g, e2)[i] == x;
        if f.last() {
            assert(selected(f, elems)[i] == x);
        } else {
            assert(selected(f, elems) == selected(g, e2));
        }
    }
    assert forall|x: T| chosen(f, elems).remove(t).contains(x) implies chosen(g, e2).contains(
        x,
    ) by {
        let i = choose|i: int| 0 <= i < selected(f, elems).len() && selected(f, elems)[i] == x;
        if f.last() {
            if i < selected(f, elems).len() - 1 {
                assert(selected(g, e2)[i] == x);
            } else {
                assert(x == t);
            }
        } else {
            assert(selected(f, elems) == selected(g, e2));
        }
    }
}

/// A lazily stepped enumerator over the subsets of a list of elements.
///
/// Each call of [`PowerSet::next`] yields one subset; a fresh enumerator
/// starts at the empty subset, and the enumeration is finished once every
/// flag combination has been emitted.  A finished enumerator is not
/// restartable.
pub struct PowerSet<T> {
    items: Vec<(bool, T)>,
    done: bool,
}

impl<T> PowerSet<T> {
    /// The inclusion flags, in element order.
    pub closed spec fn flags(self) -> Seq<bool> {
        self.items@.map_values(|p: (bool, T)| p.0)
    }

    /// The elements being enumerated, in order.
    pub closed spec fn elements(self) -> Seq<T> {
        self.items@.map_values(|p: (bool, T)| p.1)
    }

    /// Whether the enumeration is exhausted.
    pub closed spec fn is_done(self) -> bool {
        self.done
    }
}

impl<T: Copy> PowerSet<T> {
    /// A fresh enumerator over the elements of `s`, positioned at the empty
    /// subset.
    pub fn new(s: &Vec<T>) -> (r: PowerSet<T>)
        ensures
            r.elements() == s@,
            r.flags() =~= Seq::new(s@.len(), |i: int| false),
            !r.is_done(),
            counter_val(r.flags()) == 0,
    {
        let mut items: Vec<(bool, T)> = Vec::new();
        let n = s.len();
        for i in 0..n
            invariant
                n == s.len(),
                items@.len() == i,
                forall|k: int| 0 <= k < i ==> items@[k] == (false, s@[k]),
        {
            items.push((false, s[i]));
        }
        let r = PowerSet { items, done: false };
        proof {
            assert(r.elements() =~= s@);
            assert(r.flags() =~= Seq::new(s@.len(), |i: int| false));
            lemma_counter_val_zero(r.flags());
        }
        r
    }

    /// Emits the subset selected by the current flags and advances the
    /// binary counter; yields nothing once the enumeration is exhausted.
    pub fn next(&mut self) -> (r: Option<Vec<T>>)
        ensures
            old(self).is_done() ==> r is None && *final(self) == *old(self),
            !old(self).is_done() ==> {
                &&& r matches Some(sub) && sub@ == selected(old(self).flags(), old(self).elements())
                &&& final(self).elements() == old(self).elements()
                &&& final(self).flags() =~= step_flags(old(self).flags())
                &&& final(self).is_done() == all_true(old(self).flags())
            },
    {
        if self.done {
            return None;
        }
        let ghost old_items = self.items@;
        let mut carrying = true;
        let mut sub: Vec<T> = Vec::new();
        let n = self.items.len();
        let mut i: usize = 0;
        while i < n
            invariant
                n == self.items.len(),
                self.items@.len() == old_items.len(),
                !self.done,
                i <= n,
                forall|k: int| i <= k < n ==> self.items@[k] == old_items[k],
                forall|k: int| 0 <= k < n ==> self.items@[k].1 == old_items[k].1,
                sub@ == selected(
                    old_items.take(i as int).map_values(|p: (bool, T)| p.0),
                    old_items.take(i as int).map_values(|p: (bool, T)| p.1),
                ),
                carrying == all_true(old_items.take(i as int).map_values(|p: (bool, T)| p.0)),
                self.items@.take(i as int).map_values(|p: (bool, T)| p.0) =~= step_flags(
                    old_items.take(i as int).map_values(|p: (bool, T)| p.0),
                ),
            decreases n - i,
        {
            let ghost pf = old_items.take(i as int).map_values(|p: (bool, T)| p.0);
            let ghost pe = old_items.take(i as int).map_values(|p: (bool, T)| p.1);
            let flag = self.items[i].0;
            let item = self.items[i].1;
            if flag {
                sub.push(item);
            }
            if carrying {
                if flag {
                    self.items[i].0 = false;
                } else {
                    self.items[i].0 = true;
                    carrying = false;
                }
            }
            i = i + 1;
            proof {
                let pf1 = old_items.take(i as int).map_values(|p: (bool, T)| p.0);
                let pe1 = old_items.take(i as int).map_values(|p: (bool, T)| p.1);
                assert(old_items.take(i as int) =~= old_items.take(i - 1).push(old_items[i - 1]));
                assert(pf1 =~= pf.push(old_items[i - 1].0));
                assert(pe1 =~= pe.push(old_items[i - 1].1));
                assert(pf1.drop_last() =~= pf);
                assert(pe1.drop_last() =~= pe);
                assert(sub@ == selected(pf1, pe1));
                lemma_all_true_push(pf, old_items[i - 1].0);
                lemma_step_flags_push(pf, old_items[i - 1].0);
                assert(self.items@.take(i as int) =~= self.items@.take(i - 1).push(
                    self.items@[i - 1],
                ));
                assert(self.items@.take(i as int).map_values(|p: (bool, T)| p.0) =~= self.items@.take(
                    i - 1,
                ).map_values(|p: (bool, T)| p.0).push(self.items@[i - 1].0));
            }
        }
        if carrying {
            self.done = true;
        }
        proof {
            assert(old_items.take(n as int) =~= old_items);
            assert(self.items@.take(n as int) =~= self.items@);
            assert(old(self).flags() =~= old_items.map_values(|p: (bool, T)| p.0));
            assert(old(self).elements() =~= old_items.map_values(|p: (bool, T)| p.1));
            assert(self.elements() =~= old(self).elements());
            let fo = old(self).flags();
            let fx = old_items.take(n as int).map_values(|p: (bool, T)| p.0);
            assert(fx == fo);
            if carrying {
                assert(all_true(fx));
                assert forall|k: int| 0 <= k < fo.len() implies fo[k] by {
                    assert(fx[k]);
                }
                assert(all_true(fo));
            } else {
                assert(!all_true(fx));
                if all_true(fo) {
                    let j = choose|j: int| 0 <= j < fx.len() && !fx[j];
                    assert(fo[j]);
                    assert(false);
                }
            }
            assert(self.done == all_true(fo));
        }
        Some(sub)
    }
}

proof fn lemma_counter_val_zero(flags: Seq<bool>)
    requires
        forall|i: int| 0 <= i < flags.len() ==> !flags[i],
    ensures
        counter_val(flags) == 0,
    decreases flags.len(),
{
    if flags.len() > 0 {
        assert(forall|i: int|
            0 <= i < flags.drop_first().len() ==> flags.drop_first()[i] == flags[i + 1]);
        lemma_counter_val_zero(flags.drop_first());
    }
}

proof fn lemma_all_true_push(flags: Seq<bool>, x: bool)
    ensures
        all_true(flags.push(x)) == (all_true(flags) && x),
{
    let p = flags.push(x);
    if all_true(flags) && x {
        assert forall|i: int| 0 <= i < p.len() implies p[i] by {
            if i < flags.len() {
                assert(p[i] == flags[i]);
            }
        }
    }
    if all_true(p) {
        assert forall|i: int| 0 <= i < flags.len() implies flags[i] by {
            assert(p[i]);
        }
        assert(p[flags.len() as int]);
    }
}

/// The counter step commutes with extending the flag vector at the far
/// end: the carry reaches the new flag only when every earlier flag is set.
proof fn lemma_step_flags_push(flags: Seq<bool>, x: bool)
    ensures
        step_flags(flags.push(x)) =~= step_flags(flags).push(
            if all_true(flags) {
                !x
            } else {
                x
            },
        ),
    decreases flags.len(),
{
    let p = flags.push(x);
    if flags.len() == 0 {
        if x {
            assert(p[0]);
            assert(p.drop_first() =~= Seq::<bool>::empty());
        } else {
            assert(!p[0]);
            assert(p.drop_first() =~= Seq::<bool>::empty());
        }
    } else {
        assert(p[0] == flags[0]);
        assert(p.drop_first() =~= flags.drop_first().push(x));
        lemma_step_flags_push(flags.drop_first(), x);
        if flags[0] {
            assert(all_true(flags) == all_true(flags.drop_first())) by {
                assert(forall|i: int|
                    0 <= i < flags.drop_first().len() ==> flags.drop_first()[i] == flags[i + 1]);
                if all_true(flags.drop_first()) {
                    assert forall|i: int| 0 <= i < flags.len() implies flags[i] by {
                        if i > 0 {
                            assert(flags.drop_first()[i - 1]);
                        }
                    }
                }
            }
            assert(step_flags(p) =~= seq![false] + step_flags(p.drop_first()));
        } else {
            assert(!all_true(flags));
            assert(step_flags(p) =~= seq![true] + p.drop_first());
            assert(step_flags(flags) =~= seq![true] + flags.drop_first());
        }
    }
}

/// Anything whose elements can be listed can be enumerated subset by
/// subset.
pub trait IntoPowerSet<T>: Sized {
    /// The elements the enumerator will range over, in order.
    spec fn powerset_elements(&self) -> Seq<T>;

    /// A fresh enumerator over this collection's elements.
    fn powerset(&self) -> (r: PowerSet<T>)
        ensures
            r.elements() == self.powerset_elements(),
            r.flags() =~= Seq::new(self.powerset_elements().len(), |i: int| false),
            !r.is_done(),
            counter_val(r.flags()) == 0,
    ;
}

impl<T: Copy> IntoPowerSet<T> for Vec<T> {
    open spec fn powerset_elements(&self) -> Seq<T> {
        self@
    }

    fn powerset(&self) -> (r: PowerSet<T>) {
        PowerSet::new(self)
    }
}

} // verus!
