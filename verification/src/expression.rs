//! The expression data model and its evaluator.

use vstd::prelude::*;

use crate::powerset::{
    all_true, chosen, counter_val, lemma_all_true_val, lemma_chosen_complete,
    lemma_counter_val_bound, lemma_counter_val_injective, lemma_selected_sub,
    lemma_step_flags_len, lemma_step_flags_val, pow2, IntoPowerSet, PowerSet,
};

verus! {

/// A propositional variable, named by a single character.
#[derive(Debug, PartialEq, Eq, Structural, PartialOrd, Ord, Hash, Clone, Copy)]
pub struct Variable(pub char);

/// A formula: the classical connectives plus the modal unary operators.
///
/// Each compound variant owns its operands exclusively, so a value is a
/// finite tree, built bottom-up by a parser and never mutated afterwards.
#[derive(Debug, PartialEq, Eq)]
pub enum Expression {
    Variable(Variable),
    Negated(Box<Expression>),
    And(Box<Expression>, Box<Expression>),
    Or(Box<Expression>, Box<Expression>),
    Conditional(Box<Expression>, Box<Expression>),
    Biconditional(Box<Expression>, Box<Expression>),
    Necessary(Box<Expression>),
    Possible(Box<Expression>),
}

impl Expression {
    /// The set of variables that occur in the formula.
    pub open spec fn spec_variables(self) -> Set<Variable>
        decreases self,
    {
        match self {
            Expression::Variable(v) => Set::empty().insert(v),
            Expression::Negated(e) => e.spec_variables(),
            Expression::And(a, b) => a.spec_variables().union(b.spec_variables()),
            Expression::Or(a, b) => a.spec_variables().union(b.spec_variables()),
            Expression::Conditional(a, b) => a.spec_variables().union(b.spec_variables()),
            Expression::Biconditional(a, b) => a.spec_variables().union(b.spec_variables()),
            Expression::Necessary(e) => e.spec_variables(),
            Expression::Possible(e) => e.spec_variables(),
        }
    }

    /// Whether the formula uses only the classical connectives.
    pub open spec fn is_classical(self) -> bool
        decreases self,
    {
        match self {
            Expression::Variable(_) => true,
            Expression::Negated(e) => e.is_classical(),
            Expression::And(a, b) => a.is_classical() && b.is_classical(),
            Expression::Or(a, b) => a.is_classical() && b.is_classical(),
            Expression::Conditional(a, b) => a.is_classical() && b.is_classical(),
            Expression::Biconditional(a, b) => a.is_classical() && b.is_classical(),
            Expression::Necessary(_) => false,
            Expression::Possible(_) => false,
        }
    }

    /// Truth value under an assignment, given as the set of variables held
    /// true; variables outside the set are false.  The modal operators have
    /// no evaluation semantics in this system, so `sem` is left
    /// unconstrained on them and the executable `eval` refuses them.
    pub open spec fn sem(self, trues: Set<Variable>) -> bool
        recommends
            self.is_classical(),
        decreases self,
    {
        match self {
            Expression::Variable(v) => trues.contains(v),
            Expression::Negated(e) => !e.sem(trues),
            Expression::And(a, b) => a.sem(trues) && b.sem(trues),
            Expression::Or(a, b) => a.sem(trues) || b.sem(trues),
            Expression::Conditional(a, b) => !a.sem(trues) || b.sem(trues),
            Expression::Biconditional(a, b) => a.sem(trues) == b.sem(trues),
            Expression::Necessary(_) => arbitrary(),
            Expression::Possible(_) => arbitrary(),
        }
    }

    /// A formula is a tautology when it is true under every subset of its
    /// own variables (the empty assignment included).
    pub open spec fn spec_is_tautology(self) -> bool {
        forall|s: Set<Variable>| s.subset_of(self.spec_variables()) ==> #[trigger] self.sem(s)
    }

    /// Recursively computes the truth value of the formula under the given
    /// assignment.
    pub fn eval(&self, trues: &VarSet) -> (r: bool)
        requires
            self.is_classical(),
        ensures
            r == self.sem(trues@),
        decreases *self,
    {
        match self {
            Expression::Variable(v) => trues.contains(*v),
            Expression::Negated(e) => !e.eval(trues),
            Expression::And(a, b) => a.eval(trues) && b.eval(trues),
            Expression::Or(a, b) => a.eval(trues) || b.eval(trues),
            Expression::Conditional(a, b) => !a.eval(trues) || b.eval(trues),
            Expression::Biconditional(a, b) => a.eval(trues) == b.eval(trues),
            Expression::Necessary(_) => false,
            Expression::Possible(_) => false,
        }
    }

    /// Reports whether the formula uses only the classical connectives,
    /// and so can be evaluated.
    pub fn classical(&self) -> (r: bool)
        ensures
            r == self.is_classical(),
        decreases *self,
    {
        match self {
            Expression::Variable(_) => true,
            Expression::Negated(e) => e.classical(),
            Expression::And(a, b) => a.classical() && b.classical(),
            Expression::Or(a, b) => a.classical() && b.classical(),
            Expression::Conditional(a, b) => a.classical() && b.classical(),
            Expression::Biconditional(a, b) => a.classical() && b.classical(),
            Expression::Necessary(_) => false,
            Expression::Possible(_) => false,
        }
    }

    /// Collects every distinct variable that occurs in the formula.
    pub fn variables(&self) -> (r: VarSet)
        ensures
            r@ == self.spec_variables(),
            r.wf(),
        decreases *self,
    {
        match self {
            Expression::Variable(v) => {
                let mut s = VarSet::new();
                s.insert(*v);
                proof {
                    assert(s@ =~= self.spec_variables());
                }
                s
            },
            Expression::Negated(e) => e.variables(),
            Expression::Necessary(e) => e.variables(),
            Expression::Possible(e) => e.variables(),
            Expression::And(a, b) => {
                let mut s = a.variables();
                s.add_all(&b.variables());
                s
            },
            Expression::Or(a, b) => {
                let mut s = a.variables();
                s.add_all(&b.variables());
                s
            },
            Expression::Conditional(a, b) => {
                let mut s = a.variables();
                s.add_all(&b.variables());
                s
            },
            Expression::Biconditional(a, b) => {
                let mut s = a.variables();
                s.add_all(&b.variables());
                s
            },
        }
    }

    /// Decides, truth-table style, whether the formula is true under every
    /// assignment to its variables.  The work is exponential in the number
    /// of distinct variables.
    pub fn is_tautology(&self) -> (r: bool)
        requires
            self.is_classical(),
        ensures
            r == self.spec_is_tautology(),
    {
        let vars = self.variables();
        let ghost elems = vars.items@;
        let n = vars.items.len();
        let mut ps = vars.powerset();
        loop
            invariant
                self.is_classical(),
                ps.elements() == elems,
                ps.flags().len() == n,
                elems.len() == n,
                elems.no_duplicates(),
                elems.to_set() == self.spec_variables(),
                !ps.is_done() ==> forall|f: Seq<bool>|
                    f.len() == n && counter_val(f) < counter_val(ps.flags()) ==> self.sem(
                        #[trigger] chosen(f, elems),
                    ),
                ps.is_done() ==> forall|f: Seq<bool>|
                    f.len() == n ==> self.sem(#[trigger] chosen(f, elems)),
            decreases (if ps.is_done() {
                0int
            } else {
                pow2(n as nat) - counter_val(ps.flags()) + 1
            }),
        {
            let ghost prev_flags = ps.flags();
            proof {
                lemma_counter_val_bound(prev_flags);
            }
            match ps.next() {
                None => {
                    proof {
                        assert forall|s: Set<Variable>|
                            s.subset_of(self.spec_variables()) implies self.sem(s) by {
                            lemma_chosen_complete(elems, s);
                            let f = choose|f: Seq<bool>|
                                f.len() == elems.len() && chosen(f, elems) == s;
                            assert(self.sem(chosen(f, elems)));
                        }
                    }
                    return true;
                },
                Some(sub) => {
                    let assignment = VarSet { items: sub };
                    proof {
                        lemma_selected_sub(prev_flags, elems);
                        assert(assignment@ == chosen(prev_flags, elems));
                        assert(assignment@.subset_of(self.spec_variables()));
                    }
                    if !self.eval(&assignment) {
                        proof {
                            assert(!self.sem(assignment@));
                        }
                        return false;
                    }
                    proof {
                        lemma_step_flags_len(prev_flags);
                        lemma_step_flags_val(prev_flags);
                        let pv = counter_val(prev_flags);
                        assert forall|f: Seq<bool>|
                            f.len() == n && counter_val(f) <= pv implies self.sem(
                            #[trigger] chosen(f, elems),
                        ) by {
                            if counter_val(f) == pv {
                                lemma_counter_val_injective(f, prev_flags);
                                assert(chosen(f, elems) == assignment@);
                            }
                        }
                        if all_true(prev_flags) {
                            lemma_all_true_val(prev_flags);
                            assert forall|f: Seq<bool>| f.len() == n implies self.sem(
                                #[trigger] chosen(f, elems),
                            ) by {
                                lemma_counter_val_bound(f);
                                assert(counter_val(f) <= pv);
                            }
                        }
                    }
                },
            }
        }
    }
}

/// The truth value of a classical formula depends only on how the
/// assignment treats the formula's own variables.
pub proof fn lemma_sem_depends_on_variables(e: Expression, s1: Set<Variable>, s2: Set<Variable>)
    requires
        e.is_classical(),
        forall|v: Variable| e.spec_variables().contains(v) ==> (s1.contains(v) == s2.contains(v)),
    ensures
        e.sem(s1) == e.sem(s2),
    decreases e,
{
    match e {
        Expression::Variable(v) => {
            assert(e.spec_variables().contains(v));
        },
        Expression::Negated(x) => {
            lemma_sem_depends_on_variables(*x, s1, s2);
        },
        Expression::And(a, b) => {
            lemma_sem_depends_on_variables(*a, s1, s2);
            lemma_sem_depends_on_variables(*b, s1, s2);
        },
        Expression::Or(a, b) => {
            lemma_sem_depends_on_variables(*a, s1, s2);
            lemma_sem_depends_on_variables(*b, s1, s2);
        },
        Expression::Conditional(a, b) => {
            lemma_sem_depends_on_variables(*a, s1, s2);
            lemma_sem_depends_on_variables(*b, s1, s2);
        },
        Expression::Biconditional(a, b) => {
            lemma_sem_depends_on_variables(*a, s1, s2);
            lemma_sem_depends_on_variables(*b, s1, s2);
        },
        Expression::Necessary(_) => {},
        Expression::Possible(_) => {},
    }
}

/// A tautology is true under every assignment whatever, not only under
/// the subsets of its own variables that the decision procedure tries.
pub proof fn lemma_tautology_all_assignments(e: Expression)
    requires
        e.is_classical(),
    ensures
        e.spec_is_tautology() <==> (forall|s: Set<Variable>| #[trigger] e.sem(s)),
{
    if e.spec_is_tautology() {
        assert forall|s: Set<Variable>| #[trigger] e.sem(s) by {
            let r = s.intersect(e.spec_variables());
            assert(r.subset_of(e.spec_variables()));
            lemma_sem_depends_on_variables(e, s, r);
            assert(e.sem(r));
        }
    }
}

/// A finite set of variables, kept as a duplicate-free vector so that it can
/// be enumerated in a fixed order.
pub struct VarSet {
    items: Vec<Variable>,
}

impl View for VarSet {
    type V = Set<Variable>;

    closed spec fn view(&self) -> Set<Variable> {
        self.items@.to_set()
    }
}

impl VarSet {
    /// The underlying enumeration order.
    pub closed spec fn as_seq(self) -> Seq<Variable> {
        self.items@
    }

    /// The vector never holds a variable twice.
    pub open spec fn wf(self) -> bool {
        self.as_seq().no_duplicates()
    }

    /// The empty set.
    pub fn new() -> (r: VarSet)
        ensures
            r@ == Set::<Variable>::empty(),
            r.as_seq() == Seq::<Variable>::empty(),
            r.wf(),
    {
        let r = VarSet { items: Vec::new() };
        proof {
            assert(r.items@.to_set() =~= Set::<Variable>::empty());
        }
        r
    }

    /// Membership test.
    pub fn contains(&self, v: Variable) -> (r: bool)
        ensures
            r == self@.contains(v),
    {
        let n = self.items.len();
        for i in 0..n
            invariant
                n == self.items.len(),
                forall|k: int| 0 <= k < i ==> self.items@[k] != v,
        {
            if self.items[i] == v {
                proof {
                    assert(self.items@.contains(v));
                }
                return true;
            }
        }
        proof {
            assert(!self.items@.contains(v));
        }
        false
    }

    /// Adds a variable; a variable already present is not added twice.
    pub fn insert(&mut self, v: Variable)
        ensures
            final(self)@ == old(self)@.insert(v),
            old(self).wf() ==> final(self).wf(),
            final(self).as_seq() == if old(self)@.contains(v) {
                old(self).as_seq()
            } else {
                old(self).as_seq().push(v)
            },
    {
        if !self.contains(v) {
            self.items.push(v);
            proof {
                assert(self.items@.drop_last() == old(self).items@);
                assert(self.items@.last() == v);
                assert(self.items@.to_set() =~= old(self).items@.to_set().insert(v));
            }
        } else {
            proof {
                assert(self.items@.to_set() =~= old(self).items@.to_set().insert(v));
            }
        }
    }

    /// Adds every variable of `other`.
    pub fn add_all(&mut self, other: &VarSet)
        ensures
            final(self)@ == old(self)@.union(other@),
            old(self).wf() ==> final(self).wf(),
    {
        let n = other.items.len();
        for i in 0..n
            invariant
                n == other.items.len(),
                self@ =~= old(self)@.union(other.items@.take(i as int).to_set()),
                old(self).wf() ==> self.wf(),
        {
            self.insert(other.items[i]);
            proof {
                assert(other.items@.take(i + 1) =~= other.items@.take(i as int).push(
                    other.items@[i as int],
                ));
                other.items@.take(i as int).lemma_push_to_set_commute(other.items@[i as int]);
            }
        }
        proof {
            assert(other.items@.take(n as int) =~= other.items@);
            assert(self@ =~= old(self)@.union(other@));
        }
    }

    /// How many variables the set holds.
    pub fn len(&self) -> (n: usize)
        ensures
            n == self.as_seq().len(),
            self.wf() ==> n == self@.len(),
    {
        proof {
            if self.wf() {
                self.items@.unique_seq_to_set();
            }
        }
        self.items.len()
    }
}

impl IntoPowerSet<Variable> for VarSet {
    open spec fn powerset_elements(&self) -> Seq<Variable> {
        self.as_seq()
    }

    fn powerset(&self) -> (r: PowerSet<Variable>) {
        PowerSet::new(&self.items)
    }
}

} // verus!
