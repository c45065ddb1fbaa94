//! The term and atom model.
//!
//! Identifiers are hashed symbol handles; a predicate argument slot is
//! either a ground value or a clause-scoped free variable; an atom is a
//! boolean literal, a predicate application, or a query unknown.

use vstd::prelude::*;

verus! {

/// A hashed identifier. Equality is structural (by hash value); two
/// distinct source identifiers that hash alike are treated as the same
/// symbol, an accepted limitation of the design.
#[derive(Clone, Copy, Debug, PartialEq, Eq, Structural)]
pub struct Ident(pub u64);

/// A predicate argument slot: either a ground value or a free variable
/// scoped to the enclosing clause.
#[derive(Clone, Copy, Debug, PartialEq, Eq, Structural)]
pub enum Var {
    Fixed(Ident),
    Free(Ident),
}

/// The smallest (atomic) operand in a logical formula, generic over the
/// argument representation (ground idents in surface queries, vars inside
/// the engine).
#[derive(Debug)]
pub enum Atom<T> {
    /// A boolean literal, either `true` or `false`.
    Boolean(bool),
    /// A named relation applied to arguments.
    Predicate(Ident, Vec<T>),
    /// A query placeholder whose truth value is being asked for.
    Unknown(Ident),
}

/// The mathematical value of an atom: the argument vector becomes a
/// sequence.
pub enum AtomModel<T> {
    Boolean(bool),
    Predicate(Ident, Seq<T>),
    Unknown(Ident),
}

impl<T> View for Atom<T> {
    type V = AtomModel<T>;

    open spec fn view(&self) -> AtomModel<T> {
        match self {
            Atom::Boolean(b) => AtomModel::Boolean(*b),
            Atom::Predicate(name, args) => AtomModel::Predicate(*name, args@),
            Atom::Unknown(i) => AtomModel::Unknown(*i),
        }
    }
}

/// Rewriting one atom under a single pin: every occurrence of the free
/// variable `to_pin` in a predicate's argument list becomes the fixed
/// value `pin_to`; fixed arguments and non-predicate atoms are untouched.
pub open spec fn spec_pin_var(a: AtomModel<Var>, to_pin: Ident, pin_to: Ident) -> AtomModel<Var> {
    match a {
        AtomModel::Predicate(name, args) => AtomModel::Predicate(
            name,
            args.map_values(
                |v: Var|
                    if v == Var::Free(to_pin) {
                        Var::Fixed(pin_to)
                    } else {
                        v
                    },
            ),
        ),
        _ => a,
    }
}

/// Whether the accumulated pin map already binds the free variable `f`
/// to some value other than `q` (a contradictory binding).
pub open spec fn pins_conflict(acc: Seq<(Ident, Ident)>, f: Ident, q: Ident) -> bool {
    exists|k: int| 0 <= k < acc.len() && (#[trigger] acc[k]).0 == f && acc[k].1 != q
}

/// Unify a stored argument list against a ground query argument list,
/// accumulating the pin map. A fixed stored argument must equal the query
/// argument exactly; a free stored argument pins to it, unless it was
/// already pinned to a different value.
pub open spec fn spec_match_args(
    stored: Seq<Var>,
    query: Seq<Ident>,
    acc: Seq<(Ident, Ident)>,
) -> Option<Seq<(Ident, Ident)>>
    decreases stored.len(),
{
    if stored.len() == 0 {
        Some(acc)
    } else {
        match stored[0] {
            Var::Fixed(id) => if id == query[0] {
                spec_match_args(stored.drop_first(), query.drop_first(), acc)
            } else {
                None
            },
            Var::Free(f) => if pins_conflict(acc, f, query[0]) {
                None
            } else {
                spec_match_args(stored.drop_first(), query.drop_first(), acc.push((f, query[0])))
            },
        }
    }
}

/// Unify one atom with a fully ground predicate instance. Fails unless
/// the atom is a predicate of the same name and arity whose arguments
/// unify; on success yields the accumulated pin map.
pub open spec fn spec_match_predicate(
    a: AtomModel<Var>,
    name: Ident,
    args: Seq<Ident>,
) -> Option<Seq<(Ident, Ident)>> {
    match a {
        AtomModel::Predicate(n, stored) => if n == name && stored.len() == args.len() {
            spec_match_args(stored, args, Seq::empty())
        } else {
            None
        },
        _ => None,
    }
}

/// Scan a pin map for an earlier binding of `f` to a value other than `q`.
fn find_conflict(acc: &Vec<(Ident, Ident)>, f: Ident, q: Ident) -> (r: bool)
    ensures
        r == pins_conflict(acc@, f, q),
{
    let m = acc.len();
    let mut k: usize = 0;
    while k < m
        invariant
            m == acc@.len(),
            k <= m,
            forall|j: int| 0 <= j < k ==> !((#[trigger] acc@[j]).0 == f && acc@[j].1 != q),
        decreases m - k,
    {
        let (from, to) = acc[k];
        if from == f && to != q {
            proof {
                assert(pins_conflict(acc@, f, q));
            }
            return true;
        }
        k = k + 1;
    }
    false
}

impl Atom<Var> {
    /// A structurally equal copy of this atom.
    pub fn deep_clone(&self) -> (r: Atom<Var>)
        ensures
            r@ == self@,
    {
        match self {
            Atom::Boolean(b) => Atom::Boolean(*b),
            Atom::Unknown(i) => Atom::Unknown(*i),
            Atom::Predicate(name, args) => {
                let mut new_args: Vec<Var> = Vec::new();
                let n = args.len();
                let mut i: usize = 0;
                while i < n
                    invariant
                        n == args@.len(),
                        i <= n,
                        new_args@ == args@.subrange(0, i as int),
                    decreases n - i,
                {
                    new_args.push(args[i]);
                    proof {
                        assert(new_args@ =~= args@.subrange(0, i + 1));
                    }
                    i = i + 1;
                }
                proof {
                    assert(new_args@ =~= args@);
                }
                Atom::Predicate(*name, new_args)
            },
        }
    }

    /// Structural equality of two atoms.
    pub fn same_as(&self, other: &Atom<Var>) -> (r: bool)
        ensures
            r == (self@ == other@),
    {
        match (self, other) {
            (Atom::Boolean(a), Atom::Boolean(b)) => a == b,
            (Atom::Unknown(a), Atom::Unknown(b)) => a == b,
            (Atom::Predicate(n1, args1), Atom::Predicate(n2, args2)) => {
                if n1 != n2 || args1.len() != args2.len() {
                    false
                } else {
                    let n = args1.len();
                    let mut i: usize = 0;
                    let mut eq = true;
                    while i < n
                        invariant
                            n == args1@.len() == args2@.len(),
                            i <= n,
                            eq <==> (forall|j: int| 0 <= j < i ==> args1@[j] == args2@[j]),
                        decreases n - i,
                    {
                        let same_arg = args1[i] == args2[i];
                        eq = eq && same_arg;
                        i = i + 1;
                    }
                    proof {
                        if eq {
                            assert(args1@ =~= args2@);
                        } else {
                            assert(args1@ != args2@);
                        }
                    }
                    eq
                }
            },
            _ => {
                proof {
                    assert(self@ != other@);
                }
                false
            },
        }
    }

    /// Rewrite every occurrence of the free variable `to_pin` in this
    /// atom's argument list to the fixed value `pin_to`. A pure, total
    /// rewrite: fixed arguments and non-predicate atoms are untouched.
    pub fn pin_var(&mut self, to_pin: Ident, pin_to: Ident)
        ensures
            final(self)@ == spec_pin_var(old(self)@, to_pin, pin_to),
    {
        match self {
            Atom::Predicate(_, args) => {
                let ghost args0 = args@;
                let n = args.len();
                let mut i: usize = 0;
                while i < n
                    invariant
                        n == args@.len(),
                        args0.len() == n,
                        i <= n,
                        forall|j: int|
                            0 <= j < i ==> args@[j] == (if args0[j] == Var::Free(to_pin) {
                                Var::Fixed(pin_to)
                            } else {
                                args0[j]
                            }),
                        forall|j: int| i <= j < n ==> args@[j] == args0[j],
                    decreases n - i,
                {
                    if let Var::Free(ident) = args[i] {
                        if ident == to_pin {
                            args.set(i, Var::Fixed(pin_to));
                        }
                    }
                    i = i + 1;
                }
                proof {
                    assert(args@ =~= args0.map_values(
                        |v: Var|
                            if v == Var::Free(to_pin) {
                                Var::Fixed(pin_to)
                            } else {
                                v
                            },
                    ));
                }
            },
            _ => {},
        }
    }

    /// Unify this atom with a fully ground predicate instance, given as a
    /// name and argument idents. On success, returns the pin map binding
    /// this clause's free variables to the query's ground idents; the map
    /// never introduces new identifiers.
    pub fn match_predicate(&self, predicate: (&Ident, &Vec<Ident>)) -> (r: Option<
        Vec<(Ident, Ident)>,
    >)
        ensures
            match r {
                Some(pins) => spec_match_predicate(self@, *predicate.0, predicate.1@) == Some(
                    pins@,
                ),
                None => spec_match_predicate(self@, *predicate.0, predicate.1@) is None,
            },
    {
        let (name, qargs) = predicate;
        match self {
            Atom::Predicate(ident, args) => {
                if ident != name || args.len() != qargs.len() {
                    return None;
                }
                let n = args.len();
                let mut acc: Vec<(Ident, Ident)> = Vec::new();
                let mut i: usize = 0;
                proof {
                    assert(args@.skip(0) =~= args@);
                    assert(qargs@.skip(0) =~= qargs@);
                }
                while i < n
                    invariant
                        n == args@.len() == qargs@.len(),
                        i <= n,
                        spec_match_predicate(self@, *predicate.0, predicate.1@)
                            == spec_match_args(args@, qargs@, Seq::empty()),
                        qargs == predicate.1,
                        spec_match_args(args@, qargs@, Seq::empty()) == spec_match_args(
                            args@.skip(i as int),
                            qargs@.skip(i as int),
                            acc@,
                        ),
                    decreases n - i,
                {
                    let ghost pre_args = args@.skip(i as int);
                    let ghost pre_q = qargs@.skip(i as int);
                    proof {
                        assert(pre_args.len() > 0);
                        assert(pre_args[0] == args@[i as int]);
                        assert(pre_q[0] == qargs@[i as int]);
                        assert(pre_args.drop_first() =~= args@.skip(i + 1));
                        assert(pre_q.drop_first() =~= qargs@.skip(i + 1));
                    }
                    match args[i] {
                        Var::Fixed(id) => {
                            if id != qargs[i] {
                                proof {
                                    assert(pre_args[0] == Var::Fixed(id));
                                    assert(spec_match_args(pre_args, pre_q, acc@) is None);
                                }
                                return None;
                            }
                        },
                        Var::Free(f) => {
                            let q = qargs[i];
                            if find_conflict(&acc, f, q) {
                                proof {
                                    assert(pre_args[0] == Var::Free(f));
                                    assert(spec_match_args(pre_args, pre_q, acc@) is None);
                                }
                                return None;
                            }
                            acc.push((f, q));
                        },
                    }
                    i = i + 1;
                }
                proof {
                    assert(args@.skip(n as int).len() == 0);
                }
                Some(acc)
            },
            _ => None,
        }
    }
}

} // verus!
