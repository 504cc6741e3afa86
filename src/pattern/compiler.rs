use vstd::prelude::*;

verus! {

broadcast use vstd::seq::axiom_seq_subrange_decreases, vstd::std_specs::vec::axiom_vec_decreases_to_view,
    vstd::std_specs::vec::axiom_vec_index_decreases;

/// Intermediate representation of an expression made up of leaf matchers and
/// boolean operators. The leaves are regex patterns for strings, or other
/// things for structured input.
pub enum PatternNode<L> {
    Leaf { leaf: L },
    Any { children: Vec<PatternNode<L>> },
    All { children: Vec<PatternNode<L>> },
    Not { child: Box<PatternNode<L>> },
}

/// Disjunction of two optional truth values; `None` stands for "no expression"
/// and is neutral.
pub open spec fn join_or(a: Option<bool>, b: Option<bool>) -> Option<bool> {
    match (a, b) {
        (None, x) => x,
        (x, None) => x,
        (Some(p), Some(q)) => Some(p || q),
    }
}

/// Conjunction of two optional truth values; `None` is neutral.
pub open spec fn join_and(a: Option<bool>, b: Option<bool>) -> Option<bool> {
    match (a, b) {
        (None, x) => x,
        (x, None) => x,
        (Some(p), Some(q)) => Some(p && q),
    }
}

pub open spec fn negate(a: Option<bool>) -> Option<bool> {
    match a {
        None => None,
        Some(p) => Some(!p),
    }
}

/// Truth value of a node, given the truth value of each leaf. An `Any` or
/// `All` without children is no expression (`None`), and so is every node
/// that holds only such nodes.
pub open spec fn eval<L>(n: PatternNode<L>, f: spec_fn(L) -> bool) -> Option<bool>
    decreases n,
{
    match n {
        PatternNode::Leaf { leaf } => Some(f(leaf)),
        PatternNode::Any { children } => eval_any(children@, f),
        PatternNode::All { children } => eval_all(children@, f),
        PatternNode::Not { child } => negate(eval(*child, f)),
    }
}

pub open spec fn eval_any<L>(s: Seq<PatternNode<L>>, f: spec_fn(L) -> bool) -> Option<bool>
    decreases s,
{
    if s.len() == 0 {
        None
    } else {
        join_or(eval_any(s.subrange(0, s.len() - 1), f), eval(s[s.len() - 1], f))
    }
}

pub open spec fn eval_all<L>(s: Seq<PatternNode<L>>, f: spec_fn(L) -> bool) -> Option<bool>
    decreases s,
{
    if s.len() == 0 {
        None
    } else {
        join_and(eval_all(s.subrange(0, s.len() - 1), f), eval(s[s.len() - 1], f))
    }
}

/// Number of nodes of a tree.
pub open spec fn count<L>(n: PatternNode<L>) -> nat
    decreases n,
{
    match n {
        PatternNode::Leaf { .. } => 1,
        PatternNode::Any { children } => 1 + count_seq(children@),
        PatternNode::All { children } => 1 + count_seq(children@),
        PatternNode::Not { child } => 1 + count(*child),
    }
}

pub open spec fn count_seq<L>(s: Seq<PatternNode<L>>) -> nat
    decreases s,
{
    if s.len() == 0 {
        0
    } else {
        count_seq(s.subrange(0, s.len() - 1)) + count(s[s.len() - 1])
    }
}

/// No `Any` or `All` without children anywhere in the tree.
pub open spec fn no_empty<L>(n: PatternNode<L>) -> bool
    decreases n,
{
    match n {
        PatternNode::Leaf { .. } => true,
        PatternNode::Any { children } => children@.len() > 0 && all_no_empty(children@),
        PatternNode::All { children } => children@.len() > 0 && all_no_empty(children@),
        PatternNode::Not { child } => no_empty(*child),
    }
}

pub open spec fn all_no_empty<L>(s: Seq<PatternNode<L>>) -> bool
    decreases s,
{
    if s.len() == 0 {
        true
    } else {
        all_no_empty(s.subrange(0, s.len() - 1)) && no_empty(s[s.len() - 1])
    }
}


/// Whether every leaf of the tree satisfies `p`.
pub open spec fn leaves_in<L>(n: PatternNode<L>, p: spec_fn(L) -> bool) -> bool
    decreases n,
{
    match n {
        PatternNode::Leaf { leaf } => p(leaf),
        PatternNode::Any { children } => all_leaves_in(children@, p),
        PatternNode::All { children } => all_leaves_in(children@, p),
        PatternNode::Not { child } => leaves_in(*child, p),
    }
}

pub open spec fn all_leaves_in<L>(s: Seq<PatternNode<L>>, p: spec_fn(L) -> bool) -> bool
    decreases s,
{
    if s.len() == 0 {
        true
    } else {
        all_leaves_in(s.subrange(0, s.len() - 1), p) && leaves_in(s[s.len() - 1], p)
    }
}

pub proof fn lemma_all_leaves_in_index<L>(s: Seq<PatternNode<L>>, p: spec_fn(L) -> bool)
    ensures
        all_leaves_in(s, p) <==> forall|j: int| 0 <= j < s.len() ==> leaves_in(#[trigger] s[j], p),
    decreases s.len(),
{
    if s.len() > 0 {
        let s0 = s.subrange(0, s.len() - 1);
        lemma_all_leaves_in_index(s0, p);
        assert forall|j: int| 0 <= j < s0.len() implies s0[j] == s[j] by {}
    }
}

/// A leaf property implied by another holds wherever the other does.
pub proof fn lemma_leaves_in_weaken<L>(n: PatternNode<L>, p: spec_fn(L) -> bool, q: spec_fn(L) -> bool)
    requires
        leaves_in(n, p),
        forall|l: L| #[trigger] p(l) ==> q(l),
    ensures
        leaves_in(n, q),
    decreases n,
{
    match n {
        PatternNode::Leaf { .. } => {},
        PatternNode::Any { children } => lemma_all_leaves_in_weaken(children@, p, q),
        PatternNode::All { children } => lemma_all_leaves_in_weaken(children@, p, q),
        PatternNode::Not { child } => lemma_leaves_in_weaken(*child, p, q),
    }
}

pub proof fn lemma_all_leaves_in_weaken<L>(s: Seq<PatternNode<L>>, p: spec_fn(L) -> bool, q: spec_fn(L) -> bool)
    requires
        all_leaves_in(s, p),
        forall|l: L| #[trigger] p(l) ==> q(l),
    ensures
        all_leaves_in(s, q),
    decreases s,
{
    if s.len() > 0 {
        lemma_all_leaves_in_weaken(s.subrange(0, s.len() - 1), p, q);
        lemma_leaves_in_weaken(s[s.len() - 1], p, q);
    }
}

/// Keeps to the leaves of `n`: every leaf property of `n` holds of `m`.
pub open spec fn keeps_leaves<L>(n: PatternNode<L>, m: PatternNode<L>) -> bool {
    forall|p: spec_fn(L) -> bool| #[trigger] leaves_in(n, p) ==> leaves_in(m, p)
}

pub open spec fn keeps_leaves_seq<L>(s: Seq<PatternNode<L>>, t: Seq<PatternNode<L>>) -> bool {
    forall|p: spec_fn(L) -> bool| #[trigger] all_leaves_in(s, p) ==> all_leaves_in(t, p)
}

/// Result of a rewrite that may drop the node.
pub open spec fn eval_result<L>(r: Option<PatternNode<L>>, f: spec_fn(L) -> bool) -> Option<bool> {
    match r {
        None => None,
        Some(n) => eval(n, f),
    }
}

pub proof fn lemma_eval_push<L>(s: Seq<PatternNode<L>>, x: PatternNode<L>, f: spec_fn(L) -> bool)
    ensures
        eval_any(s.push(x), f) == join_or(eval_any(s, f), eval(x, f)),
        eval_all(s.push(x), f) == join_and(eval_all(s, f), eval(x, f)),
        count_seq(s.push(x)) == count_seq(s) + count(x),
        all_no_empty(s.push(x)) == (all_no_empty(s) && no_empty(x)),
        forall|p: spec_fn(L) -> bool| #[trigger] all_leaves_in(s.push(x), p) == (all_leaves_in(s, p) && leaves_in(x, p)),
{
    assert(s.push(x).subrange(0, s.len() as int) =~= s);
}

pub proof fn lemma_eval_concat<L>(s: Seq<PatternNode<L>>, t: Seq<PatternNode<L>>, f: spec_fn(L) -> bool)
    ensures
        eval_any(s + t, f) == join_or(eval_any(s, f), eval_any(t, f)),
        eval_all(s + t, f) == join_and(eval_all(s, f), eval_all(t, f)),
        count_seq(s + t) == count_seq(s) + count_seq(t),
        all_no_empty(s + t) == (all_no_empty(s) && all_no_empty(t)),
        forall|p: spec_fn(L) -> bool| #[trigger] all_leaves_in(s + t, p) == (all_leaves_in(s, p) && all_leaves_in(t, p)),
    decreases t.len(),
{
    if t.len() == 0 {
        assert(s + t =~= s);
    } else {
        let t0 = t.subrange(0, t.len() - 1);
        let x = t[t.len() - 1];
        assert(t0.push(x) =~= t);
        assert((s + t0).push(x) =~= s + t);
        lemma_eval_concat(s, t0, f);
        lemma_eval_push(s + t0, x, f);
        lemma_eval_push(t0, x, f);
    }
}

/// Over children without empty lists, `Any` holds when some child holds and
/// `All` when every child does.
pub proof fn lemma_eval_quantified<L>(s: Seq<PatternNode<L>>, f: spec_fn(L) -> bool)
    requires
        s.len() > 0,
        all_no_empty(s),
    ensures
        eval_any(s, f) == Some(exists|j: int| 0 <= j < s.len() && #[trigger] eval(s[j], f) == Some(true)),
        eval_all(s, f) == Some(forall|j: int| 0 <= j < s.len() ==> #[trigger] eval(s[j], f) == Some(true)),
    decreases s.len(),
{
    let k = s.len() - 1;
    let s0 = s.subrange(0, k);
    lemma_no_empty_evaluates(s[k], f);
    if s0.len() > 0 {
        lemma_eval_quantified(s0, f);
        assert forall|j: int| 0 <= j < s0.len() implies s0[j] == s[j] by {}
        if exists|j: int| 0 <= j < s.len() && #[trigger] eval(s[j], f) == Some(true) {
            let j = choose|j: int| 0 <= j < s.len() && #[trigger] eval(s[j], f) == Some(true);
            if j < k {
                assert(eval(s0[j], f) == Some(true));
            }
        }
        if !(forall|j: int| 0 <= j < s.len() ==> #[trigger] eval(s[j], f) == Some(true)) {
            let j = choose|j: int| 0 <= j < s.len() && !(#[trigger] eval(s[j], f) == Some(true));
            if j < k {
                assert(eval(s0[j], f) != Some(true));
            }
        }
    } else {
        assert(eval_any(s0, f) is None);
        assert(eval_all(s0, f) is None);
    }
}

pub proof fn lemma_all_no_empty_index<L>(s: Seq<PatternNode<L>>)
    ensures
        all_no_empty(s) <==> forall|j: int| 0 <= j < s.len() ==> no_empty(#[trigger] s[j]),
    decreases s.len(),
{
    if s.len() > 0 {
        let s0 = s.subrange(0, s.len() - 1);
        lemma_all_no_empty_index(s0);
        assert forall|j: int| 0 <= j < s0.len() implies s0[j] == s[j] by {}
    }
}

/// A tree without empty `Any` or `All` nodes always has a truth value.
pub proof fn lemma_no_empty_evaluates<L>(n: PatternNode<L>, f: spec_fn(L) -> bool)
    requires
        no_empty(n),
    ensures
        eval(n, f) is Some,
    decreases n,
{
    match n {
        PatternNode::Leaf { .. } => {},
        PatternNode::Any { children } => {
            lemma_no_empty_seq_evaluates(children@, f);
        },
        PatternNode::All { children } => {
            lemma_no_empty_seq_evaluates(children@, f);
        },
        PatternNode::Not { child } => {
            lemma_no_empty_evaluates(*child, f);
        },
    }
}

pub proof fn lemma_no_empty_seq_evaluates<L>(s: Seq<PatternNode<L>>, f: spec_fn(L) -> bool)
    requires
        s.len() > 0,
        all_no_empty(s),
    ensures
        eval_any(s, f) is Some,
        eval_all(s, f) is Some,
    decreases s,
{
    let s0 = s.subrange(0, s.len() - 1);
    lemma_no_empty_evaluates(s[s.len() - 1], f);
    if s0.len() > 0 {
        lemma_no_empty_seq_evaluates(s0, f);
    }
}


/// Error of compiling a pattern.
#[derive(Debug, Clone, Copy, PartialEq, Eq, Structural)]
pub enum CompileError {
    /// The pattern holds only `any` or `all` lists without children.
    ReducedToNothingness,
    /// A regex, or a set of regexes fused together, could not be built.
    InvalidRegex,
}

/// The rewrite rules of the optimizer, in the order in which they are tried.
#[derive(Debug, Clone, Copy, PartialEq, Eq, Structural)]
pub enum Rewrite {
    DropEmpty,
    CollapseDoubleNegative,
    PullUpSingleChild,
    PullUpSameType,
    DeMorgan,
}

/// What every rewrite of one node guarantees: the truth value is kept for
/// every leaf valuation, the node count does not grow, only `DropEmpty` drops
/// a node, and the absence of empty lists is kept (`DropEmpty` establishes it
/// when the children already have it).
pub open spec fn rewrite_ok<L>(rule: Rewrite, n: PatternNode<L>, r: Option<PatternNode<L>>, children_ok: bool) -> bool {
    &&& forall|f: spec_fn(L) -> bool| #[trigger] eval_result(r, f) == eval(n, f)
    &&& (r matches Some(m) ==> count(m) <= count(n))
    &&& (rule != Rewrite::DropEmpty ==> r is Some)
    &&& (rule == Rewrite::DropEmpty && children_ok ==> (r matches Some(m) ==> no_empty(m)))
    &&& (rule != Rewrite::DropEmpty && no_empty(n) ==> (r matches Some(m) ==> no_empty(m)))
    &&& (r is Some ==> keeps_leaves(n, r->0))
}

/// Whether the direct children of a node are free of empty lists.
pub open spec fn children_no_empty<L>(n: PatternNode<L>) -> bool {
    match n {
        PatternNode::Leaf { .. } => true,
        PatternNode::Any { children } => all_no_empty(children@),
        PatternNode::All { children } => all_no_empty(children@),
        PatternNode::Not { child } => no_empty(*child),
    }
}

/// Whether `rule` rewrites the node itself (not counting its descendants).
pub open spec fn is_redex<L>(rule: Rewrite, n: PatternNode<L>) -> bool {
    match rule {
        Rewrite::DropEmpty => match n {
            PatternNode::Any { children } => children@.len() == 0,
            PatternNode::All { children } => children@.len() == 0,
            _ => false,
        },
        Rewrite::CollapseDoubleNegative => match n {
            PatternNode::Not { child } => (*child) is Not,
            _ => false,
        },
        Rewrite::PullUpSingleChild => match n {
            PatternNode::Any { children } => children@.len() == 1,
            PatternNode::All { children } => children@.len() == 1,
            _ => false,
        },
        Rewrite::PullUpSameType => match n {
            PatternNode::Any { children } => exists|j: int| 0 <= j < children@.len() && (#[trigger] children@[j]) is Any,
            PatternNode::All { children } => exists|j: int| 0 <= j < children@.len() && (#[trigger] children@[j]) is All,
            _ => false,
        },
        Rewrite::DeMorgan => match n {
            PatternNode::Any { children } => children@.len() > 0 && forall|j: int| 0 <= j < children@.len() ==> (#[trigger] children@[j]) is Not,
            PatternNode::All { children } => children@.len() > 0 && forall|j: int| 0 <= j < children@.len() ==> (#[trigger] children@[j]) is Not,
            _ => false,
        },
    }
}

/// Whether `rule` rewrites some node of the tree.
pub open spec fn has_redex<L>(rule: Rewrite, n: PatternNode<L>) -> bool
    decreases n,
{
    is_redex(rule, n) || match n {
        PatternNode::Leaf { .. } => false,
        PatternNode::Any { children } => some_redex(rule, children@),
        PatternNode::All { children } => some_redex(rule, children@),
        PatternNode::Not { child } => has_redex(rule, *child),
    }
}

pub open spec fn some_redex<L>(rule: Rewrite, s: Seq<PatternNode<L>>) -> bool
    decreases s,
{
    if s.len() == 0 {
        false
    } else {
        some_redex(rule, s.subrange(0, s.len() - 1)) || has_redex(rule, s[s.len() - 1])
    }
}

/// The optimizer's fixed point: no empty lists, and no rule rewrites any
/// node.
pub open spec fn is_optimized<L>(n: PatternNode<L>) -> bool {
    &&& no_empty(n)
    &&& !has_redex(Rewrite::CollapseDoubleNegative, n)
    &&& !has_redex(Rewrite::PullUpSingleChild, n)
    &&& !has_redex(Rewrite::PullUpSameType, n)
    &&& !has_redex(Rewrite::DeMorgan, n)
}

/// Whether two trees have the same shape and leaves.
pub open spec fn same_shape<L>(a: PatternNode<L>, b: PatternNode<L>) -> bool
    decreases a,
{
    match a {
        PatternNode::Leaf { leaf } => b matches PatternNode::Leaf { leaf: other } && leaf == other,
        PatternNode::Any { children } => b matches PatternNode::Any { children: others } && same_shapes(children@, others@),
        PatternNode::All { children } => b matches PatternNode::All { children: others } && same_shapes(children@, others@),
        PatternNode::Not { child } => b matches PatternNode::Not { child: other } && same_shape(*child, *other),
    }
}

pub open spec fn same_shapes<L>(s: Seq<PatternNode<L>>, t: Seq<PatternNode<L>>) -> bool
    decreases s,
{
    s.len() == t.len() && (s.len() == 0 || (same_shapes(s.subrange(0, s.len() - 1), t.subrange(0, t.len() - 1))
        && same_shape(s[s.len() - 1], t[t.len() - 1])))
}

pub proof fn lemma_same_shapes_index<L>(s: Seq<PatternNode<L>>, t: Seq<PatternNode<L>>)
    requires
        same_shapes(s, t),
    ensures
        s.len() == t.len(),
        forall|j: int| 0 <= j < s.len() ==> same_shape(#[trigger] s[j], t[j]),
    decreases s.len(),
{
    if s.len() > 0 {
        let s0 = s.subrange(0, s.len() - 1);
        let t0 = t.subrange(0, t.len() - 1);
        lemma_same_shapes_index(s0, t0);
        assert forall|j: int| 0 <= j < s.len() implies same_shape(#[trigger] s[j], t[j]) by {
            if j < s.len() - 1 {
                assert(s0[j] == s[j]);
                assert(t0[j] == t[j]);
            }
        }
    }
}

pub proof fn lemma_same_shapes_push<L>(s: Seq<PatternNode<L>>, t: Seq<PatternNode<L>>, x: PatternNode<L>, y: PatternNode<L>)
    requires
        same_shapes(s, t),
        same_shape(x, y),
    ensures
        same_shapes(s.push(x), t.push(y)),
{
    assert(s.push(x).subrange(0, s.len() as int) =~= s);
    assert(t.push(y).subrange(0, t.len() as int) =~= t);
}

pub proof fn lemma_same_shape_refl<L>(a: PatternNode<L>)
    ensures
        same_shape(a, a),
    decreases a,
{
    match a {
        PatternNode::Leaf { .. } => {},
        PatternNode::Any { children } => lemma_same_shapes_refl(children@),
        PatternNode::All { children } => lemma_same_shapes_refl(children@),
        PatternNode::Not { child } => lemma_same_shape_refl(*child),
    }
}

pub proof fn lemma_same_shapes_refl<L>(s: Seq<PatternNode<L>>)
    ensures
        same_shapes(s, s),
    decreases s,
{
    if s.len() > 0 {
        lemma_same_shapes_refl(s.subrange(0, s.len() - 1));
        lemma_same_shape_refl(s[s.len() - 1]);
    }
}

pub proof fn lemma_same_shape_trans<L>(a: PatternNode<L>, b: PatternNode<L>, c: PatternNode<L>)
    requires
        same_shape(a, b),
        same_shape(b, c),
    ensures
        same_shape(a, c),
    decreases a,
{
    match a {
        PatternNode::Leaf { .. } => {},
        PatternNode::Any { children } => {
            lemma_same_shapes_trans(children@, b->Any_children@, c->Any_children@);
        },
        PatternNode::All { children } => {
            lemma_same_shapes_trans(children@, b->All_children@, c->All_children@);
        },
        PatternNode::Not { child } => {
            lemma_same_shape_trans(*child, *b->Not_child, *c->Not_child);
        },
    }
}

pub proof fn lemma_same_shapes_trans<L>(s: Seq<PatternNode<L>>, t: Seq<PatternNode<L>>, u: Seq<PatternNode<L>>)
    requires
        same_shapes(s, t),
        same_shapes(t, u),
    ensures
        same_shapes(s, u),
    decreases s,
{
    if s.len() > 0 {
        lemma_same_shapes_trans(s.subrange(0, s.len() - 1), t.subrange(0, t.len() - 1), u.subrange(0, u.len() - 1));
        lemma_same_shape_trans(s[s.len() - 1], t[t.len() - 1], u[u.len() - 1]);
    }
}

/// Trees of the same shape agree on everything the optimizer looks at.
pub proof fn lemma_same_shape<L>(a: PatternNode<L>, b: PatternNode<L>)
    requires
        same_shape(a, b),
    ensures
        count(a) == count(b),
        no_empty(a) == no_empty(b),
        forall|rule: Rewrite| #[trigger] has_redex(rule, a) == has_redex(rule, b),
        forall|f: spec_fn(L) -> bool| #[trigger] eval(a, f) == eval(b, f),
    decreases a,
{
    match a {
        PatternNode::Leaf { .. } => {
            assert forall|rule: Rewrite| #[trigger] has_redex(rule, a) == has_redex(rule, b) by {
                assert(!is_redex(rule, a));
                assert(!is_redex(rule, b));
            }
        },
        PatternNode::Any { children } => {
            let others = b->Any_children;
            lemma_same_shapes(children@, others@);
            lemma_same_shapes_index(children@, others@);
            lemma_same_kinds(children@, others@);
            assert forall|rule: Rewrite| #[trigger] has_redex(rule, a) == has_redex(rule, b) by {
                assert(is_redex(rule, a) == is_redex(rule, b)) by {
                    match rule {
                        Rewrite::DropEmpty => {},
                        Rewrite::CollapseDoubleNegative => {},
                        Rewrite::PullUpSingleChild => {},
                        Rewrite::PullUpSameType => {},
                        Rewrite::DeMorgan => {},
                    }
                }
                assert(some_redex(rule, children@) == some_redex(rule, others@));
            }
            assert forall|f: spec_fn(L) -> bool| #[trigger] eval(a, f) == eval(b, f) by {
                assert(eval_any(children@, f) == eval_any(others@, f));
            }
        },
        PatternNode::All { children } => {
            let others = b->All_children;
            lemma_same_shapes(children@, others@);
            lemma_same_shapes_index(children@, others@);
            lemma_same_kinds(children@, others@);
            assert forall|rule: Rewrite| #[trigger] has_redex(rule, a) == has_redex(rule, b) by {
                assert(is_redex(rule, a) == is_redex(rule, b)) by {
                    match rule {
                        Rewrite::DropEmpty => {},
                        Rewrite::CollapseDoubleNegative => {},
                        Rewrite::PullUpSingleChild => {},
                        Rewrite::PullUpSameType => {},
                        Rewrite::DeMorgan => {},
                    }
                }
                assert(some_redex(rule, children@) == some_redex(rule, others@));
            }
            assert forall|f: spec_fn(L) -> bool| #[trigger] eval(a, f) == eval(b, f) by {
                assert(eval_all(children@, f) == eval_all(others@, f));
            }
        },
        PatternNode::Not { child } => {
            let other = b->Not_child;
            lemma_same_shape(*child, *other);
            assert(same_shape(*child, *other));
            assert((*child) is Not == (*other) is Not) by {
                match *child {
                    PatternNode::Not { .. } => {},
                    PatternNode::Leaf { .. } => {},
                    PatternNode::Any { .. } => {},
                    PatternNode::All { .. } => {},
                }
            }
            assert forall|rule: Rewrite| #[trigger] has_redex(rule, a) == has_redex(rule, b) by {
                assert(has_redex(rule, *child) == has_redex(rule, *other));
            }
            assert forall|f: spec_fn(L) -> bool| #[trigger] eval(a, f) == eval(b, f) by {
                assert(eval(*child, f) == eval(*other, f));
            }
        },
    }
}

/// Lists of the same shapes hold nodes of the same kinds.
proof fn lemma_same_kinds<L>(s: Seq<PatternNode<L>>, t: Seq<PatternNode<L>>)
    requires
        s.len() == t.len(),
        forall|j: int| 0 <= j < s.len() ==> same_shape(#[trigger] s[j], t[j]),
    ensures
        (exists|j: int| 0 <= j < s.len() && (#[trigger] s[j]) is Any) == (exists|j: int| 0 <= j < t.len() && (#[trigger] t[j]) is Any),
        (exists|j: int| 0 <= j < s.len() && (#[trigger] s[j]) is All) == (exists|j: int| 0 <= j < t.len() && (#[trigger] t[j]) is All),
        (forall|j: int| 0 <= j < s.len() ==> (#[trigger] s[j]) is Not) == (forall|j: int| 0 <= j < t.len() ==> (#[trigger] t[j]) is Not),
{
    assert forall|j: int| 0 <= j < s.len() implies ((#[trigger] s[j]) is Any == t[j] is Any) && (s[j] is All == t[j] is All) && (s[j] is Not == t[j] is Not) by {
        assert(same_shape(s[j], t[j]));
    }
    if exists|j: int| 0 <= j < s.len() && (#[trigger] s[j]) is Any {
        let j = choose|j: int| 0 <= j < s.len() && (#[trigger] s[j]) is Any;
        assert(t[j] is Any);
    }
    if exists|j: int| 0 <= j < t.len() && (#[trigger] t[j]) is Any {
        let j = choose|j: int| 0 <= j < t.len() && (#[trigger] t[j]) is Any;
        assert(s[j] is Any);
    }
    if exists|j: int| 0 <= j < s.len() && (#[trigger] s[j]) is All {
        let j = choose|j: int| 0 <= j < s.len() && (#[trigger] s[j]) is All;
        assert(t[j] is All);
    }
    if exists|j: int| 0 <= j < t.len() && (#[trigger] t[j]) is All {
        let j = choose|j: int| 0 <= j < t.len() && (#[trigger] t[j]) is All;
        assert(s[j] is All);
    }
    if !(forall|j: int| 0 <= j < s.len() ==> (#[trigger] s[j]) is Not) {
        let j = choose|j: int| 0 <= j < s.len() && !((#[trigger] s[j]) is Not);
        assert(!(t[j] is Not));
    }
    if !(forall|j: int| 0 <= j < t.len() ==> (#[trigger] t[j]) is Not) {
        let j = choose|j: int| 0 <= j < t.len() && !((#[trigger] t[j]) is Not);
        assert(!(s[j] is Not));
    }
}

pub proof fn lemma_same_shapes<L>(s: Seq<PatternNode<L>>, t: Seq<PatternNode<L>>)
    requires
        same_shapes(s, t),
    ensures
        count_seq(s) == count_seq(t),
        all_no_empty(s) == all_no_empty(t),
        forall|rule: Rewrite| #[trigger] some_redex(rule, s) == some_redex(rule, t),
        forall|f: spec_fn(L) -> bool| #[trigger] eval_any(s, f) == eval_any(t, f),
        forall|f: spec_fn(L) -> bool| #[trigger] eval_all(s, f) == eval_all(t, f),
    decreases s,
{
    if s.len() > 0 {
        let s0 = s.subrange(0, s.len() - 1);
        let t0 = t.subrange(0, t.len() - 1);
        lemma_same_shapes(s0, t0);
        lemma_same_shape(s[s.len() - 1], t[t.len() - 1]);
        assert forall|rule: Rewrite| #[trigger] some_redex(rule, s) == some_redex(rule, t) by {
            assert(some_redex(rule, s) == (some_redex(rule, s0) || has_redex(rule, s[s.len() - 1])));
            assert(some_redex(rule, t) == (some_redex(rule, t0) || has_redex(rule, t[t.len() - 1])));
        }
        assert forall|f: spec_fn(L) -> bool| #[trigger] eval_any(s, f) == eval_any(t, f) by {
            assert(eval_any(s0, f) == eval_any(t0, f));
            assert(eval(s[s.len() - 1], f) == eval(t[t.len() - 1], f));
        }
        assert forall|f: spec_fn(L) -> bool| #[trigger] eval_all(s, f) == eval_all(t, f) by {
            assert(eval_all(s0, f) == eval_all(t0, f));
            assert(eval(s[s.len() - 1], f) == eval(t[t.len() - 1], f));
        }
    }
}

/// A rewrite of one node leaves it as it is when it is no redex, and makes
/// it smaller when it is one (for De Morgan, when its list has more than
/// one child).
pub open spec fn rewrite_shrinks<L>(rule: Rewrite, n: PatternNode<L>, r: Option<PatternNode<L>>) -> bool {
    &&& (rule != Rewrite::DropEmpty && !is_redex(rule, n) ==> r is Some && same_shape(r->0, n))
    &&& (rule != Rewrite::DropEmpty && is_redex(rule, n) && (rule == Rewrite::DeMorgan ==> !is_redex(Rewrite::PullUpSingleChild, n))
        ==> r is Some && count(r->0) < count(n))
}

fn drop_empty<L>(node: PatternNode<L>) -> (r: Option<PatternNode<L>>)
    ensures
        rewrite_ok(Rewrite::DropEmpty, node, r, children_no_empty(node)),
{
    let ghost g = node;
    match node {
        PatternNode::Any { children } => {
            if children.len() == 0 {
                assert forall|f: spec_fn(L) -> bool| #[trigger] eval(g, f) is None by {
                    assert(eval_any(children@, f) is None);
                }
                None
            } else {
                Some(PatternNode::Any { children })
            }
        },
        PatternNode::All { children } => {
            if children.len() == 0 {
                assert forall|f: spec_fn(L) -> bool| #[trigger] eval(g, f) is None by {
                    assert(eval_all(children@, f) is None);
                }
                None
            } else {
                Some(PatternNode::All { children })
            }
        },
        _ => Some(node),
    }
}

fn collapse_double_negative<L>(node: PatternNode<L>) -> (r: Option<PatternNode<L>>)
    ensures
        rewrite_ok(Rewrite::CollapseDoubleNegative, node, r, children_no_empty(node)),
        rewrite_shrinks(Rewrite::CollapseDoubleNegative, node, r),
{
    let ghost g = node;
    proof {
        lemma_same_shape_refl(g);
    }
    match node {
        PatternNode::Not { child } => match *child {
            PatternNode::Not { child: grandchild } => {
                let ghost c = *child;
                assert(count(c) == 1 + count(*grandchild));
                assert(no_empty(c) == no_empty(*grandchild));
                assert(count(g) == 2 + count(*grandchild));
                assert(no_empty(g) ==> no_empty(*grandchild));
                assert forall|f: spec_fn(L) -> bool| #[trigger] eval(g, f) == eval(*grandchild, f) by {
                    assert(eval(c, f) == negate(eval(*grandchild, f)));
                }
                assert forall|p: spec_fn(L) -> bool| #[trigger] leaves_in(g, p) ==> leaves_in(*grandchild, p) by {
                    assert(leaves_in(c, p) == leaves_in(*grandchild, p));
                }
                Some(*grandchild)
            },
            other => Some(PatternNode::Not { child: Box::new(other) }),
        },
        _ => Some(node),
    }
}

fn pull_up_single_child<L>(node: PatternNode<L>) -> (r: Option<PatternNode<L>>)
    ensures
        rewrite_ok(Rewrite::PullUpSingleChild, node, r, children_no_empty(node)),
        rewrite_shrinks(Rewrite::PullUpSingleChild, node, r),
{
    let ghost g = node;
    proof {
        lemma_same_shape_refl(g);
    }
    match node {
        PatternNode::Any { children } => {
            let mut children = children;
            if children.len() == 1 {
                let ghost cs = children@;
                proof {
                    assert(cs =~= Seq::<PatternNode<L>>::empty().push(cs[0]));
                    assert forall|f: spec_fn(L) -> bool| #[trigger] eval(g, f) == eval(cs[0], f) by {
                        lemma_eval_push(Seq::<PatternNode<L>>::empty(), cs[0], f);
                    }
                    lemma_eval_push(Seq::<PatternNode<L>>::empty(), cs[0], |l: L| true);
                    assert forall|p: spec_fn(L) -> bool| #[trigger] leaves_in(g, p) ==> leaves_in(cs[0], p) by {
                        assert(all_leaves_in(Seq::<PatternNode<L>>::empty(), p));
                        assert(all_leaves_in(cs, p) == all_leaves_in(Seq::<PatternNode<L>>::empty().push(cs[0]), p));
                    }
                }
                let single = children.remove(0);
                Some(single)
            } else {
                Some(PatternNode::Any { children })
            }
        },
        PatternNode::All { children } => {
            let mut children = children;
            if children.len() == 1 {
                let ghost cs = children@;
                proof {
                    assert(cs =~= Seq::<PatternNode<L>>::empty().push(cs[0]));
                    assert forall|f: spec_fn(L) -> bool| #[trigger] eval(g, f) == eval(cs[0], f) by {
                        lemma_eval_push(Seq::<PatternNode<L>>::empty(), cs[0], f);
                    }
                    lemma_eval_push(Seq::<PatternNode<L>>::empty(), cs[0], |l: L| true);
                    assert forall|p: spec_fn(L) -> bool| #[trigger] leaves_in(g, p) ==> leaves_in(cs[0], p) by {
                        assert(all_leaves_in(Seq::<PatternNode<L>>::empty(), p));
                        assert(all_leaves_in(cs, p) == all_leaves_in(Seq::<PatternNode<L>>::empty().push(cs[0]), p));
                    }
                }
                let single = children.remove(0);
                Some(single)
            } else {
                Some(PatternNode::All { children })
            }
        },
        _ => Some(node),
    }
}

/// Truth value of a list of children under `Any` (`any`) or `All`.
pub open spec fn eval_list<L>(any: bool, s: Seq<PatternNode<L>>, f: spec_fn(L) -> bool) -> Option<bool> {
    if any {
        eval_any(s, f)
    } else {
        eval_all(s, f)
    }
}

/// Whether a node is a list of the kind `Any` (`any`) or `All`.
pub open spec fn same_kind<L>(any: bool, n: PatternNode<L>) -> bool {
    if any {
        n is Any
    } else {
        n is All
    }
}

/// Splices the children of each child of the same kind into the list.
fn flatten_children<L>(children: Vec<PatternNode<L>>, any: bool) -> (r: Vec<PatternNode<L>>)
    ensures
        forall|f: spec_fn(L) -> bool| #[trigger] eval_list(any, r@, f) == eval_list(any, children@, f),
        count_seq(r@) <= count_seq(children@),
        all_no_empty(children@) ==> all_no_empty(r@),
        children@.len() > 0 && all_no_empty(children@) ==> r@.len() > 0,
        !(exists|j: int| 0 <= j < children@.len() && same_kind(any, #[trigger] children@[j])) ==> r@ == children@,
        (exists|j: int| 0 <= j < children@.len() && same_kind(any, #[trigger] children@[j])) ==> count_seq(r@) < count_seq(children@),
        keeps_leaves_seq(children@, r@),
{
    let ghost orig = children@;
    let ghost mut found = false;
    let mut children = children;
    let mut out: Vec<PatternNode<L>> = Vec::new();
    let n: usize = children.len();
    let mut i: usize = 0;
    proof {
        lemma_all_no_empty_index(orig);
        assert(orig.subrange(0, 0) =~= Seq::<PatternNode<L>>::empty());
    }
    while i < n
        invariant
            n == orig.len(),
            i <= n,
            children@ == orig.subrange(i as int, n as int),
            forall|f: spec_fn(L) -> bool| #[trigger] eval_list(any, out@, f) == eval_list(any, orig.subrange(0, i as int), f),
            count_seq(out@) <= count_seq(orig.subrange(0, i as int)),
            all_no_empty(orig) ==> all_no_empty(out@),
            all_no_empty(orig) <==> forall|j: int| 0 <= j < orig.len() ==> no_empty(#[trigger] orig[j]),
            i > 0 && all_no_empty(orig) ==> out@.len() > 0,
            found == exists|j: int| 0 <= j < i && same_kind(any, #[trigger] orig[j]),
            !found ==> out@ == orig.subrange(0, i as int),
            found ==> count_seq(out@) < count_seq(orig.subrange(0, i as int)),
            keeps_leaves_seq(orig.subrange(0, i as int), out@),
        decreases n - i,
    {
        let ghost prev = out@;
        let ghost x = orig[i as int];
        let ghost found_before = found;
        let ghost mut g: Seq<PatternNode<L>> = Seq::empty();
        let ghost mut spliced = false;
        let child = children.remove(0);
        assert(child == x);
        match child {
            PatternNode::Any { children: grand } => {
                if any {
                    let mut grand = grand;
                    proof {
                        g = grand@;
                        spliced = true;
                    }
                    out.append(&mut grand);
                } else {
                    out.push(PatternNode::Any { children: grand });
                }
            },
            PatternNode::All { children: grand } => {
                if !any {
                    let mut grand = grand;
                    proof {
                        g = grand@;
                        spliced = true;
                    }
                    out.append(&mut grand);
                } else {
                    out.push(PatternNode::All { children: grand });
                }
            },
            other => {
                out.push(other);
            },
        }
        proof {
            let take = orig.subrange(0, i as int);
            assert(orig.subrange(0, i + 1) =~= take.push(x));
            assert(spliced ==> out@ == prev + g);
            assert(!spliced ==> out@ == prev.push(x));
            assert(spliced ==> count(x) == 1 + count_seq(g));
            assert(spliced ==> no_empty(x) == (g.len() > 0 && all_no_empty(g)));
            assert forall|f: spec_fn(L) -> bool| #[trigger] eval_list(any, out@, f) == eval_list(any, orig.subrange(0, i + 1), f) by {
                lemma_eval_push(take, x, f);
                lemma_eval_push(prev, x, f);
                assert(eval_list(any, prev, f) == eval_list(any, take, f));
                if spliced {
                    lemma_eval_concat(prev, g, f);
                    assert(eval(x, f) == eval_list(any, g, f));
                }
            }
            lemma_eval_push(take, x, |l: L| true);
            lemma_eval_push(prev, x, |l: L| true);
            if spliced {
                lemma_eval_concat(prev, g, |l: L| true);
            }
            assert(spliced == same_kind(any, x));
            assert(spliced ==> forall|p: spec_fn(L) -> bool| #[trigger] leaves_in(x, p) == all_leaves_in(g, p));
            assert forall|p: spec_fn(L) -> bool| #[trigger] all_leaves_in(orig.subrange(0, i + 1), p) implies all_leaves_in(out@, p) by {
                lemma_eval_push(take, x, |l: L| true);
                assert(all_leaves_in(take, p));
                assert(all_leaves_in(prev, p));
                if spliced {
                    lemma_eval_concat(prev, g, |l: L| true);
                } else {
                    lemma_eval_push(prev, x, |l: L| true);
                }
            }
            found = found || spliced;
            if !found {
                assert(out@ =~= orig.subrange(0, i + 1));
            }
            assert(found == exists|j: int| 0 <= j < i + 1 && same_kind(any, #[trigger] orig[j])) by {
                if same_kind(any, x) {
                    assert(0 <= i < i + 1 && same_kind(any, orig[i as int]));
                }
                if exists|j: int| 0 <= j < i + 1 && same_kind(any, #[trigger] orig[j]) {
                    let j = choose|j: int| 0 <= j < i + 1 && same_kind(any, #[trigger] orig[j]);
                    if j < i {
                        assert(found_before);
                    }
                }
            }
        }
        i = i + 1;
        proof {
            assert(children@ =~= orig.subrange(i as int, n as int));
        }
    }
    proof {
        assert(orig.subrange(0, n as int) =~= orig);
    }
    out
}

fn pull_up_same_type<L>(node: PatternNode<L>) -> (r: Option<PatternNode<L>>)
    ensures
        rewrite_ok(Rewrite::PullUpSameType, node, r, children_no_empty(node)),
        rewrite_shrinks(Rewrite::PullUpSameType, node, r),
{
    let ghost g = node;
    proof {
        lemma_same_shape_refl(g);
    }
    match node {
        PatternNode::Any { children } => {
            let ghost cs = children@;
            proof {
                if exists|j: int| 0 <= j < cs.len() && (#[trigger] cs[j]) is Any {
                    let j = choose|j: int| 0 <= j < cs.len() && (#[trigger] cs[j]) is Any;
                    assert(same_kind(true, cs[j]));
                }
                if exists|j: int| 0 <= j < cs.len() && same_kind(true, #[trigger] cs[j]) {
                    let j = choose|j: int| 0 <= j < cs.len() && same_kind(true, #[trigger] cs[j]);
                    assert(cs[j] is Any);
                }
            }
            let flat = flatten_children(children, true);
            let r = PatternNode::Any { children: flat };
            assert forall|p: spec_fn(L) -> bool| #[trigger] leaves_in(g, p) implies leaves_in(r, p) by {
                assert(all_leaves_in(cs, p));
            }
            assert forall|f: spec_fn(L) -> bool| #[trigger] eval(r, f) == eval(g, f) by {
                assert(eval_list(true, flat@, f) == eval_list(true, cs, f));
            }
            Some(r)
        },
        PatternNode::All { children } => {
            let ghost cs = children@;
            proof {
                if exists|j: int| 0 <= j < cs.len() && (#[trigger] cs[j]) is All {
                    let j = choose|j: int| 0 <= j < cs.len() && (#[trigger] cs[j]) is All;
                    assert(same_kind(false, cs[j]));
                }
                if exists|j: int| 0 <= j < cs.len() && same_kind(false, #[trigger] cs[j]) {
                    let j = choose|j: int| 0 <= j < cs.len() && same_kind(false, #[trigger] cs[j]);
                    assert(cs[j] is All);
                }
            }
            let flat = flatten_children(children, false);
            let r = PatternNode::All { children: flat };
            assert forall|p: spec_fn(L) -> bool| #[trigger] leaves_in(g, p) implies leaves_in(r, p) by {
                assert(all_leaves_in(cs, p));
            }
            assert forall|f: spec_fn(L) -> bool| #[trigger] eval(r, f) == eval(g, f) by {
                assert(eval_list(false, flat@, f) == eval_list(false, cs, f));
            }
            Some(r)
        },
        _ => Some(node),
    }
}

/// Each node of `s` is the negation of the node of `t` at the same place.
pub open spec fn negated_pairs<L>(s: Seq<PatternNode<L>>, t: Seq<PatternNode<L>>) -> bool {
    &&& s.len() == t.len()
    &&& forall|j: int| 0 <= j < s.len() ==> #[trigger] s[j] == (PatternNode::Not { child: Box::new(t[j]) })
}

pub proof fn lemma_negated_pairs<L>(s: Seq<PatternNode<L>>, t: Seq<PatternNode<L>>, f: spec_fn(L) -> bool)
    requires
        negated_pairs(s, t),
    ensures
        eval_any(s, f) == negate(eval_all(t, f)),
        eval_all(s, f) == negate(eval_any(t, f)),
        count_seq(s) == s.len() + count_seq(t),
        all_no_empty(s) == all_no_empty(t),
        forall|p: spec_fn(L) -> bool| #[trigger] all_leaves_in(s, p) == all_leaves_in(t, p),
    decreases s.len(),
{
    if s.len() > 0 {
        let k = s.len() - 1;
        let s0 = s.subrange(0, k);
        let t0 = t.subrange(0, k);
        assert(negated_pairs(s0, t0)) by {
            assert forall|j: int| 0 <= j < s0.len() implies #[trigger] s0[j] == (PatternNode::Not { child: Box::new(t0[j]) }) by {
                assert(s[j] == PatternNode::Not { child: Box::new(t[j]) });
            }
        }
        lemma_negated_pairs(s0, t0, f);
        assert(s[k] == PatternNode::Not { child: Box::new(t[k]) });
        assert(eval(s[k], f) == negate(eval(t[k], f)));
        assert forall|p: spec_fn(L) -> bool| #[trigger] all_leaves_in(s, p) == all_leaves_in(t, p) by {
            assert(leaves_in(s[k], p) == leaves_in(t[k], p));
            assert(all_leaves_in(s0, p) == all_leaves_in(t0, p));
        }
        assert(count(s[k]) == 1 + count(t[k]));
        assert(no_empty(s[k]) == no_empty(t[k]));
    }
}

fn all_negated<L>(children: &Vec<PatternNode<L>>) -> (r: bool)
    ensures
        r == forall|j: int| 0 <= j < children@.len() ==> (#[trigger] children@[j]) is Not,
{
    let mut i: usize = 0;
    while i < children.len()
        invariant
            i <= children@.len(),
            forall|j: int| 0 <= j < i ==> (#[trigger] children@[j]) is Not,
        decreases children@.len() - i,
    {
        match &children[i] {
            PatternNode::Not { .. } => {},
            _ => {
                return false;
            },
        }
        i = i + 1;
    }
    true
}

fn strip_negations<L>(children: Vec<PatternNode<L>>) -> (r: Vec<PatternNode<L>>)
    requires
        forall|j: int| 0 <= j < children@.len() ==> (#[trigger] children@[j]) is Not,
    ensures
        negated_pairs(children@, r@),
{
    let ghost orig = children@;
    let mut children = children;
    let mut out: Vec<PatternNode<L>> = Vec::new();
    let n: usize = children.len();
    let mut i: usize = 0;
    while i < n
        invariant
            n == orig.len(),
            i <= n,
            forall|j: int| 0 <= j < orig.len() ==> (#[trigger] orig[j]) is Not,
            children@ == orig.subrange(i as int, n as int),
            out@.len() == i,
            forall|j: int| 0 <= j < i ==> #[trigger] orig[j] == (PatternNode::Not { child: Box::new(out@[j]) }),
        decreases n - i,
    {
        let child = children.remove(0);
        assert(child == orig[i as int]);
        match child {
            PatternNode::Not { child: inner } => {
                out.push(*inner);
            },
            _ => {
                assert(false);
            },
        }
        i = i + 1;
        proof {
            assert(children@ =~= orig.subrange(i as int, n as int));
        }
    }
    out
}

fn de_morgan<L>(node: PatternNode<L>) -> (r: Option<PatternNode<L>>)
    ensures
        rewrite_ok(Rewrite::DeMorgan, node, r, children_no_empty(node)),
        rewrite_shrinks(Rewrite::DeMorgan, node, r),
        !is_redex(Rewrite::DeMorgan, node) ==> r == Some(node),
        node is Any && is_redex(Rewrite::DeMorgan, node) ==> r is Some && r->0 is Not && (*r->0->Not_child) is All
            && negated_pairs(node->Any_children@, (*r->0->Not_child)->All_children@),
        node is All && is_redex(Rewrite::DeMorgan, node) ==> r is Some && r->0 is Not && (*r->0->Not_child) is Any
            && negated_pairs(node->All_children@, (*r->0->Not_child)->Any_children@),
{
    let ghost g = node;
    proof {
        lemma_same_shape_refl(g);
    }
    match node {
        PatternNode::Any { children } => {
            if children.len() > 0 && all_negated(&children) {
                let ghost cs = children@;
                let inner = strip_negations(children);
                proof {
                    assert forall|f: spec_fn(L) -> bool| #[trigger] eval(g, f) == negate(eval_all(inner@, f)) by {
                        lemma_negated_pairs(cs, inner@, f);
                    }
                    lemma_negated_pairs(cs, inner@, |l: L| true);
                }
                let ghost iv = inner@;
                let r = PatternNode::Not { child: Box::new(PatternNode::All { children: inner }) };
                proof {
                    let m = PatternNode::All { children: inner };
                    assert(count(m) == 1 + count_seq(iv));
                    assert(no_empty(m) == (iv.len() > 0 && all_no_empty(iv)));
                    assert(count(r) == 2 + count_seq(iv));
                    assert(no_empty(r) == (iv.len() > 0 && all_no_empty(iv)));
                    assert forall|f: spec_fn(L) -> bool| #[trigger] eval(r, f) == eval(g, f) by {
                        assert(eval(m, f) == eval_all(iv, f));
                    }
                    assert forall|p: spec_fn(L) -> bool| #[trigger] leaves_in(g, p) implies leaves_in(r, p) by {
                        assert(leaves_in(m, p) == all_leaves_in(iv, p));
                        assert(leaves_in(g, p) == all_leaves_in(cs, p));
                    }
                }
                Some(r)
            } else {
                Some(PatternNode::Any { children })
            }
        },
        PatternNode::All { children } => {
            if children.len() > 0 && all_negated(&children) {
                let ghost cs = children@;
                let inner = strip_negations(children);
                proof {
                    assert forall|f: spec_fn(L) -> bool| #[trigger] eval(g, f) == negate(eval_any(inner@, f)) by {
                        lemma_negated_pairs(cs, inner@, f);
                    }
                    lemma_negated_pairs(cs, inner@, |l: L| true);
                }
                let ghost iv = inner@;
                let r = PatternNode::Not { child: Box::new(PatternNode::Any { children: inner }) };
                proof {
                    let m = PatternNode::Any { children: inner };
                    assert(count(m) == 1 + count_seq(iv));
                    assert(no_empty(m) == (iv.len() > 0 && all_no_empty(iv)));
                    assert(count(r) == 2 + count_seq(iv));
                    assert(no_empty(r) == (iv.len() > 0 && all_no_empty(iv)));
                    assert forall|f: spec_fn(L) -> bool| #[trigger] eval(r, f) == eval(g, f) by {
                        assert(eval(m, f) == eval_any(iv, f));
                    }
                    assert forall|p: spec_fn(L) -> bool| #[trigger] leaves_in(g, p) implies leaves_in(r, p) by {
                        assert(leaves_in(m, p) == all_leaves_in(iv, p));
                        assert(leaves_in(g, p) == all_leaves_in(cs, p));
                    }
                }
                Some(r)
            } else {
                Some(PatternNode::All { children })
            }
        },
        _ => Some(node),
    }
}

fn apply_rule<L>(rule: Rewrite, node: PatternNode<L>) -> (r: Option<PatternNode<L>>)
    ensures
        rewrite_ok(rule, node, r, children_no_empty(node)),
        rewrite_shrinks(rule, node, r),
{
    match rule {
        Rewrite::DropEmpty => drop_empty(node),
        Rewrite::CollapseDoubleNegative => collapse_double_negative(node),
        Rewrite::PullUpSingleChild => pull_up_single_child(node),
        Rewrite::PullUpSameType => pull_up_same_type(node),
        Rewrite::DeMorgan => de_morgan(node),
    }
}

/// What rewriting a whole tree with one rule guarantees.
pub open spec fn visit_ok<L>(rule: Rewrite, n: PatternNode<L>, r: Option<PatternNode<L>>) -> bool {
    &&& forall|f: spec_fn(L) -> bool| #[trigger] eval_result(r, f) == eval(n, f)
    &&& (r matches Some(m) ==> count(m) <= count(n))
    &&& (rule != Rewrite::DropEmpty ==> r is Some)
    &&& (rule == Rewrite::DropEmpty ==> (r matches Some(m) ==> no_empty(m)))
    &&& (rule != Rewrite::DropEmpty && no_empty(n) ==> (r matches Some(m) ==> no_empty(m)))
    &&& (r is Some ==> keeps_leaves(n, r->0))
}

/// Rewrites every node of the tree with `rule`, bottom-up. A child that the
/// rule drops is left out of its parent's list.
/// The side condition under which a De Morgan rewrite shrinks a tree: no
/// list in it has a single child.
pub open spec fn shrink_condition<L>(rule: Rewrite, n: PatternNode<L>) -> bool {
    rule == Rewrite::DeMorgan ==> !has_redex(Rewrite::PullUpSingleChild, n)
}

pub open spec fn shrink_condition_seq<L>(rule: Rewrite, s: Seq<PatternNode<L>>) -> bool {
    rule == Rewrite::DeMorgan ==> !some_redex(Rewrite::PullUpSingleChild, s)
}

/// Rewriting a whole tree leaves it in shape when no node of it is a redex,
/// and makes it smaller otherwise.
pub open spec fn visit_shrinks<L>(rule: Rewrite, n: PatternNode<L>, r: Option<PatternNode<L>>) -> bool {
    &&& (rule != Rewrite::DropEmpty && !has_redex(rule, n) ==> r is Some && same_shape(r->0, n))
    &&& (rule != Rewrite::DropEmpty && has_redex(rule, n) && shrink_condition(rule, n) ==> r is Some && count(r->0) < count(n))
}

/// The rebuilt node `m` (its children rewritten) and then the rewrite `r`
/// of it keep or shrink the original node `g` as `visit` promises.
proof fn lemma_rebuilt<L>(rule: Rewrite, g: PatternNode<L>, m: PatternNode<L>, r: Option<PatternNode<L>>, kids_redex: bool, kids_cond: bool)
    requires
        rule != Rewrite::DropEmpty,
        rewrite_shrinks(rule, m, r),
        r is Some,
        count(r->0) <= count(m),
        !kids_redex ==> same_shape(m, g) && (has_redex(rule, m) == is_redex(rule, m)),
        kids_redex && kids_cond ==> count(m) < count(g),
        has_redex(rule, g) == (is_redex(rule, g) || kids_redex),
        shrink_condition(rule, g) ==> kids_cond,
    ensures
        visit_shrinks(rule, g, r),
{
    if !kids_redex {
        lemma_same_shape(m, g);
        assert(has_redex(Rewrite::PullUpSingleChild, m) == has_redex(Rewrite::PullUpSingleChild, g));
        assert(is_redex(Rewrite::PullUpSingleChild, m) ==> has_redex(Rewrite::PullUpSingleChild, m));
        if !has_redex(rule, g) {
            assert(!is_redex(rule, m));
            lemma_same_shape_trans(r->0, m, g);
        }
    }
}

fn visit<L>(rule: Rewrite, node: PatternNode<L>) -> (r: Option<PatternNode<L>>)
    ensures
        visit_ok(rule, node, r),
        visit_shrinks(rule, node, r),
    decreases node,
{
    let ghost g = node;
    match node {
        PatternNode::Leaf { leaf } => {
            let r = apply_rule(rule, PatternNode::Leaf { leaf });
            proof {
                assert(!is_redex(rule, g));
                assert(!has_redex(rule, g));
            }
            r
        },
        PatternNode::Any { children } => {
            let ghost cs = children@;
            let visited = visit_children(rule, children);
            let m = PatternNode::Any { children: visited };
            proof {
                assert forall|f: spec_fn(L) -> bool| #[trigger] eval(m, f) == eval(g, f) by {
                    assert(eval_list(true, visited@, f) == eval_list(true, cs, f));
                }
            }
            let r = apply_rule(rule, m);
            proof {
                assert(keeps_leaves(g, m)) by {
                    assert forall|p: spec_fn(L) -> bool| #[trigger] leaves_in(g, p) implies leaves_in(m, p) by {
                        assert(all_leaves_in(cs, p));
                    }
                }
                if rule != Rewrite::DropEmpty {
                    assert(has_redex(rule, g) == (is_redex(rule, g) || some_redex(rule, cs)));
                    assert(has_redex(Rewrite::PullUpSingleChild, g) == (is_redex(Rewrite::PullUpSingleChild, g) || some_redex(Rewrite::PullUpSingleChild, cs)));
                    if !some_redex(rule, cs) {
                        assert(same_shapes(visited@, cs));
                        assert(same_shape(m, g));
                        lemma_same_shapes(visited@, cs);
                        assert(has_redex(rule, m) == (is_redex(rule, m) || some_redex(rule, visited@)));
                    }
                    lemma_rebuilt(rule, g, m, r, some_redex(rule, cs), shrink_condition_seq(rule, cs));
                }
            }
            r
        },
        PatternNode::All { children } => {
            let ghost cs = children@;
            let visited = visit_children(rule, children);
            let m = PatternNode::All { children: visited };
            proof {
                assert forall|f: spec_fn(L) -> bool| #[trigger] eval(m, f) == eval(g, f) by {
                    assert(eval_list(false, visited@, f) == eval_list(false, cs, f));
                }
            }
            let r = apply_rule(rule, m);
            proof {
                assert(keeps_leaves(g, m)) by {
                    assert forall|p: spec_fn(L) -> bool| #[trigger] leaves_in(g, p) implies leaves_in(m, p) by {
                        assert(all_leaves_in(cs, p));
                    }
                }
                if rule != Rewrite::DropEmpty {
                    assert(has_redex(rule, g) == (is_redex(rule, g) || some_redex(rule, cs)));
                    assert(has_redex(Rewrite::PullUpSingleChild, g) == (is_redex(Rewrite::PullUpSingleChild, g) || some_redex(Rewrite::PullUpSingleChild, cs)));
                    if !some_redex(rule, cs) {
                        assert(same_shapes(visited@, cs));
                        assert(same_shape(m, g));
                        lemma_same_shapes(visited@, cs);
                        assert(has_redex(rule, m) == (is_redex(rule, m) || some_redex(rule, visited@)));
                    }
                    lemma_rebuilt(rule, g, m, r, some_redex(rule, cs), shrink_condition_seq(rule, cs));
                }
            }
            r
        },
        PatternNode::Not { child } => {
            let ghost c = *child;
            match visit(rule, *child) {
                None => {
                    assert forall|f: spec_fn(L) -> bool| #[trigger] eval(g, f) is None by {
                        assert(eval_result(None::<PatternNode<L>>, f) == eval(c, f));
                    }
                    None
                },
                Some(v) => {
                    let ghost vv = v;
                    let m = PatternNode::Not { child: Box::new(v) };
                    proof {
                        assert forall|f: spec_fn(L) -> bool| #[trigger] eval(m, f) == eval(g, f) by {
                            assert(eval_result(Some(vv), f) == eval(c, f));
                        }
                    }
                    let r = apply_rule(rule, m);
                    proof {
                        assert(keeps_leaves(g, m)) by {
                            assert forall|p: spec_fn(L) -> bool| #[trigger] leaves_in(g, p) implies leaves_in(m, p) by {
                                assert(leaves_in(c, p));
                            }
                        }
                        if rule != Rewrite::DropEmpty {
                            assert(has_redex(rule, g) == (is_redex(rule, g) || has_redex(rule, c)));
                            assert(has_redex(Rewrite::PullUpSingleChild, g) == (is_redex(Rewrite::PullUpSingleChild, g) || has_redex(Rewrite::PullUpSingleChild, c)));
                            if !has_redex(rule, c) {
                                assert(same_shape(vv, c));
                                assert(same_shape(m, g));
                                lemma_same_shape(vv, c);
                                assert(has_redex(rule, m) == (is_redex(rule, m) || has_redex(rule, vv)));
                            }
                            lemma_rebuilt(rule, g, m, r, has_redex(rule, c), shrink_condition(rule, c));
                        }
                    }
                    r
                },
            }
        },
    }
}

fn visit_children<L>(rule: Rewrite, children: Vec<PatternNode<L>>) -> (r: Vec<PatternNode<L>>)
    ensures
        forall|f: spec_fn(L) -> bool| #[trigger] eval_any(r@, f) == eval_any(children@, f),
        forall|f: spec_fn(L) -> bool| #[trigger] eval_all(r@, f) == eval_all(children@, f),
        count_seq(r@) <= count_seq(children@),
        rule == Rewrite::DropEmpty ==> all_no_empty(r@),
        rule != Rewrite::DropEmpty ==> r@.len() == children@.len(),
        rule != Rewrite::DropEmpty && all_no_empty(children@) ==> all_no_empty(r@),
        rule != Rewrite::DropEmpty && !some_redex(rule, children@) ==> same_shapes(r@, children@),
        rule != Rewrite::DropEmpty && some_redex(rule, children@) && shrink_condition_seq(rule, children@) ==> count_seq(r@) < count_seq(children@),
        keeps_leaves_seq(children@, r@),
    decreases children,
{
    let ghost orig = children;
    let mut rest = children;
    let mut out: Vec<PatternNode<L>> = Vec::new();
    let n: usize = rest.len();
    let mut i: usize = 0;
    proof {
        lemma_all_no_empty_index(orig@);
        assert(orig@.subrange(0, 0) =~= Seq::<PatternNode<L>>::empty());
    }
    while i < n
        invariant
            n == orig@.len(),
            i <= n,
            orig == children,
            rest@ == orig@.subrange(i as int, n as int),
            forall|f: spec_fn(L) -> bool| #[trigger] eval_any(out@, f) == eval_any(orig@.subrange(0, i as int), f),
            forall|f: spec_fn(L) -> bool| #[trigger] eval_all(out@, f) == eval_all(orig@.subrange(0, i as int), f),
            count_seq(out@) <= count_seq(orig@.subrange(0, i as int)),
            rule == Rewrite::DropEmpty ==> all_no_empty(out@),
            rule != Rewrite::DropEmpty ==> out@.len() == i,
            rule != Rewrite::DropEmpty && all_no_empty(orig@) ==> all_no_empty(out@),
            all_no_empty(orig@) <==> forall|j: int| 0 <= j < orig@.len() ==> no_empty(#[trigger] orig@[j]),
            rule != Rewrite::DropEmpty && !some_redex(rule, orig@.subrange(0, i as int)) ==> same_shapes(out@, orig@.subrange(0, i as int)),
            rule != Rewrite::DropEmpty && some_redex(rule, orig@.subrange(0, i as int)) && shrink_condition_seq(rule, orig@.subrange(0, i as int))
                ==> count_seq(out@) < count_seq(orig@.subrange(0, i as int)),
            keeps_leaves_seq(orig@.subrange(0, i as int), out@),
        decreases n - i,
    {
        let ghost prev = out@;
        let ghost x = orig@[i as int];
        let child = rest.remove(0);
        assert(child == orig[i as int]);
        proof {
            assert(decreases_to!(orig => orig[i as int]));
        }
        let visited = visit(rule, child);
        let ghost vr = visited;
        match visited {
            Some(v) => {
                out.push(v);
            },
            None => {},
        }
        proof {
            let take = orig@.subrange(0, i as int);
            assert(orig@.subrange(0, i + 1) =~= take.push(x));
            assert forall|f: spec_fn(L) -> bool| #[trigger] eval_any(out@, f) == eval_any(orig@.subrange(0, i + 1), f) by {
                lemma_eval_push(take, x, f);
                assert(eval_result(vr, f) == eval(x, f));
                assert(eval_any(prev, f) == eval_any(take, f));
                if let Some(v) = vr {
                    lemma_eval_push(prev, v, f);
                }
            }
            assert forall|f: spec_fn(L) -> bool| #[trigger] eval_all(out@, f) == eval_all(orig@.subrange(0, i + 1), f) by {
                lemma_eval_push(take, x, f);
                assert(eval_result(vr, f) == eval(x, f));
                assert(eval_all(prev, f) == eval_all(take, f));
                if let Some(v) = vr {
                    lemma_eval_push(prev, v, f);
                }
            }
            lemma_eval_push(take, x, |l: L| true);
            if let Some(v) = vr {
                lemma_eval_push(prev, v, |l: L| true);
            }
            assert forall|p: spec_fn(L) -> bool| #[trigger] all_leaves_in(orig@.subrange(0, i + 1), p) implies all_leaves_in(out@, p) by {
                assert(all_leaves_in(take, p));
                assert(all_leaves_in(prev, p));
                if let Some(v) = vr {
                    assert(leaves_in(x, p));
                    assert(leaves_in(v, p));
                }
            }
            if rule != Rewrite::DropEmpty {
                let next = orig@.subrange(0, i + 1);
                assert(next.subrange(0, i as int) =~= take);
                assert(next[i as int] == x);
                assert(some_redex(rule, next) == (some_redex(rule, take) || has_redex(rule, x)));
                assert(some_redex(Rewrite::PullUpSingleChild, next) == (some_redex(Rewrite::PullUpSingleChild, take) || has_redex(Rewrite::PullUpSingleChild, x)));
                let v = vr->0;
                assert(out@ == prev.push(v));
                if !some_redex(rule, next) {
                    lemma_same_shapes_push(prev, take, v, x);
                }
            }
        }
        i = i + 1;
        proof {
            assert(rest@ =~= orig@.subrange(i as int, n as int));
        }
    }
    proof {
        assert(orig@.subrange(0, n as int) =~= orig@);
    }
    out
}

/// `count` saturated at the largest `usize`.
pub open spec fn saturated_count<L>(n: PatternNode<L>) -> nat {
    if count(n) > usize::MAX {
        usize::MAX as nat
    } else {
        count(n)
    }
}

fn saturating_sum(a: usize, b: usize) -> (r: usize)
    ensures
        r == (if a + b > usize::MAX { usize::MAX as int } else { a + b }),
{
    if a > usize::MAX - b {
        usize::MAX
    } else {
        a + b
    }
}

fn count_nodes<L>(node: &PatternNode<L>) -> (r: usize)
    ensures
        r == saturated_count(*node),
    decreases node,
{
    match node {
        PatternNode::Leaf { .. } => 1,
        PatternNode::Any { children } => saturating_sum(1, count_children(children)),
        PatternNode::All { children } => saturating_sum(1, count_children(children)),
        PatternNode::Not { child } => saturating_sum(1, count_nodes(child)),
    }
}

fn count_children<L>(children: &Vec<PatternNode<L>>) -> (r: usize)
    ensures
        r == (if count_seq(children@) > usize::MAX { usize::MAX as nat } else { count_seq(children@) }),
    decreases children,
{
    let mut total: usize = 0;
    let mut i: usize = 0;
    proof {
        assert(children@.subrange(0, 0) =~= Seq::<PatternNode<L>>::empty());
    }
    while i < children.len()
        invariant
            i <= children@.len(),
            total == (if count_seq(children@.subrange(0, i as int)) > usize::MAX {
                usize::MAX as nat
            } else {
                count_seq(children@.subrange(0, i as int))
            }),
        decreases children@.len() - i,
    {
        let c = count_nodes(&children[i]);
        proof {
            assert(children@.subrange(0, i + 1) =~= children@.subrange(0, i as int).push(children@[i as int]));
            lemma_eval_push(children@.subrange(0, i as int), children@[i as int], |l: L| true);
        }
        total = saturating_sum(total, c);
        i = i + 1;
    }
    proof {
        assert(children@.subrange(0, i as int) =~= children@);
    }
    total
}

/// Rewrites a tree with the optimizer's rules until no rule makes it
/// smaller. Empty `any` and `all` lists are dropped first; a tree that holds
/// nothing else is an error. The result has the same truth value as the
/// input for every valuation of the leaves, has no empty lists, and has no
/// more nodes than the input; when the input's node count fits in a `usize`
/// it is a fixed point: no rule rewrites any of its nodes.
pub fn optimize<L>(root: PatternNode<L>) -> (r: Result<PatternNode<L>, CompileError>)
    ensures
        r is Err ==> r == Err::<PatternNode<L>, CompileError>(CompileError::ReducedToNothingness)
            && forall|f: spec_fn(L) -> bool| #[trigger] eval(root, f) is None,
        r matches Ok(n) ==> {
            &&& no_empty(n)
            &&& count(n) <= count(root)
            &&& forall|f: spec_fn(L) -> bool| #[trigger] eval(n, f) == eval(root, f)
        },
        r is Ok && count(root) <= usize::MAX ==> is_optimized(r->Ok_0),
        r is Ok ==> keeps_leaves(root, r->Ok_0),
{
    let ghost g = root;
    let first = visit(Rewrite::DropEmpty, root);
    let mut current = match first {
        None => {
            assert forall|f: spec_fn(L) -> bool| #[trigger] eval(g, f) is None by {
                assert(eval_result(first, f) == eval(g, f));
            }
            return Err(CompileError::ReducedToNothingness);
        },
        Some(n) => n,
    };
    assert forall|f: spec_fn(L) -> bool| #[trigger] eval(current, f) == eval(g, f) by {
        assert(eval_result(first, f) == eval(g, f));
    }
    assert(keeps_leaves(g, current));
    let rules: [Rewrite; 4] = [
        Rewrite::CollapseDoubleNegative,
        Rewrite::PullUpSingleChild,
        Rewrite::PullUpSameType,
        Rewrite::DeMorgan,
    ];
    loop
        invariant
            keeps_leaves(root, current),
            no_empty(current),
            count(current) <= count(root),
            forall|f: spec_fn(L) -> bool| #[trigger] eval(current, f) == eval(root, f),
            rules@ == seq![
                Rewrite::CollapseDoubleNegative,
                Rewrite::PullUpSingleChild,
                Rewrite::PullUpSameType,
                Rewrite::DeMorgan,
            ],
        ensures
            keeps_leaves(root, current),
            no_empty(current),
            count(current) <= count(root),
            forall|f: spec_fn(L) -> bool| #[trigger] eval(current, f) == eval(root, f),
            count(root) <= usize::MAX ==> is_optimized(current),
        decreases count(current),
    {
        let before = count_nodes(&current);
        let ghost start = count(current);
        let mut progress = false;
        let mut k: usize = 0;
        while k < 4
            invariant
                keeps_leaves(root, current),
                no_empty(current),
                count(current) <= start,
                start <= count(root),
                before == (if start > usize::MAX { usize::MAX as nat } else { start }),
                progress ==> count(current) < start,
                forall|f: spec_fn(L) -> bool| #[trigger] eval(current, f) == eval(root, f),
                rules@ == seq![
                    Rewrite::CollapseDoubleNegative,
                    Rewrite::PullUpSingleChild,
                    Rewrite::PullUpSameType,
                    Rewrite::DeMorgan,
                ],
                k <= 4,
                !progress && start <= usize::MAX ==> count(current) == start
                    && forall|k2: int| 0 <= k2 < k ==> !has_redex(#[trigger] rules@[k2], current),
            ensures
                keeps_leaves(root, current),
                no_empty(current),
                count(current) <= start,
                progress ==> count(current) < start,
                forall|f: spec_fn(L) -> bool| #[trigger] eval(current, f) == eval(root, f),
                !progress && start <= usize::MAX ==> forall|k2: int| 0 <= k2 < 4 ==> !has_redex(#[trigger] rules@[k2], current),
            decreases 4 - k,
        {
            let rule = rules[k];
            let ghost prev = current;
            let rewritten = visit(rule, current);
            current = match rewritten {
                Some(n) => n,
                None => {
                    assert(false);
                    return Err(CompileError::ReducedToNothingness);
                },
            };
            proof {
                assert forall|f: spec_fn(L) -> bool| #[trigger] eval(current, f) == eval(root, f) by {
                    assert(eval_result(rewritten, f) == eval(prev, f));
                }
                assert forall|p: spec_fn(L) -> bool| #[trigger] leaves_in(root, p) implies leaves_in(current, p) by {
                    assert(leaves_in(prev, p));
                }
            }
            if count_nodes(&current) < before {
                progress = true;
                break;
            }
            proof {
                if start <= usize::MAX {
                    assert(count(current) == count(prev));
                    assert(rule == rules@[k as int]);
                    if k == 3 {
                        assert(!has_redex(rules@[1], prev));
                        assert(shrink_condition(rule, prev));
                    } else {
                        assert(shrink_condition(rule, prev));
                    }
                    assert(!has_redex(rule, prev));
                    lemma_same_shape(current, prev);
                    assert forall|k2: int| 0 <= k2 < k + 1 implies !has_redex(#[trigger] rules@[k2], current) by {
                        if k2 < k {
                            assert(!has_redex(rules@[k2], prev));
                        }
                    }
                }
            }
            k = k + 1;
        }
        if !progress {
            proof {
                if count(root) <= usize::MAX {
                    assert(!has_redex(rules@[0], current));
                    assert(!has_redex(rules@[1], current));
                    assert(!has_redex(rules@[2], current));
                    assert(!has_redex(rules@[3], current));
                }
            }
            break;
        }
    }
    Ok(current)
}

proof fn lemma_eval_pair<L>(a: PatternNode<L>, b: PatternNode<L>, f: spec_fn(L) -> bool)
    ensures
        eval_any(seq![a, b], f) == join_or(eval(a, f), eval(b, f)),
        eval_all(seq![a, b], f) == join_and(eval(a, f), eval(b, f)),
{
    let e = Seq::<PatternNode<L>>::empty();
    assert(seq![a] =~= e.push(a));
    assert(seq![a, b] =~= seq![a].push(b));
    lemma_eval_push(e, a, f);
    lemma_eval_push(seq![a], b, f);
}

/// De Morgan's laws for the pattern language: `Any[Not(a), Not(b)]` holds
/// exactly when `Not(All[a, b])` does, and `All[Not(a), Not(b)]` exactly when
/// `Not(Any[a, b])` does, that is when neither `a` nor `b` holds.
pub proof fn lemma_de_morgan<L>(n: PatternNode<L>, a: PatternNode<L>, b: PatternNode<L>, f: spec_fn(L) -> bool)
    requires
        n matches PatternNode::Any { children } ==> children@ == seq![
            PatternNode::Not { child: Box::new(a) },
            PatternNode::Not { child: Box::new(b) },
        ],
        n matches PatternNode::All { children } ==> children@ == seq![
            PatternNode::Not { child: Box::new(a) },
            PatternNode::Not { child: Box::new(b) },
        ],
        n is Any || n is All,
    ensures
        n is Any ==> eval(n, f) == negate(join_and(eval(a, f), eval(b, f))),
        n is Any ==> eval(n, f) == join_or(negate(eval(a, f)), negate(eval(b, f))),
        n is All ==> eval(n, f) == negate(join_or(eval(a, f), eval(b, f))),
        n is All ==> eval(n, f) == join_and(negate(eval(a, f)), negate(eval(b, f))),
{
    let na = PatternNode::Not { child: Box::new(a) };
    let nb = PatternNode::Not { child: Box::new(b) };
    lemma_eval_pair(a, b, f);
    lemma_eval_pair(na, nb, f);
}

} // verus!
