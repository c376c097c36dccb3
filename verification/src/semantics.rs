//! The mathematical model of evaluation: values, environment frames, and an
//! evaluator over them that runs with a step budget (`fuel`).
//!
//! Environments form a store of frames addressed by index.  Each frame holds
//! its bindings, latest last, and the index of its parent frame; a closure
//! keeps the index of the frame it was made in, so a later `define` in that
//! frame is seen by the closure, as with shared mutable environments.
use crate::parser::{quote_name, SpecSExpr};
use vstd::prelude::*;

verus! {

/// The built-in functions.
#[derive(Debug, Clone, Copy, PartialEq, Eq)]
pub enum BuiltinFunction {
    /// `(atom x)`: `T` when `x` is an atom, else `nil`.
    Atom,
    /// `(eq x y)`: `T` when both are the same atom or both `nil`, else `nil`.
    Eq,
    /// `(car p)`: the first part of a pair.
    Car,
    /// `(cdr p)`: the second part of a pair.
    Cdr,
    /// `(cons x y)`: the pair of `x` and `y`.
    Cons,
}

/// The model of a closure: parameter names, body, and the index of the frame
/// it was made in.
pub struct SpecClosure {
    pub params: Seq<Seq<char>>,
    pub body: SpecSExpr,
    pub env: nat,
}

/// The model of a value.
pub enum SpecValue {
    Atom(Seq<char>),
    Nil,
    Cons(Box<SpecValue>, Box<SpecValue>),
    Builtin(BuiltinFunction),
    Lambda(SpecClosure),
}

/// The model of an evaluation error.
pub enum SpecEvalError {
    UndefinedSymbol(Seq<char>),
    InvalidArgumentCount,
    InvalidArgumentType,
    NotCallable,
    InvalidSpecialForm,
    InvalidLambda,
}

/// One environment frame: its bindings in the order they were made, and the
/// index of its parent frame.
#[verifier::ext_equal]
pub struct SpecFrame {
    pub bindings: Seq<(Seq<char>, SpecValue)>,
    pub parent: Option<nat>,
}

/// The store of all frames.
pub type Heap = Seq<SpecFrame>;

/// The result of an evaluation with its store afterwards, or `None` where the
/// fuel ran out first.
pub type SpecOutcome = Option<(Heap, Result<SpecValue, SpecEvalError>)>;

/// The characters of `T`, the true value.
pub open spec fn t_name() -> Seq<char> {
    seq!['T']
}

pub open spec fn cond_name() -> Seq<char> {
    seq!['c', 'o', 'n', 'd']
}

pub open spec fn lambda_name() -> Seq<char> {
    seq!['l', 'a', 'm', 'b', 'd', 'a']
}

pub open spec fn define_name() -> Seq<char> {
    seq!['d', 'e', 'f', 'i', 'n', 'e']
}

/// The names whose forms are not function applications.
pub open spec fn is_special_form(name: Seq<char>) -> bool {
    name == quote_name() || name == cond_name() || name == lambda_name() || name == define_name()
}

/// `T`
pub open spec fn truth() -> SpecValue {
    SpecValue::Atom(t_name())
}

/// Every closure inside `v` refers to one of the first `n` frames.
pub open spec fn value_wf(v: SpecValue, n: nat) -> bool
    decreases v,
{
    match v {
        SpecValue::Cons(a, d) => value_wf(*a, n) && value_wf(*d, n),
        SpecValue::Lambda(c) => c.env < n,
        _ => true,
    }
}

/// A well-formed store: each frame's parent comes before it, and every bound
/// value refers to frames of the store only.
pub open spec fn heap_wf(h: Heap) -> bool {
    &&& forall|i: int| 0 <= i < h.len() ==> (#[trigger] h[i].parent matches Some(p) ==> p < i)
    &&& forall|i: int, j: int|
        0 <= i < h.len() && 0 <= j < h[i].bindings.len() ==> value_wf(
            #[trigger] h[i].bindings[j].1,
            h.len(),
        )
}

/// The latest binding of `name` among `bs`.
pub open spec fn assoc_find(bs: Seq<(Seq<char>, SpecValue)>, name: Seq<char>) -> Option<SpecValue>
    decreases bs.len(),
{
    if bs.len() == 0 {
        None
    } else if bs.last().0 == name {
        Some(bs.last().1)
    } else {
        assoc_find(bs.drop_last(), name)
    }
}

/// The value of `name` seen from frame `f`: its latest binding in `f`, else
/// its value seen from the parent frame.
pub open spec fn spec_lookup(h: Heap, f: nat, name: Seq<char>) -> Option<SpecValue>
    decreases f,
{
    if f >= h.len() {
        None
    } else {
        match assoc_find(h[f as int].bindings, name) {
            Some(v) => Some(v),
            None => match h[f as int].parent {
                Some(p) => if p < f {
                    spec_lookup(h, p, name)
                } else {
                    None
                },
                None => None,
            },
        }
    }
}

/// The store after binding `name` to `v` in frame `f`.
pub open spec fn spec_define(h: Heap, f: nat, name: Seq<char>, v: SpecValue) -> Heap {
    h.update(
        f as int,
        SpecFrame { bindings: h[f as int].bindings.push((name, v)), parent: h[f as int].parent },
    )
}

/// The store after adding an empty frame whose parent is `p`.
pub open spec fn spec_with_parent(h: Heap, p: nat) -> Heap {
    h.push(SpecFrame { bindings: seq![], parent: Some(p) })
}

/// The bindings of the global frame: the five built-in functions.
pub open spec fn builtin_bindings() -> Seq<(Seq<char>, SpecValue)> {
    seq![
        (seq!['a', 't', 'o', 'm'], SpecValue::Builtin(BuiltinFunction::Atom)),
        (seq!['e', 'q'], SpecValue::Builtin(BuiltinFunction::Eq)),
        (seq!['c', 'a', 'r'], SpecValue::Builtin(BuiltinFunction::Car)),
        (seq!['c', 'd', 'r'], SpecValue::Builtin(BuiltinFunction::Cdr)),
        (seq!['c', 'o', 'n', 's'], SpecValue::Builtin(BuiltinFunction::Cons)),
    ]
}

/// A fresh store: only the global frame, holding the built-in functions.
pub open spec fn initial_heap() -> Heap {
    seq![SpecFrame { bindings: builtin_bindings(), parent: None }]
}

/// What a built-in function returns for the argument values `args`.
pub open spec fn spec_call(b: BuiltinFunction, args: Seq<SpecValue>) -> Result<SpecValue, SpecEvalError> {
    match b {
        BuiltinFunction::Atom => if args.len() != 1 {
            Err(SpecEvalError::InvalidArgumentCount)
        } else if args[0] is Atom {
            Ok(truth())
        } else {
            Ok(SpecValue::Nil)
        },
        BuiltinFunction::Eq => if args.len() != 2 {
            Err(SpecEvalError::InvalidArgumentCount)
        } else {
            match (args[0], args[1]) {
                (SpecValue::Atom(a), SpecValue::Atom(b)) => if a == b {
                    Ok(truth())
                } else {
                    Ok(SpecValue::Nil)
                },
                (SpecValue::Nil, SpecValue::Nil) => Ok(truth()),
                _ => Ok(SpecValue::Nil),
            }
        },
        BuiltinFunction::Car => if args.len() != 1 {
            Err(SpecEvalError::InvalidArgumentCount)
        } else {
            match args[0] {
                SpecValue::Cons(a, _) => Ok(*a),
                _ => Err(SpecEvalError::InvalidArgumentType),
            }
        },
        BuiltinFunction::Cdr => if args.len() != 1 {
            Err(SpecEvalError::InvalidArgumentCount)
        } else {
            match args[0] {
                SpecValue::Cons(_, d) => Ok(*d),
                _ => Err(SpecEvalError::InvalidArgumentType),
            }
        },
        BuiltinFunction::Cons => if args.len() != 2 {
            Err(SpecEvalError::InvalidArgumentCount)
        } else {
            Ok(SpecValue::Cons(Box::new(args[0]), Box::new(args[1])))
        },
    }
}

/// The elements of a proper list `(e1 e2 ... . nil)`, or `None` where the list
/// ends in an atom.
pub open spec fn spec_extract_list(e: SpecSExpr) -> Option<Seq<SpecSExpr>>
    decreases e,
{
    match e {
        SpecSExpr::Nil => Some(seq![]),
        SpecSExpr::Atom(_) => None,
        SpecSExpr::Cons(a, d) => match spec_extract_list(*d) {
            Some(rest) => Some(seq![*a] + rest),
            None => None,
        },
    }
}

/// An S-expression read as data.
pub open spec fn spec_quote_to_value(e: SpecSExpr) -> SpecValue
    decreases e,
{
    match e {
        SpecSExpr::Nil => SpecValue::Nil,
        SpecSExpr::Atom(s) => SpecValue::Atom(s),
        SpecSExpr::Cons(a, d) => SpecValue::Cons(
            Box::new(spec_quote_to_value(*a)),
            Box::new(spec_quote_to_value(*d)),
        ),
    }
}

/// The characters of an atom.
pub open spec fn atom_name(e: SpecSExpr) -> Seq<char> {
    match e {
        SpecSExpr::Atom(n) => n,
        _ => seq![],
    }
}

/// The names of a parameter list, or `None` where one of them is no atom.
pub open spec fn atom_names(ps: Seq<SpecSExpr>) -> Option<Seq<Seq<char>>> {
    if forall|i: int| 0 <= i < ps.len() ==> (#[trigger] ps[i]) is Atom {
        Some(ps.map_values(|p: SpecSExpr| atom_name(p)))
    } else {
        None
    }
}

/// `(quote e)`: `e` read as data.
pub open spec fn spec_quote(args: SpecSExpr) -> Result<SpecValue, SpecEvalError> {
    match spec_extract_list(args) {
        None => Err(SpecEvalError::InvalidArgumentType),
        Some(l) => if l.len() != 1 {
            Err(SpecEvalError::InvalidArgumentCount)
        } else {
            Ok(spec_quote_to_value(l[0]))
        },
    }
}

/// `(lambda (params...) body)` made in frame `f`.
pub open spec fn spec_lambda(args: SpecSExpr, f: nat) -> Result<SpecValue, SpecEvalError> {
    match spec_extract_list(args) {
        None => Err(SpecEvalError::InvalidArgumentType),
        Some(l) => if l.len() != 2 {
            Err(SpecEvalError::InvalidLambda)
        } else {
            match spec_extract_list(l[0]) {
                None => Err(SpecEvalError::InvalidArgumentType),
                Some(ps) => match atom_names(ps) {
                    None => Err(SpecEvalError::InvalidLambda),
                    Some(names) => Ok(SpecValue::Lambda(SpecClosure { params: names, body: l[1], env: f })),
                },
            }
        },
    }
}

/// The bindings of the parameters to the arguments, in order.
pub open spec fn bind_params(params: Seq<Seq<char>>, args: Seq<SpecValue>) -> Seq<(Seq<char>, SpecValue)> {
    Seq::new(params.len(), |i: int| (params[i], args[i]))
}

/// Evaluates `e` in frame `f` of store `h`, with evaluations nested at most
/// `fuel` deep; `None` where that does not suffice.
pub open spec fn spec_eval(fuel: nat, e: SpecSExpr, h: Heap, f: nat) -> SpecOutcome
    decreases fuel, 0nat, 0nat,
{
    if fuel == 0 {
        None
    } else {
        let k = (fuel - 1) as nat;
        match e {
            SpecSExpr::Nil => Some((h, Ok(SpecValue::Nil))),
            SpecSExpr::Atom(name) => if name == t_name() {
                Some((h, Ok(truth())))
            } else {
                match spec_lookup(h, f, name) {
                    Some(v) => Some((h, Ok(v))),
                    None => Some((h, Err(SpecEvalError::UndefinedSymbol(name)))),
                }
            },
            SpecSExpr::Cons(op, args) => match *op {
                SpecSExpr::Atom(n) => if is_special_form(n) {
                    spec_eval_special(k, n, *args, h, f)
                } else {
                    spec_eval_application(k, *op, *args, h, f)
                },
                _ => spec_eval_application(k, *op, *args, h, f),
            },
        }
    }
}

/// Evaluates the special form named `name` with the unevaluated arguments
/// `args`.
pub open spec fn spec_eval_special(
    fuel: nat,
    name: Seq<char>,
    args: SpecSExpr,
    h: Heap,
    f: nat,
) -> SpecOutcome
    decreases fuel, 3nat, 0nat,
{
    if name == quote_name() {
        Some((h, spec_quote(args)))
    } else if name == cond_name() {
        match spec_extract_list(args) {
            None => Some((h, Err(SpecEvalError::InvalidArgumentType))),
            Some(l) => spec_eval_clauses(fuel, l, 0, h, f),
        }
    } else if name == lambda_name() {
        Some((h, spec_lambda(args, f)))
    } else if name == define_name() {
        match spec_extract_list(args) {
            None => Some((h, Err(SpecEvalError::InvalidArgumentType))),
            Some(l) => if l.len() != 2 {
                Some((h, Err(SpecEvalError::InvalidArgumentCount)))
            } else {
                match l[0] {
                    SpecSExpr::Atom(n) => match spec_eval(fuel, l[1], h, f) {
                        None => None,
                        Some((h1, Err(e))) => Some((h1, Err(e))),
                        Some((h1, Ok(v))) => Some((spec_define(h1, f, n, v), Ok(v))),
                    },
                    _ => Some((h, Err(SpecEvalError::InvalidArgumentType))),
                }
            },
        }
    } else {
        Some((h, Err(SpecEvalError::InvalidSpecialForm)))
    }
}

/// `cond` from clause `i` on: the first clause whose test is not `nil`
/// gives the value of its last expression, or of its test where it has no
/// other; an empty clause is skipped; with no such clause the value is `nil`.
pub open spec fn spec_eval_clauses(
    fuel: nat,
    clauses: Seq<SpecSExpr>,
    i: nat,
    h: Heap,
    f: nat,
) -> SpecOutcome
    decreases fuel, 2nat, clauses.len() - i,
{
    if i >= clauses.len() {
        Some((h, Ok(SpecValue::Nil)))
    } else {
        match spec_extract_list(clauses[i as int]) {
            None => Some((h, Err(SpecEvalError::InvalidArgumentType))),
            Some(c) => if c.len() == 0 {
                spec_eval_clauses(fuel, clauses, i + 1, h, f)
            } else {
                match spec_eval(fuel, c[0], h, f) {
                    None => None,
                    Some((h1, Err(e))) => Some((h1, Err(e))),
                    Some((h1, Ok(v))) => if !(v is Nil) {
                        if c.len() > 1 {
                            spec_eval_sequence(fuel, c, 1, h1, f, SpecValue::Nil)
                        } else {
                            Some((h1, Ok(v)))
                        }
                    } else {
                        spec_eval_clauses(fuel, clauses, i + 1, h1, f)
                    },
                }
            },
        }
    }
}

/// Evaluates `es[j..]` in order; the value is that of the last one, or `last`
/// where none is left.
pub open spec fn spec_eval_sequence(
    fuel: nat,
    es: Seq<SpecSExpr>,
    j: nat,
    h: Heap,
    f: nat,
    last: SpecValue,
) -> SpecOutcome
    decreases fuel, 1nat, es.len() - j,
{
    if j >= es.len() {
        Some((h, Ok(last)))
    } else {
        match spec_eval(fuel, es[j as int], h, f) {
            None => None,
            Some((h1, Err(e))) => Some((h1, Err(e))),
            Some((h1, Ok(v))) => spec_eval_sequence(fuel, es, j + 1, h1, f, v),
        }
    }
}

/// Evaluates `es[i..]` in order and appends their values to `acc`.
pub open spec fn spec_eval_args(
    fuel: nat,
    es: Seq<SpecSExpr>,
    i: nat,
    h: Heap,
    f: nat,
    acc: Seq<SpecValue>,
) -> Option<(Heap, Result<Seq<SpecValue>, SpecEvalError>)>
    decreases fuel, 1nat, es.len() - i,
{
    if i >= es.len() {
        Some((h, Ok(acc)))
    } else {
        match spec_eval(fuel, es[i as int], h, f) {
            None => None,
            Some((h1, Err(e))) => Some((h1, Err(e))),
            Some((h1, Ok(v))) => spec_eval_args(fuel, es, i + 1, h1, f, acc.push(v)),
        }
    }
}

/// Evaluates the elements of the argument list `args` from left to right.
pub open spec fn spec_eval_arguments(
    fuel: nat,
    args: SpecSExpr,
    h: Heap,
    f: nat,
) -> Option<(Heap, Result<Seq<SpecValue>, SpecEvalError>)>
    decreases fuel, 2nat, 0nat,
{
    match spec_extract_list(args) {
        None => Some((h, Err(SpecEvalError::InvalidArgumentType))),
        Some(es) => spec_eval_args(fuel, es, 0, h, f, seq![]),
    }
}

/// Applies `fv` to already evaluated arguments: a built-in computes its
/// result; a closure runs its body in a new frame under the closure's own,
/// where each parameter is bound to its argument.
pub open spec fn spec_apply(fuel: nat, fv: SpecValue, args: Seq<SpecValue>, h: Heap) -> SpecOutcome
    decreases fuel, 2nat, 0nat,
{
    match fv {
        SpecValue::Builtin(b) => Some((h, spec_call(b, args))),
        SpecValue::Lambda(c) => if c.params.len() != args.len() {
            Some((h, Err(SpecEvalError::InvalidArgumentCount)))
        } else {
            let h1 = h.push(SpecFrame { bindings: bind_params(c.params, args), parent: Some(c.env) });
            spec_eval(fuel, c.body, h1, h.len())
        },
        _ => Some((h, Err(SpecEvalError::NotCallable))),
    }
}

/// A function application: the operator first, then the arguments from left
/// to right, then the call.
pub open spec fn spec_eval_application(
    fuel: nat,
    op: SpecSExpr,
    args: SpecSExpr,
    h: Heap,
    f: nat,
) -> SpecOutcome
    decreases fuel, 3nat, 0nat,
{
    match spec_eval(fuel, op, h, f) {
        None => None,
        Some((h1, Err(e))) => Some((h1, Err(e))),
        Some((h1, Ok(fv))) => match spec_eval_arguments(fuel, args, h1, f) {
            None => None,
            Some((h2, Err(e))) => Some((h2, Err(e))),
            Some((h2, Ok(vs))) => spec_apply(fuel, fv, vs, h2),
        },
    }
}

/// A value that refers to the first `n` frames refers to the first `m >= n`.
pub proof fn lemma_value_wf_mono(v: SpecValue, n: nat, m: nat)
    requires
        value_wf(v, n),
        n <= m,
    ensures
        value_wf(v, m),
    decreases v,
{
    match v {
        SpecValue::Cons(a, d) => {
            lemma_value_wf_mono(*a, n, m);
            lemma_value_wf_mono(*d, n, m);
        },
        _ => {},
    }
}

/// A well-formed store stays well-formed when it grows by an empty frame
/// under an existing one.
pub proof fn lemma_with_parent_wf(h: Heap, p: nat)
    requires
        heap_wf(h),
        p < h.len(),
    ensures
        heap_wf(spec_with_parent(h, p)),
{
    let h2 = spec_with_parent(h, p);
    assert forall|i: int, j: int| 0 <= i < h2.len() && 0 <= j < h2[i].bindings.len() implies value_wf(
        #[trigger] h2[i].bindings[j].1,
        h2.len(),
    ) by {
        lemma_value_wf_mono(h[i].bindings[j].1, h.len(), h2.len());
    }
}

/// Binding a value that refers to existing frames keeps a store well-formed.
pub proof fn lemma_define_wf(h: Heap, f: nat, name: Seq<char>, v: SpecValue)
    requires
        heap_wf(h),
        f < h.len(),
        value_wf(v, h.len()),
    ensures
        heap_wf(spec_define(h, f, name, v)),
        spec_define(h, f, name, v).len() == h.len(),
{
    let h2 = spec_define(h, f, name, v);
    assert forall|i: int| 0 <= i < h2.len() implies (#[trigger] h2[i].parent matches Some(p) ==> p
        < i) by {
        assert(h2[i].parent == h[i].parent);
    }
    assert forall|i: int, j: int| 0 <= i < h2.len() && 0 <= j < h2[i].bindings.len() implies value_wf(
        #[trigger] h2[i].bindings[j].1,
        h2.len(),
    ) by {
        if i == f && j == h[i].bindings.len() {
        } else {
            assert(h2[i].bindings[j] == h[i].bindings[j]);
        }
    }
}

/// The latest binding found in well-formed bindings refers to existing frames.
proof fn lemma_assoc_find_wf(bs: Seq<(Seq<char>, SpecValue)>, name: Seq<char>, n: nat)
    requires
        forall|j: int| 0 <= j < bs.len() ==> value_wf(#[trigger] bs[j].1, n),
    ensures
        assoc_find(bs, name) matches Some(v) ==> value_wf(v, n),
    decreases bs.len(),
{
    if bs.len() > 0 {
        assert(bs.last() == bs[bs.len() - 1]);
        let b2 = bs.drop_last();
        assert forall|j: int| 0 <= j < b2.len() implies value_wf(#[trigger] b2[j].1, n) by {
            assert(b2[j] == bs[j]);
        }
        lemma_assoc_find_wf(b2, name, n);
    }
}

/// What a lookup finds in a well-formed store refers to its frames.
pub proof fn lemma_lookup_wf(h: Heap, f: nat, name: Seq<char>)
    requires
        heap_wf(h),
    ensures
        spec_lookup(h, f, name) matches Some(v) ==> value_wf(v, h.len()),
    decreases f,
{
    if f < h.len() {
        let bs = h[f as int].bindings;
        assert forall|j: int| 0 <= j < bs.len() implies value_wf(#[trigger] bs[j].1, h.len()) by {
            assert(bs[j] == h[f as int].bindings[j]);
        }
        lemma_assoc_find_wf(bs, name, h.len());
        match h[f as int].parent {
            Some(p) => if p < f {
                lemma_lookup_wf(h, p, name);
            },
            None => {},
        }
    }
}

/// A built-in function returns values that refer only to frames its
/// arguments refer to.
pub proof fn lemma_call_wf(b: BuiltinFunction, args: Seq<SpecValue>, n: nat)
    requires
        forall|i: int| 0 <= i < args.len() ==> value_wf(#[trigger] args[i], n),
    ensures
        spec_call(b, args) matches Ok(v) ==> value_wf(v, n),
{
    if args.len() > 0 {
        assert(value_wf(args[0], n));
    }
    if args.len() > 1 {
        assert(value_wf(args[1], n));
    }
}

/// Quoted data holds no closure.
pub proof fn lemma_quote_wf(e: SpecSExpr, n: nat)
    ensures
        value_wf(spec_quote_to_value(e), n),
    decreases e,
{
    match e {
        SpecSExpr::Cons(a, d) => {
            lemma_quote_wf(*a, n);
            lemma_quote_wf(*d, n);
        },
        _ => {},
    }
}

/// Evaluation of `e` in frame `f` of `h` comes to an end with evaluations
/// nested at most `depth` deep.
pub open spec fn eval_ends_within(e: SpecSExpr, h: Heap, f: nat, depth: nat) -> bool {
    spec_eval(depth, e, h, f) is Some
}

/// Evaluation of `e` in frame `f` of `h` comes to an end.
pub open spec fn eval_terminates(e: SpecSExpr, h: Heap, f: nat) -> bool {
    exists|fuel: nat| (#[trigger] spec_eval(fuel, e, h, f)) is Some
}

/// The store and result that evaluation of `e` in frame `f` of `h` ends with.
pub open spec fn eval_outcome(e: SpecSExpr, h: Heap, f: nat) -> (Heap, Result<SpecValue, SpecEvalError>) {
    spec_eval(choose|fuel: nat| (#[trigger] spec_eval(fuel, e, h, f)) is Some, e, h, f).unwrap()
}

} // verus!
