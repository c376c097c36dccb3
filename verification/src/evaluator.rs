//! Evaluation of S-expressions: values, environments, built-in functions and
//! the special forms `quote`, `cond`, `lambda` and `define`.
use crate::parser::{quote_name, SExpr, SpecSExpr};
use crate::prims::{rc_clone, same_place, str_eq};
use crate::semantics::{
    eval_ends_within,
    assoc_find, atom_name, bind_params, builtin_bindings, cond_name, define_name, eval_outcome,
    eval_terminates, heap_wf, initial_heap, is_special_form, lambda_name, lemma_call_wf,
    lemma_define_wf, lemma_lookup_wf, lemma_quote_wf, lemma_value_wf_mono, lemma_with_parent_wf,
    spec_quote_to_value, spec_apply, spec_call, spec_define, spec_eval, spec_eval_application,
    spec_eval_args, spec_eval_arguments, spec_eval_clauses, spec_eval_sequence, spec_eval_special,
    spec_extract_list, spec_lambda, spec_lookup, spec_quote, spec_with_parent, t_name, truth,
    value_wf, Heap, SpecOutcome, SpecClosure, SpecEvalError, SpecFrame, SpecValue,
};
use crate::laws::lemma_outcome_any_fuel;
use std::rc::Rc;
use vstd::prelude::*;

pub use crate::semantics::BuiltinFunction;

verus! {

/// A value.
#[derive(Debug, PartialEq)]
pub enum Value {
    Atom(String),
    Nil,
    Cons(Rc<Value>, Rc<Value>),
    Builtin(BuiltinFunction),
    Lambda(Rc<Closure>),
}

/// A function made by `lambda`: its parameters, its body, and the index of the
/// environment frame it was made in.  Closures compare by identity: a closure
/// equals only itself, not another one made alike.
#[derive(Debug, Clone)]
pub struct Closure {
    pub params: Vec<String>,
    pub body: SExpr,
    pub env: usize,
}

impl PartialEq for Closure {
    /// Whether both are the very same closure.
    fn eq(&self, other: &Self) -> (r: bool)
        ensures
            r ==> *self == *other,
    {
        same_place(self, other)
    }
}

impl vstd::std_specs::cmp::PartialEqSpecImpl for Closure {
    /// Identity is no function of the closures' values, so `==` on closures
    /// follows no spec over values.
    open spec fn obeys_eq_spec() -> bool {
        false
    }

    /// The value equality that identity implies; not what `==` computes.
    open spec fn eq_spec(&self, other: &Self) -> bool {
        *self == *other
    }
}

/// The model of a value, part by part.
pub open spec fn value_view(v: Value) -> SpecValue
    decreases v,
{
    match v {
        Value::Atom(s) => SpecValue::Atom(s@),
        Value::Nil => SpecValue::Nil,
        Value::Cons(a, d) => SpecValue::Cons(Box::new(value_view(*a)), Box::new(value_view(*d))),
        Value::Builtin(b) => SpecValue::Builtin(b),
        Value::Lambda(c) => SpecValue::Lambda(c@),
    }
}

/// The names of a list of strings.
pub open spec fn names_view(ns: Seq<String>) -> Seq<Seq<char>> {
    ns.map_values(|s: String| s@)
}

impl View for Closure {
    type V = SpecClosure;

    open spec fn view(&self) -> SpecClosure {
        SpecClosure { params: names_view(self.params@), body: self.body@, env: self.env as nat }
    }
}

impl View for Value {
    type V = SpecValue;

    open spec fn view(&self) -> SpecValue {
        value_view(*self)
    }
}

/// The models of a sequence of values.
pub open spec fn values_view(vs: Seq<Value>) -> Seq<SpecValue> {
    vs.map_values(|v: Value| v@)
}

impl Clone for Value {
    /// A copy that shares the parts of pairs and closures.
    fn clone(&self) -> (res: Self)
        ensures
            res == *self,
    {
        match self {
            Value::Atom(s) => Value::Atom(s.clone()),
            Value::Nil => Value::Nil,
            Value::Cons(a, d) => Value::Cons(rc_clone(a), rc_clone(d)),
            Value::Builtin(b) => Value::Builtin(*b),
            Value::Lambda(c) => Value::Lambda(rc_clone(c)),
        }
    }
}

/// Why an evaluation failed.
#[derive(Debug, Clone, PartialEq)]
pub enum EvalError {
    /// A symbol with no binding in the environment.
    UndefinedSymbol(String),
    /// A function or form got the wrong number of arguments.
    InvalidArgumentCount,
    /// An argument has the wrong shape, or a list is improper.
    InvalidArgumentType,
    /// The operator of an application is no function.
    NotCallable,
    /// An unknown special form.
    InvalidSpecialForm,
    /// A `lambda` form without exactly a parameter list and a body, or with a
    /// parameter that is no atom.
    InvalidLambda,
}

impl View for EvalError {
    type V = SpecEvalError;

    open spec fn view(&self) -> SpecEvalError {
        match self {
            EvalError::UndefinedSymbol(s) => SpecEvalError::UndefinedSymbol(s@),
            EvalError::InvalidArgumentCount => SpecEvalError::InvalidArgumentCount,
            EvalError::InvalidArgumentType => SpecEvalError::InvalidArgumentType,
            EvalError::NotCallable => SpecEvalError::NotCallable,
            EvalError::InvalidSpecialForm => SpecEvalError::InvalidSpecialForm,
            EvalError::InvalidLambda => SpecEvalError::InvalidLambda,
        }
    }
}

/// The model of an evaluation result.
pub open spec fn eval_result_view(r: Result<Value, EvalError>) -> Result<SpecValue, SpecEvalError> {
    match r {
        Ok(v) => Ok(v@),
        Err(e) => Err(e@),
    }
}

fn make_truth() -> (v: Value)
    ensures
        v@ == truth(),
{
    let s = "T".to_string();
    proof {
        reveal_strlit("T");
    }
    assert(s@ =~= t_name());
    Value::Atom(s)
}

impl BuiltinFunction {
    /// Calls the built-in function on argument values.
    pub fn call(&self, args: &[Value]) -> (res: Result<Value, EvalError>)
        ensures
            eval_result_view(res) == spec_call(*self, values_view(args@)),
    {
        let ghost va = values_view(args@);
        match self {
            BuiltinFunction::Atom => {
                if args.len() != 1 {
                    return Err(EvalError::InvalidArgumentCount);
                }
                assert(va[0] == args@[0]@);
                match &args[0] {
                    Value::Atom(_) => Ok(make_truth()),
                    _ => Ok(Value::Nil),
                }
            },
            BuiltinFunction::Eq => {
                if args.len() != 2 {
                    return Err(EvalError::InvalidArgumentCount);
                }
                assert(va[0] == args@[0]@);
                assert(va[1] == args@[1]@);
                match (&args[0], &args[1]) {
                    (Value::Atom(a), Value::Atom(b)) => {
                        if *a == *b {
                            Ok(make_truth())
                        } else {
                            Ok(Value::Nil)
                        }
                    },
                    (Value::Nil, Value::Nil) => Ok(make_truth()),
                    _ => Ok(Value::Nil),
                }
            },
            BuiltinFunction::Car => {
                if args.len() != 1 {
                    return Err(EvalError::InvalidArgumentCount);
                }
                assert(va[0] == args@[0]@);
                match &args[0] {
                    Value::Cons(car, _) => Ok((**car).clone()),
                    _ => Err(EvalError::InvalidArgumentType),
                }
            },
            BuiltinFunction::Cdr => {
                if args.len() != 1 {
                    return Err(EvalError::InvalidArgumentCount);
                }
                assert(va[0] == args@[0]@);
                match &args[0] {
                    Value::Cons(_, cdr) => Ok((**cdr).clone()),
                    _ => Err(EvalError::InvalidArgumentType),
                }
            },
            BuiltinFunction::Cons => {
                if args.len() != 2 {
                    return Err(EvalError::InvalidArgumentCount);
                }
                assert(va[0] == args@[0]@);
                assert(va[1] == args@[1]@);
                Ok(Value::Cons(Rc::new(args[0].clone()), Rc::new(args[1].clone())))
            },
        }
    }
}

/// The index of the global frame of an environment store.
pub const GLOBAL_FRAME: usize = 0;

/// One frame: its bindings in the order they were made, and its parent frame.
#[derive(Debug)]
struct Frame {
    bindings: Vec<(String, Value)>,
    parent: Option<usize>,
}

spec fn binding_view(b: (String, Value)) -> (Seq<char>, SpecValue) {
    (b.0@, b.1@)
}

spec fn frame_view(fr: Frame) -> SpecFrame {
    SpecFrame {
        bindings: fr.bindings@.map_values(|b: (String, Value)| binding_view(b)),
        parent: match fr.parent {
            Some(p) => Some(p as nat),
            None => None,
        },
    }
}

/// The store of all environment frames; a frame is named by its index.  The
/// global frame comes first.
#[derive(Debug)]
pub struct Environment {
    frames: Vec<Frame>,
}

impl View for Environment {
    type V = Heap;

    closed spec fn view(&self) -> Heap {
        self.frames@.map_values(|fr: Frame| frame_view(fr))
    }
}

impl Environment {
    /// Each frame's parent comes before it, and bound closures refer to
    /// frames of this store.
    pub open spec fn wf(&self) -> bool {
        heap_wf(self@)
    }

    /// A store holding only the global frame, with the built-in functions
    /// `atom`, `eq`, `car`, `cdr` and `cons`.
    pub fn new() -> (env: Self)
        ensures
            env@ == initial_heap(),
            env.wf(),
    {
        let mut env = Self { frames: Vec::new() };
        env.frames.push(Frame { bindings: Vec::new(), parent: None });
        assert(frame_view(env.frames@[0]).bindings =~= seq![]);
        assert(env@ =~~= seq![SpecFrame { bindings: seq![], parent: None }]);
        proof {
            reveal_strlit("atom");
            reveal_strlit("eq");
            reveal_strlit("car");
            reveal_strlit("cdr");
            reveal_strlit("cons");
        }
        env.define(GLOBAL_FRAME, "atom".to_string(), Value::Builtin(BuiltinFunction::Atom));
        env.define(GLOBAL_FRAME, "eq".to_string(), Value::Builtin(BuiltinFunction::Eq));
        env.define(GLOBAL_FRAME, "car".to_string(), Value::Builtin(BuiltinFunction::Car));
        env.define(GLOBAL_FRAME, "cdr".to_string(), Value::Builtin(BuiltinFunction::Cdr));
        env.define(GLOBAL_FRAME, "cons".to_string(), Value::Builtin(BuiltinFunction::Cons));
        assert(env@[0].bindings =~~= builtin_bindings());
        assert(env@ =~~= initial_heap());
        env
    }

    /// Adds an empty frame whose parent is frame `parent`, and returns its
    /// index.
    pub fn with_parent(&mut self, parent: usize) -> (child: usize)
        requires
            old(self).wf(),
            parent < old(self)@.len(),
        ensures
            final(self)@ == spec_with_parent(old(self)@, parent as nat),
            child == old(self)@.len(),
            final(self).wf(),
    {
        proof {
            lemma_with_parent_wf(self@, parent as nat);
        }
        let child = self.frames.len();
        self.frames.push(Frame { bindings: Vec::new(), parent: Some(parent) });
        assert(frame_view(self.frames@[child as int]).bindings =~= seq![]);
        assert(self@ =~~= spec_with_parent(old(self)@, parent as nat));
        child
    }

    /// Binds `name` to `value` in frame `frame`; a later binding of a name
    /// hides an earlier one.
    pub fn define(&mut self, frame: usize, name: String, value: Value)
        requires
            old(self).wf(),
            frame < old(self)@.len(),
            value_wf(value@, old(self)@.len()),
        ensures
            final(self)@ == spec_define(old(self)@, frame as nat, name@, value@),
            final(self).wf(),
    {
        proof {
            lemma_define_wf(self@, frame as nat, name@, value@);
        }
        let ghost target = spec_define(old(self)@, frame as nat, name@, value@);
        let ghost b = (name@, value@);
        let mut fr = Frame { bindings: Vec::new(), parent: None };
        std::mem::swap(&mut fr, &mut self.frames[frame]);
        let ghost old_fr = fr;
        assert(frame_view(old_fr) == old(self)@[frame as int]);
        fr.bindings.push((name, value));
        assert(frame_view(fr).bindings =~= frame_view(old_fr).bindings.push(b));
        assert(frame_view(fr) =~~= target[frame as int]);
        std::mem::swap(&mut fr, &mut self.frames[frame]);
        assert(self@ =~~= target);
    }

    /// The value of `name` seen from frame `frame`: its latest binding there,
    /// else its value seen from the parent frame.
    pub fn lookup(&self, frame: usize, name: &str) -> (res: Option<Value>)
        requires
            self.wf(),
            frame < self@.len(),
        ensures
            match res {
                Some(v) => spec_lookup(self@, frame as nat, name@) == Some(v@),
                None => spec_lookup(self@, frame as nat, name@) is None,
            },
    {
        let ghost h = self@;
        let mut cur = frame;
        loop
            invariant
                h == self@,
                heap_wf(h),
                cur < h.len(),
                spec_lookup(h, cur as nat, name@) == spec_lookup(h, frame as nat, name@),
            decreases cur,
        {
            let fr = &self.frames[cur];
            let ghost bs = h[cur as int].bindings;
            assert(bs == fr.bindings@.map_values(|b: (String, Value)| binding_view(b)));
            let mut j = fr.bindings.len();
            assert(bs.take(j as int) =~= bs);
            while j > 0
                invariant
                    j <= fr.bindings@.len(),
                    bs == fr.bindings@.map_values(|b: (String, Value)| binding_view(b)),
                    h == self@,
                    cur < h.len(),
                    bs == h[cur as int].bindings,
                    spec_lookup(h, cur as nat, name@) == spec_lookup(h, frame as nat, name@),
                    assoc_find(bs.take(j as int), name@) == assoc_find(bs, name@),
                decreases j,
            {
                j = j - 1;
                let b = &fr.bindings[j];
                assert(bs.take(j + 1).drop_last() =~= bs.take(j as int));
                assert(bs.take(j + 1).last() == binding_view(*b));
                if str_eq(b.0.as_str(), name) {
                    let v = b.1.clone();
                    assert(assoc_find(bs.take(j + 1), name@) == Some(v@));
                    assert(assoc_find(h[cur as int].bindings, name@) == Some(v@));
                    return Some(v);
                }
            }
            assert(bs.take(0) =~= Seq::<(Seq<char>, SpecValue)>::empty());
            match fr.parent {
                Some(p) => {
                    assert(h[cur as int].parent == Some(p as nat));
                    cur = p;
                },
                None => {
                    return None;
                },
            }
        }
    }
}

/// The models of a sequence of borrowed S-expressions.
pub open spec fn refs_view(es: Seq<&SExpr>) -> Seq<SpecSExpr> {
    es.map_values(|e: &SExpr| e@)
}

/// How an evaluation under a nesting budget stops short of a value.
enum Halt {
    /// The evaluation failed with this error.
    Failed(EvalError),
    /// Evaluation nested deeper than the budget allows.
    OutOfDepth,
}

/// The result of a budgeted evaluation step matches the model's outcome.
spec fn halt_matches(out: SpecOutcome, h: Heap, r: Result<Value, Halt>) -> bool {
    match r {
        Ok(v) => out == Some((h, Ok::<SpecValue, SpecEvalError>(v@))),
        Err(Halt::Failed(e)) => out == Some((h, Err::<SpecValue, SpecEvalError>(e@))),
        Err(Halt::OutOfDepth) => out is None,
    }
}

/// The result of evaluating arguments under a budget matches the model.
spec fn args_halt_matches(
    out: Option<(Heap, Result<Seq<SpecValue>, SpecEvalError>)>,
    h: Heap,
    r: Result<Vec<Value>, Halt>,
) -> bool {
    match r {
        Ok(vs) => out == Some((h, Ok::<Seq<SpecValue>, SpecEvalError>(values_view(vs@)))),
        Err(Halt::Failed(e)) => out == Some((h, Err::<Seq<SpecValue>, SpecEvalError>(e@))),
        Err(Halt::OutOfDepth) => out is None,
    }
}

fn lift<T>(r: Result<T, EvalError>) -> (res: Result<T, Halt>)
    ensures
        match r {
            Ok(v) => res matches Ok(w) && w == v,
            Err(e) => res matches Err(Halt::Failed(f)) && f == e,
        },
{
    match r {
        Ok(v) => Ok(v),
        Err(e) => Err(Halt::Failed(e)),
    }
}

/// The deepest nesting of evaluations that `eval` allows.
pub const MAX_DEPTH: u64 = 0xffff_ffff_ffff_ffff;

/// Evaluates `expr` in frame `frame` of the store `env`, with evaluations
/// nested at most `depth` deep.  Gives `None` where that does not suffice;
/// otherwise the result, as `eval` would give it.  Definitions made during
/// the evaluation stay in the store, also where it fails or stops.
pub fn eval_with_budget(expr: &SExpr, env: &mut Environment, frame: usize, depth: u64) -> (res: Option<Result<Value, EvalError>>)
    requires
        old(env).wf(),
        frame < old(env)@.len(),
    ensures
        match spec_eval(depth as nat, expr@, old(env)@, frame as nat) {
            Some((h1, r)) => final(env)@ == h1 && (res matches Some(x) && eval_result_view(x) == r),
            None => res is None,
        },
        final(env).wf(),
        old(env)@.len() <= final(env)@.len(),
        res matches Some(Ok(v)) ==> value_wf(v@, final(env)@.len()),
{
    match eval_in(expr, env, frame, depth) {
        Ok(v) => Some(Ok(v)),
        Err(Halt::Failed(e)) => Some(Err(e)),
        Err(Halt::OutOfDepth) => None,
    }
}

/// Evaluates `expr` in frame `frame` of the store `env`.  Definitions made
/// during the evaluation stay in the store, also where it fails later.  The
/// evaluation must come to an end with evaluations nested less than
/// `MAX_DEPTH` deep, beyond any machine's stack.
pub fn eval(expr: &SExpr, env: &mut Environment, frame: usize) -> (res: Result<Value, EvalError>)
    requires
        old(env).wf(),
        frame < old(env)@.len(),
        eval_ends_within(expr@, old(env)@, frame as nat, MAX_DEPTH as nat),
    ensures
        eval_terminates(expr@, old(env)@, frame as nat),
        (final(env)@, eval_result_view(res)) == eval_outcome(expr@, old(env)@, frame as nat),
        final(env).wf(),
        old(env)@.len() <= final(env)@.len(),
        res matches Ok(v) ==> value_wf(v@, final(env)@.len()),
{
    proof {
        lemma_outcome_any_fuel(MAX_DEPTH as nat, expr@, env@, frame as nat);
    }
    match eval_in(expr, env, frame, MAX_DEPTH) {
        Ok(v) => Ok(v),
        Err(Halt::Failed(e)) => Err(e),
        Err(Halt::OutOfDepth) => {
            // never taken: the budget suffices by the precondition
            Err(EvalError::InvalidSpecialForm)
        },
    }
}

fn eval_in(expr: &SExpr, env: &mut Environment, frame: usize, fuel: u64) -> (res: Result<Value, Halt>)
    requires
        old(env).wf(),
        frame < old(env)@.len(),
    ensures
        halt_matches(spec_eval(fuel as nat, expr@, old(env)@, frame as nat), final(env)@, res),
        final(env).wf(),
        old(env)@.len() <= final(env)@.len(),
        res matches Ok(v) ==> value_wf(v@, final(env)@.len()),
    decreases fuel, 0nat, 0nat,
{
    if fuel == 0 {
        return Err(Halt::OutOfDepth);
    }
    let k = fuel - 1;
    match expr {
        SExpr::Nil => Ok(Value::Nil),
        SExpr::Atom(name) => {
            proof {
                reveal_strlit("T");
            }
            assert("T"@ =~= t_name());
            if str_eq(name.as_str(), "T") {
                return Ok(make_truth());
            }
            proof {
                lemma_lookup_wf(env@, frame as nat, name@);
            }
            match env.lookup(frame, name.as_str()) {
                Some(v) => Ok(v),
                None => Err(Halt::Failed(EvalError::UndefinedSymbol(name.clone()))),
            }
        },
        SExpr::Cons(operator, arguments) => {
            assert(expr@ == SpecSExpr::Cons(Box::new((**operator)@), Box::new((**arguments)@)));
            if let SExpr::Atom(op_name) = &**operator {
                if is_special_form_name(op_name.as_str()) {
                    return eval_special_form(op_name.as_str(), arguments, env, frame, k);
                }
            }
            eval_application(operator, arguments, env, frame, k)
        },
    }
}

fn is_special_form_name(name: &str) -> (r: bool)
    ensures
        r == is_special_form(name@),
{
    proof {
        reveal_strlit("quote");
        reveal_strlit("cond");
        reveal_strlit("lambda");
        reveal_strlit("define");
    }
    assert("quote"@ =~= quote_name());
    assert("cond"@ =~= cond_name());
    assert("lambda"@ =~= lambda_name());
    assert("define"@ =~= define_name());
    str_eq(name, "quote") || str_eq(name, "cond") || str_eq(name, "lambda") || str_eq(name, "define")
}

fn eval_special_form(name: &str, args: &SExpr, env: &mut Environment, frame: usize, fuel: u64) -> (res: Result<Value, Halt>)
    requires
        old(env).wf(),
        frame < old(env)@.len(),
    ensures
        halt_matches(spec_eval_special(fuel as nat, name@, args@, old(env)@, frame as nat), final(env)@, res),
        final(env).wf(),
        old(env)@.len() <= final(env)@.len(),
        res matches Ok(v) ==> value_wf(v@, final(env)@.len()),
    decreases fuel, 3nat, 0nat,
{
    proof {
        reveal_strlit("quote");
        reveal_strlit("cond");
        reveal_strlit("lambda");
        reveal_strlit("define");
    }
    assert("quote"@ =~= quote_name());
    assert("cond"@ =~= cond_name());
    assert("lambda"@ =~= lambda_name());
    assert("define"@ =~= define_name());
    if str_eq(name, "quote") {
        lift(eval_quote(args))
    } else if str_eq(name, "cond") {
        eval_cond(args, env, frame, fuel)
    } else if str_eq(name, "lambda") {
        lift(eval_lambda(args, frame))
    } else if str_eq(name, "define") {
        eval_define(args, env, frame, fuel)
    } else {
        Err(Halt::Failed(EvalError::InvalidSpecialForm))
    }
}

fn eval_quote(args: &SExpr) -> (res: Result<Value, EvalError>)
    ensures
        eval_result_view(res) == spec_quote(args@),
        res matches Ok(v) ==> forall|n: nat| value_wf(v@, n),
{
    let list = extract_list(args)?;
    if list.len() != 1 {
        return Err(EvalError::InvalidArgumentCount);
    }
    let v = quote_to_value(list[0]);
    assert forall|n: nat| value_wf(v@, n) by {
        lemma_quote_wf(list@[0]@, n);
    }
    Ok(v)
}

fn eval_cond(clauses: &SExpr, env: &mut Environment, frame: usize, fuel: u64) -> (res: Result<Value, Halt>)
    requires
        old(env).wf(),
        frame < old(env)@.len(),
    ensures
        halt_matches(spec_eval_special(fuel as nat, cond_name(), clauses@, old(env)@, frame as nat), final(env)@, res),
        final(env).wf(),
        old(env)@.len() <= final(env)@.len(),
        res matches Ok(v) ==> value_wf(v@, final(env)@.len()),
    decreases fuel, 2nat, 0nat,
{
    assert(cond_name() != quote_name());
    let ghost h0 = env@;
    let list = lift(extract_list(clauses))?;
    let ghost cl = refs_view(list@);
    let ghost target = spec_eval_clauses(fuel as nat, cl, 0, h0, frame as nat);
    let mut i: usize = 0;
    while i < list.len()
        invariant
            env.wf(),
            frame < env@.len(),
            h0 == old(env)@,
            h0.len() <= env@.len(),
            cl == refs_view(list@),
            target == spec_eval_clauses(fuel as nat, cl, i as nat, env@, frame as nat),
            target == spec_eval_special(fuel as nat, cond_name(), clauses@, h0, frame as nat),
        decreases list.len() - i,
    {
        assert(cl[i as int] == list@[i as int]@);
        let clause_list = lift(extract_list(list[i]))?;
        if clause_list.len() == 0 {
            i = i + 1;
        } else {
            let ghost c = refs_view(clause_list@);
            assert(c[0] == clause_list@[0]@);
            let cond_val = eval_in(clause_list[0], env, frame, fuel)?;
            if let Value::Nil = cond_val {
                i = i + 1;
            } else if clause_list.len() > 1 {
                let mut res = Value::Nil;
                let mut j: usize = 1;
                while j < clause_list.len()
                    invariant
                        env.wf(),
                        frame < env@.len(),
                        h0 == old(env)@,
                        h0.len() <= env@.len(),
                        c == refs_view(clause_list@),
                        1 <= j <= clause_list@.len(),
                        target == spec_eval_sequence(fuel as nat, c, j as nat, env@, frame as nat, res@),
                        target == spec_eval_special(fuel as nat, cond_name(), clauses@, h0, frame as nat),
                        value_wf(res@, env@.len()),
                    decreases clause_list.len() - j,
                {
                    assert(c[j as int] == clause_list@[j as int]@);
                    res = eval_in(clause_list[j], env, frame, fuel)?;
                    j = j + 1;
                }
                return Ok(res);
            } else {
                return Ok(cond_val);
            }
        }
    }
    Ok(Value::Nil)
}

#[verifier::loop_isolation(false)]
fn eval_lambda(args: &SExpr, frame: usize) -> (res: Result<Value, EvalError>)
    ensures
        eval_result_view(res) == spec_lambda(args@, frame as nat),
{
    let list = extract_list(args)?;
    if list.len() != 2 {
        return Err(EvalError::InvalidLambda);
    }
    assert(refs_view(list@)[0] == list@[0]@);
    assert(refs_view(list@)[1] == list@[1]@);
    let ps = extract_list(list[0])?;
    let ghost pv = refs_view(ps@);
    let mut params: Vec<String> = Vec::new();
    let mut i: usize = 0;
    while i < ps.len()
        invariant
            pv == refs_view(ps@),
            i <= ps@.len(),
            params@.len() == i,
            forall|j: int| 0 <= j < i ==> (#[trigger] pv[j]) is Atom && params@[j]@ == atom_name(pv[j]),
        decreases ps.len() - i,
    {
        assert(pv[i as int] == ps@[i as int]@);
        match ps[i] {
            SExpr::Atom(name) => {
                params.push(name.clone());
            },
            _ => {
                assert(!(pv[i as int] is Atom));
                return Err(EvalError::InvalidLambda);
            },
        }
        i = i + 1;
    }
    assert(names_view(params@) =~= pv.map_values(|p: SpecSExpr| atom_name(p)));
    let body = list[1].clone();
    Ok(Value::Lambda(Rc::new(Closure { params, body, env: frame })))
}

fn eval_define(args: &SExpr, env: &mut Environment, frame: usize, fuel: u64) -> (res: Result<Value, Halt>)
    requires
        old(env).wf(),
        frame < old(env)@.len(),
    ensures
        halt_matches(spec_eval_special(fuel as nat, define_name(), args@, old(env)@, frame as nat), final(env)@, res),
        final(env).wf(),
        old(env)@.len() <= final(env)@.len(),
        res matches Ok(v) ==> value_wf(v@, final(env)@.len()),
    decreases fuel, 2nat, 0nat,
{
    assert(define_name() != quote_name());
    assert(define_name() != cond_name());
    assert(define_name() != lambda_name());
    let list = lift(extract_list(args))?;
    if list.len() != 2 {
        return Err(Halt::Failed(EvalError::InvalidArgumentCount));
    }
    let ghost l = refs_view(list@);
    assert(l[0] == list@[0]@);
    assert(l[1] == list@[1]@);
    let name = match list[0] {
        SExpr::Atom(n) => n.clone(),
        _ => return Err(Halt::Failed(EvalError::InvalidArgumentType)),
    };
    let value = eval_in(list[1], env, frame, fuel)?;
    env.define(frame, name, value.clone());
    Ok(value)
}

fn eval_application(
    operator: &SExpr,
    arguments: &SExpr,
    env: &mut Environment,
    frame: usize,
    fuel: u64,
) -> (res: Result<Value, Halt>)
    requires
        old(env).wf(),
        frame < old(env)@.len(),
    ensures
        halt_matches(spec_eval_application(fuel as nat, operator@, arguments@, old(env)@, frame as nat), final(env)@, res),
        final(env).wf(),
        old(env)@.len() <= final(env)@.len(),
        res matches Ok(v) ==> value_wf(v@, final(env)@.len()),
    decreases fuel, 3nat, 0nat,
{
    let function = eval_in(operator, env, frame, fuel)?;
    let ghost h1 = env@;
    let args_evaluated = eval_arguments(arguments, env, frame, fuel)?;
    proof {
        lemma_value_wf_mono(function@, h1.len(), env@.len());
    }
    apply(function, args_evaluated, env, fuel)
}

fn eval_arguments(
    args: &SExpr,
    env: &mut Environment,
    frame: usize,
    fuel: u64,
) -> (res: Result<Vec<Value>, Halt>)
    requires
        old(env).wf(),
        frame < old(env)@.len(),
    ensures
        args_halt_matches(spec_eval_arguments(fuel as nat, args@, old(env)@, frame as nat), final(env)@, res),
        final(env).wf(),
        old(env)@.len() <= final(env)@.len(),
        res matches Ok(vs) ==> forall|i: int| 0 <= i < vs@.len() ==> value_wf(#[trigger] vs@[i]@, final(env)@.len()),
    decreases fuel, 2nat, 0nat,
{
    let ghost h0 = env@;
    let list = lift(extract_list(args))?;
    let ghost es = refs_view(list@);
    let ghost target = spec_eval_args(fuel as nat, es, 0, h0, frame as nat, seq![]);
    let mut evaluated: Vec<Value> = Vec::new();
    assert(values_view(evaluated@) =~= seq![]);
    let mut i: usize = 0;
    while i < list.len()
        invariant
            env.wf(),
            frame < env@.len(),
            h0 == old(env)@,
            h0.len() <= env@.len(),
            es == refs_view(list@),
            i <= list@.len(),
            target == spec_eval_args(fuel as nat, es, i as nat, env@, frame as nat, values_view(evaluated@)),
            target == spec_eval_arguments(fuel as nat, args@, h0, frame as nat),
            forall|j: int| 0 <= j < evaluated@.len() ==> value_wf(#[trigger] evaluated@[j]@, env@.len()),
        decreases list.len() - i,
    {
        assert(es[i as int] == list@[i as int]@);
        let ghost before = env@.len();
        let v = eval_in(list[i], env, frame, fuel)?;
        proof {
            assert forall|j: int| 0 <= j < evaluated@.len() implies value_wf(#[trigger] evaluated@[j]@, env@.len()) by {
                lemma_value_wf_mono(evaluated@[j]@, before, env@.len());
            }
        }
        let ghost vv = v@;
        let ghost prev = evaluated@;
        evaluated.push(v);
        assert(values_view(evaluated@) =~= values_view(prev).push(vv));
        i = i + 1;
    }
    Ok(evaluated)
}

fn apply(function: Value, arguments: Vec<Value>, env: &mut Environment, fuel: u64) -> (res: Result<Value, Halt>)
    requires
        old(env).wf(),
        value_wf(function@, old(env)@.len()),
        forall|i: int| 0 <= i < arguments@.len() ==> value_wf(#[trigger] arguments@[i]@, old(env)@.len()),
    ensures
        halt_matches(spec_apply(fuel as nat, function@, values_view(arguments@), old(env)@), final(env)@, res),
        final(env).wf(),
        old(env)@.len() <= final(env)@.len(),
        res matches Ok(v) ==> value_wf(v@, final(env)@.len()),
    decreases fuel, 2nat, 0nat,
{
    match function {
        Value::Builtin(builtin) => {
            proof {
                let va = values_view(arguments@);
                assert forall|i: int| 0 <= i < va.len() implies value_wf(#[trigger] va[i], env@.len()) by {
                    assert(va[i] == arguments@[i]@);
                }
                lemma_call_wf(builtin, va, env@.len());
            }
            lift(builtin.call(arguments.as_slice()))
        },
        Value::Lambda(closure) => apply_lambda(&*closure, arguments, env, fuel),
        _ => Err(Halt::Failed(EvalError::NotCallable)),
    }
}

fn apply_lambda(closure: &Closure, arguments: Vec<Value>, env: &mut Environment, fuel: u64) -> (res: Result<Value, Halt>)
    requires
        old(env).wf(),
        closure.env < old(env)@.len(),
        forall|i: int| 0 <= i < arguments@.len() ==> value_wf(#[trigger] arguments@[i]@, old(env)@.len()),
    ensures
        halt_matches(spec_apply(fuel as nat, SpecValue::Lambda(closure@), values_view(arguments@), old(env)@), final(env)@, res),
        final(env).wf(),
        old(env)@.len() <= final(env)@.len(),
        res matches Ok(v) ==> value_wf(v@, final(env)@.len()),
    decreases fuel, 1nat, 0nat,
{
    if closure.params.len() != arguments.len() {
        return Err(Halt::Failed(EvalError::InvalidArgumentCount));
    }
    let ghost h0 = env@;
    let ghost names = names_view(closure.params@);
    let ghost vals = values_view(arguments@);
    let new_frame = env.with_parent(closure.env);
    let n = arguments.len();
    let mut i: usize = 0;
    while i < n
        invariant
            n == arguments@.len(),
            n == closure.params@.len(),
            names == names_view(closure.params@),
            vals == values_view(arguments@),
            i <= n,
            new_frame == h0.len(),
            env.wf(),
            env@.len() == h0.len() + 1,
            env@.subrange(0, h0.len() as int) == h0,
            env@[new_frame as int] == (SpecFrame {
                bindings: bind_params(names.take(i as int), vals.take(i as int)),
                parent: Some(closure.env as nat),
            }),
            forall|j: int| 0 <= j < arguments@.len() ==> value_wf(#[trigger] arguments@[j]@, h0.len()),
        decreases n - i,
    {
        let ghost before = env@;
        proof {
            lemma_value_wf_mono(arguments@[i as int]@, h0.len(), env@.len());
        }
        env.define(new_frame, closure.params[i].clone(), arguments[i].clone());
        proof {
            assert(env@.subrange(0, h0.len() as int) =~= before.subrange(0, h0.len() as int));
            assert(bind_params(names.take(i + 1), vals.take(i + 1)) =~= bind_params(names.take(i as int), vals.take(i as int)).push((names[i as int], vals[i as int])));
            assert(env@[new_frame as int] =~~= SpecFrame {
                bindings: bind_params(names.take(i + 1), vals.take(i + 1)),
                parent: Some(closure.env as nat),
            });
        }
        i = i + 1;
    }
    proof {
        assert(names.take(n as int) =~= names);
        assert(vals.take(n as int) =~= vals);
        assert(env@ =~~= h0.push(SpecFrame { bindings: bind_params(names, vals), parent: Some(closure.env as nat) }));
    }
    eval_in(&closure.body, env, new_frame, fuel)
}

/// An S-expression read as data: atoms stay atoms (`T` too), `nil` stays
/// `nil`, pairs stay pairs.
pub fn quote_to_value(expr: &SExpr) -> (res: Value)
    ensures
        res@ == spec_quote_to_value(expr@),
    decreases expr,
{
    match expr {
        SExpr::Nil => Value::Nil,
        SExpr::Atom(name) => Value::Atom(name.clone()),
        SExpr::Cons(car, cdr) => {
            let a = quote_to_value(car);
            let d = quote_to_value(cdr);
            Value::Cons(Rc::new(a), Rc::new(d))
        },
    }
}

/// The number of constructors in an S-expression.
pub open spec fn sexpr_size(e: SpecSExpr) -> nat
    decreases e,
{
    match e {
        SpecSExpr::Cons(a, d) => 1 + sexpr_size(*a) + sexpr_size(*d),
        _ => 1,
    }
}

fn extract_list(expr: &SExpr) -> (res: Result<Vec<&SExpr>, EvalError>)
    ensures
        match spec_extract_list(expr@) {
            Some(l) => res matches Ok(v) && refs_view(v@) == l,
            None => res matches Err(e) && e == EvalError::InvalidArgumentType,
        },
{
    let mut elements: Vec<&SExpr> = Vec::new();
    let mut current = expr;
    loop
        invariant_except_break
            spec_extract_list(expr@) == match spec_extract_list(current@) {
                Some(rest) => Some(refs_view(elements@) + rest),
                None => None::<Seq<SpecSExpr>>,
            },
        ensures
            spec_extract_list(expr@) == Some(refs_view(elements@)),
        decreases sexpr_size(current@),
    {
        match current {
            SExpr::Nil => {
                assert(refs_view(elements@) + seq![] =~= refs_view(elements@));
                break;
            },
            SExpr::Cons(car, cdr) => {
                let ghost before = refs_view(elements@);
                elements.push(&**car);
                assert(refs_view(elements@) =~= before.push((**car)@));
                assert(before + (seq![(**car)@] + match spec_extract_list((**cdr)@) { Some(r) => r, None => seq![] }) =~= refs_view(elements@) + match spec_extract_list((**cdr)@) { Some(r) => r, None => seq![] });
                current = &**cdr;
            },
            SExpr::Atom(_) => return Err(EvalError::InvalidArgumentType),
        }
    }
    Ok(elements)
}

} // verus!
