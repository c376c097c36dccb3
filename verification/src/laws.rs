//! Properties of the evaluation model that hold across calls and states.
use crate::parser::{quote_name, quoted, SpecSExpr};
use crate::semantics::{
    assoc_find, bind_params, define_name, eval_outcome, eval_terminates, heap_wf, is_special_form,
    lemma_call_wf, lemma_define_wf, lemma_lookup_wf, lemma_quote_wf, lemma_value_wf_mono,
    spec_quote_to_value, spec_apply, spec_call, spec_define, spec_eval, spec_eval_application,
    spec_eval_args, spec_eval_arguments, spec_eval_clauses, spec_eval_sequence, spec_eval_special,
    spec_extract_list, spec_lookup, spec_with_parent, t_name, truth, value_wf, BuiltinFunction,
    Heap, SpecClosure, SpecEvalError, SpecFrame, SpecOutcome, SpecValue,
};
use crate::lexer::{
    is_delimiter, lemma_symbol_len_bound, spec_is_whitespace, spec_tokenize, symbol_len, SpecToken,
};
use crate::parser::{nil_name, spec_parse, spec_parse_expr, spec_parse_list};
use crate::printer::spec_format;
use vstd::prelude::*;

verus! {

/// What an evaluation ends with keeps the store well-formed: the store only
/// grows, and the value refers to frames of it.
pub open spec fn keeps_wf(h: Heap, out: SpecOutcome) -> bool {
    match out {
        None => true,
        Some((h1, r)) => heap_wf(h1) && h.len() <= h1.len() && (r matches Ok(v) ==> value_wf(
            v,
            h1.len(),
        )),
    }
}

/// Evaluation keeps the store well-formed and never removes a frame; the
/// value it returns refers only to frames of the store it leaves.
pub proof fn lemma_eval_keeps_wf(fuel: nat, e: SpecSExpr, h: Heap, f: nat)
    requires
        heap_wf(h),
        f < h.len(),
    ensures
        keeps_wf(h, spec_eval(fuel, e, h, f)),
    decreases fuel, 0nat, 0nat,
{
    if fuel > 0 {
        let k = (fuel - 1) as nat;
        match e {
            SpecSExpr::Nil => {},
            SpecSExpr::Atom(name) => {
                lemma_lookup_wf(h, f, name);
            },
            SpecSExpr::Cons(op, args) => match *op {
                SpecSExpr::Atom(n) => if is_special_form(n) {
                    lemma_special_keeps_wf(k, n, *args, h, f);
                } else {
                    lemma_application_keeps_wf(k, *op, *args, h, f);
                },
                _ => lemma_application_keeps_wf(k, *op, *args, h, f),
            },
        }
    }
}

proof fn lemma_special_keeps_wf(fuel: nat, name: Seq<char>, args: SpecSExpr, h: Heap, f: nat)
    requires
        heap_wf(h),
        f < h.len(),
    ensures
        keeps_wf(h, spec_eval_special(fuel, name, args, h, f)),
    decreases fuel, 3nat, 0nat,
{
    match spec_extract_list(args) {
        None => {},
        Some(l) => {
            if name == quote_name() {
                if l.len() == 1 {
                    lemma_quote_wf(l[0], h.len());
                }
            } else if name == crate::semantics::cond_name() {
                lemma_clauses_keeps_wf(fuel, l, 0, h, f);
            } else if name == crate::semantics::lambda_name() {
            } else if name == define_name() {
                if l.len() == 2 {
                    if let SpecSExpr::Atom(n) = l[0] {
                        lemma_eval_keeps_wf(fuel, l[1], h, f);
                        if let Some((h1, Ok(v))) = spec_eval(fuel, l[1], h, f) {
                            lemma_define_wf(h1, f, n, v);
                        }
                    }
                }
            }
        },
    }
}

proof fn lemma_clauses_keeps_wf(fuel: nat, cl: Seq<SpecSExpr>, i: nat, h: Heap, f: nat)
    requires
        heap_wf(h),
        f < h.len(),
    ensures
        keeps_wf(h, spec_eval_clauses(fuel, cl, i, h, f)),
    decreases fuel, 2nat, cl.len() - i,
{
    if i < cl.len() {
        if let Some(c) = spec_extract_list(cl[i as int]) {
            if c.len() == 0 {
                lemma_clauses_keeps_wf(fuel, cl, i + 1, h, f);
            } else {
                lemma_eval_keeps_wf(fuel, c[0], h, f);
                if let Some((h1, Ok(v))) = spec_eval(fuel, c[0], h, f) {
                    if !(v is Nil) {
                        if c.len() > 1 {
                            lemma_sequence_keeps_wf(fuel, c, 1, h1, f, SpecValue::Nil);
                        }
                    } else {
                        lemma_clauses_keeps_wf(fuel, cl, i + 1, h1, f);
                    }
                }
            }
        }
    }
}

proof fn lemma_sequence_keeps_wf(fuel: nat, es: Seq<SpecSExpr>, j: nat, h: Heap, f: nat, last: SpecValue)
    requires
        heap_wf(h),
        f < h.len(),
        value_wf(last, h.len()),
    ensures
        keeps_wf(h, spec_eval_sequence(fuel, es, j, h, f, last)),
    decreases fuel, 1nat, es.len() - j,
{
    if j < es.len() {
        lemma_eval_keeps_wf(fuel, es[j as int], h, f);
        if let Some((h1, Ok(v))) = spec_eval(fuel, es[j as int], h, f) {
            lemma_sequence_keeps_wf(fuel, es, j + 1, h1, f, v);
        }
    }
}

/// Every value of `vs` refers to the first `n` frames.
pub open spec fn values_wf(vs: Seq<SpecValue>, n: nat) -> bool {
    forall|i: int| 0 <= i < vs.len() ==> value_wf(#[trigger] vs[i], n)
}

proof fn lemma_values_wf_mono(vs: Seq<SpecValue>, n: nat, m: nat)
    requires
        values_wf(vs, n),
        n <= m,
    ensures
        values_wf(vs, m),
{
    assert forall|i: int| 0 <= i < vs.len() implies value_wf(#[trigger] vs[i], m) by {
        lemma_value_wf_mono(vs[i], n, m);
    }
}

proof fn lemma_args_keeps_wf(fuel: nat, es: Seq<SpecSExpr>, i: nat, h: Heap, f: nat, acc: Seq<SpecValue>)
    requires
        heap_wf(h),
        f < h.len(),
        values_wf(acc, h.len()),
    ensures
        match spec_eval_args(fuel, es, i, h, f, acc) {
            None => true,
            Some((h1, r)) => heap_wf(h1) && h.len() <= h1.len() && (r matches Ok(vs) ==> values_wf(vs, h1.len())),
        },
    decreases fuel, 1nat, es.len() - i,
{
    if i < es.len() {
        lemma_eval_keeps_wf(fuel, es[i as int], h, f);
        if let Some((h1, Ok(v))) = spec_eval(fuel, es[i as int], h, f) {
            lemma_values_wf_mono(acc, h.len(), h1.len());
            assert(values_wf(acc.push(v), h1.len())) by {
                assert forall|j: int| 0 <= j < acc.push(v).len() implies value_wf(#[trigger] acc.push(v)[j], h1.len()) by {
                    if j < acc.len() {
                        assert(acc.push(v)[j] == acc[j]);
                    }
                }
            }
            lemma_args_keeps_wf(fuel, es, i + 1, h1, f, acc.push(v));
        }
    }
}

proof fn lemma_apply_keeps_wf(fuel: nat, fv: SpecValue, args: Seq<SpecValue>, h: Heap)
    requires
        heap_wf(h),
        value_wf(fv, h.len()),
        values_wf(args, h.len()),
    ensures
        keeps_wf(h, spec_apply(fuel, fv, args, h)),
    decreases fuel, 2nat, 0nat,
{
    match fv {
        SpecValue::Builtin(b) => {
            lemma_call_wf(b, args, h.len());
        },
        SpecValue::Lambda(c) => {
            if c.params.len() == args.len() {
                let fr = SpecFrame { bindings: bind_params(c.params, args), parent: Some(c.env) };
                let h1 = h.push(fr);
                assert forall|i: int| 0 <= i < h1.len() implies (#[trigger] h1[i].parent matches Some(
                    p,
                ) ==> p < i) by {
                    if i < h.len() {
                        assert(h1[i] == h[i]);
                    }
                }
                assert forall|i: int, j: int|
                    0 <= i < h1.len() && 0 <= j < h1[i].bindings.len() implies value_wf(
                    #[trigger] h1[i].bindings[j].1,
                    h1.len(),
                ) by {
                    if i < h.len() {
                        assert(h1[i] == h[i]);
                        lemma_value_wf_mono(h[i].bindings[j].1, h.len(), h1.len());
                    } else {
                        assert(h1[i].bindings[j].1 == args[j]);
                        lemma_value_wf_mono(args[j], h.len(), h1.len());
                    }
                }
                lemma_eval_keeps_wf(fuel, c.body, h1, h.len());
            }
        },
        _ => {},
    }
}

proof fn lemma_arguments_keeps_wf(fuel: nat, args: SpecSExpr, h: Heap, f: nat)
    requires
        heap_wf(h),
        f < h.len(),
    ensures
        match spec_eval_arguments(fuel, args, h, f) {
            None => true,
            Some((h1, r)) => heap_wf(h1) && h.len() <= h1.len() && (r matches Ok(vs) ==> values_wf(vs, h1.len())),
        },
    decreases fuel, 2nat, 0nat,
{
    if let Some(es) = spec_extract_list(args) {
        lemma_args_keeps_wf(fuel, es, 0, h, f, seq![]);
    }
}

proof fn lemma_application_keeps_wf(fuel: nat, op: SpecSExpr, args: SpecSExpr, h: Heap, f: nat)
    requires
        heap_wf(h),
        f < h.len(),
    ensures
        keeps_wf(h, spec_eval_application(fuel, op, args, h, f)),
    decreases fuel, 3nat, 0nat,
{
    lemma_eval_keeps_wf(fuel, op, h, f);
    if let Some((h1, Ok(fv))) = spec_eval(fuel, op, h, f) {
        lemma_arguments_keeps_wf(fuel, args, h1, f);
        if let Some((h2, Ok(vs))) = spec_eval_arguments(fuel, args, h1, f) {
            lemma_value_wf_mono(fv, h1.len(), h2.len());
            lemma_apply_keeps_wf(fuel, fv, vs, h2);
        }
    }
}

/// More fuel does not change an evaluation that already came to an end.
pub proof fn lemma_eval_fuel_mono(f1: nat, f2: nat, e: SpecSExpr, h: Heap, f: nat)
    requires
        f1 <= f2,
        spec_eval(f1, e, h, f) is Some,
    ensures
        spec_eval(f2, e, h, f) == spec_eval(f1, e, h, f),
    decreases f1, 0nat, 0nat,
{
    let k1 = (f1 - 1) as nat;
    let k2 = (f2 - 1) as nat;
    match e {
        SpecSExpr::Cons(op, args) => match *op {
            SpecSExpr::Atom(n) => if is_special_form(n) {
                lemma_special_fuel_mono(k1, k2, n, *args, h, f);
            } else {
                lemma_application_fuel_mono(k1, k2, *op, *args, h, f);
            },
            _ => lemma_application_fuel_mono(k1, k2, *op, *args, h, f),
        },
        _ => {},
    }
}

proof fn lemma_special_fuel_mono(f1: nat, f2: nat, name: Seq<char>, args: SpecSExpr, h: Heap, f: nat)
    requires
        f1 <= f2,
        spec_eval_special(f1, name, args, h, f) is Some,
    ensures
        spec_eval_special(f2, name, args, h, f) == spec_eval_special(f1, name, args, h, f),
    decreases f1, 3nat, 0nat,
{
    if let Some(l) = spec_extract_list(args) {
        if name == quote_name() {
        } else if name == crate::semantics::cond_name() {
            lemma_clauses_fuel_mono(f1, f2, l, 0, h, f);
        } else if name == crate::semantics::lambda_name() {
        } else if name == define_name() {
            if l.len() == 2 {
                if let SpecSExpr::Atom(n) = l[0] {
                    lemma_eval_fuel_mono(f1, f2, l[1], h, f);
                }
            }
        }
    }
}

proof fn lemma_clauses_fuel_mono(f1: nat, f2: nat, cl: Seq<SpecSExpr>, i: nat, h: Heap, f: nat)
    requires
        f1 <= f2,
        spec_eval_clauses(f1, cl, i, h, f) is Some,
    ensures
        spec_eval_clauses(f2, cl, i, h, f) == spec_eval_clauses(f1, cl, i, h, f),
    decreases f1, 2nat, cl.len() - i,
{
    if i < cl.len() {
        if let Some(c) = spec_extract_list(cl[i as int]) {
            if c.len() == 0 {
                lemma_clauses_fuel_mono(f1, f2, cl, i + 1, h, f);
            } else {
                lemma_eval_fuel_mono(f1, f2, c[0], h, f);
                if let Some((h1, Ok(v))) = spec_eval(f1, c[0], h, f) {
                    if !(v is Nil) {
                        if c.len() > 1 {
                            lemma_sequence_fuel_mono(f1, f2, c, 1, h1, f, SpecValue::Nil);
                        }
                    } else {
                        lemma_clauses_fuel_mono(f1, f2, cl, i + 1, h1, f);
                    }
                }
            }
        }
    }
}

proof fn lemma_sequence_fuel_mono(
    f1: nat,
    f2: nat,
    es: Seq<SpecSExpr>,
    j: nat,
    h: Heap,
    f: nat,
    last: SpecValue,
)
    requires
        f1 <= f2,
        spec_eval_sequence(f1, es, j, h, f, last) is Some,
    ensures
        spec_eval_sequence(f2, es, j, h, f, last) == spec_eval_sequence(f1, es, j, h, f, last),
    decreases f1, 1nat, es.len() - j,
{
    if j < es.len() {
        lemma_eval_fuel_mono(f1, f2, es[j as int], h, f);
        if let Some((h1, Ok(v))) = spec_eval(f1, es[j as int], h, f) {
            lemma_sequence_fuel_mono(f1, f2, es, j + 1, h1, f, v);
        }
    }
}

proof fn lemma_args_fuel_mono(
    f1: nat,
    f2: nat,
    es: Seq<SpecSExpr>,
    i: nat,
    h: Heap,
    f: nat,
    acc: Seq<SpecValue>,
)
    requires
        f1 <= f2,
        spec_eval_args(f1, es, i, h, f, acc) is Some,
    ensures
        spec_eval_args(f2, es, i, h, f, acc) == spec_eval_args(f1, es, i, h, f, acc),
    decreases f1, 1nat, es.len() - i,
{
    if i < es.len() {
        lemma_eval_fuel_mono(f1, f2, es[i as int], h, f);
        if let Some((h1, Ok(v))) = spec_eval(f1, es[i as int], h, f) {
            lemma_args_fuel_mono(f1, f2, es, i + 1, h1, f, acc.push(v));
        }
    }
}

proof fn lemma_arguments_fuel_mono(f1: nat, f2: nat, args: SpecSExpr, h: Heap, f: nat)
    requires
        f1 <= f2,
        spec_eval_arguments(f1, args, h, f) is Some,
    ensures
        spec_eval_arguments(f2, args, h, f) == spec_eval_arguments(f1, args, h, f),
    decreases f1, 2nat, 0nat,
{
    if let Some(es) = spec_extract_list(args) {
        lemma_args_fuel_mono(f1, f2, es, 0, h, f, seq![]);
    }
}

proof fn lemma_apply_fuel_mono(f1: nat, f2: nat, fv: SpecValue, args: Seq<SpecValue>, h: Heap)
    requires
        f1 <= f2,
        spec_apply(f1, fv, args, h) is Some,
    ensures
        spec_apply(f2, fv, args, h) == spec_apply(f1, fv, args, h),
    decreases f1, 2nat, 0nat,
{
    if let SpecValue::Lambda(c) = fv {
        if c.params.len() == args.len() {
            let h1 = h.push(SpecFrame { bindings: bind_params(c.params, args), parent: Some(c.env) });
            lemma_eval_fuel_mono(f1, f2, c.body, h1, h.len());
        }
    }
}

proof fn lemma_application_fuel_mono(f1: nat, f2: nat, op: SpecSExpr, args: SpecSExpr, h: Heap, f: nat)
    requires
        f1 <= f2,
        spec_eval_application(f1, op, args, h, f) is Some,
    ensures
        spec_eval_application(f2, op, args, h, f) == spec_eval_application(f1, op, args, h, f),
    decreases f1, 3nat, 0nat,
{
    lemma_eval_fuel_mono(f1, f2, op, h, f);
    if let Some((h1, Ok(fv))) = spec_eval(f1, op, h, f) {
        lemma_arguments_fuel_mono(f1, f2, args, h1, f);
        if let Some((h2, Ok(vs))) = spec_eval_arguments(f1, args, h1, f) {
            lemma_apply_fuel_mono(f1, f2, fv, vs, h2);
        }
    }
}

/// Evaluation is deterministic: every budget under which it comes to an end
/// gives the same store and result, the outcome that `eval` returns.
pub proof fn lemma_outcome_any_fuel(fuel: nat, e: SpecSExpr, h: Heap, f: nat)
    requires
        spec_eval(fuel, e, h, f) is Some,
    ensures
        eval_terminates(e, h, f),
        eval_outcome(e, h, f) == spec_eval(fuel, e, h, f)->0,
{
    assert(eval_terminates(e, h, f));
    let c = choose|fuel: nat| (#[trigger] spec_eval(fuel, e, h, f)) is Some;
    if c <= fuel {
        lemma_eval_fuel_mono(c, fuel, e, h, f);
    } else {
        lemma_eval_fuel_mono(fuel, c, e, h, f);
    }
}

/// Read after write: right after binding `name` to `v` in frame `f`, looking
/// `name` up from `f` gives `v`.
pub proof fn law_lookup_after_define(h: Heap, f: nat, name: Seq<char>, v: SpecValue)
    requires
        f < h.len(),
    ensures
        spec_lookup(spec_define(h, f, name, v), f, name) == Some(v),
{
    let h1 = spec_define(h, f, name, v);
    assert(h1[f as int].bindings.last() == (name, v));
}

/// Binding one name leaves the value of every other name, seen from any
/// frame, as it was.
pub proof fn law_define_keeps_other_names(h: Heap, f: nat, name: Seq<char>, v: SpecValue, g: nat, other: Seq<char>)
    requires
        f < h.len(),
        other != name,
    ensures
        spec_lookup(spec_define(h, f, name, v), g, other) == spec_lookup(h, g, other),
    decreases g,
{
    let h1 = spec_define(h, f, name, v);
    if g < h.len() {
        if g == f {
            let bs = h[f as int].bindings;
            assert(h1[g as int].bindings.drop_last() =~= bs);
            assert(assoc_find(h1[g as int].bindings, other) == assoc_find(bs, other));
        } else {
            assert(h1[g as int] == h[g as int]);
        }
        assert(h1[g as int].parent == h[g as int].parent);
        if let Some(p) = h[g as int].parent {
            if p < g {
                law_define_keeps_other_names(h, f, name, v, p, other);
            }
        }
    }
}

/// Adding a frame leaves every lookup from the frames that were already there
/// as it was.
pub proof fn law_new_frame_keeps_lookups(h: Heap, fr: SpecFrame, g: nat, name: Seq<char>)
    requires
        g < h.len(),
    ensures
        spec_lookup(h.push(fr), g, name) == spec_lookup(h, g, name),
    decreases g,
{
    assert(h.push(fr)[g as int] == h[g as int]);
    if let Some(p) = h[g as int].parent {
        if p < g {
            law_new_frame_keeps_lookups(h, fr, p, name);
        }
    }
}

/// A name looked up from a new, empty frame has the value it has seen from
/// the frame's parent.
pub proof fn law_child_frame_sees_parent(h: Heap, p: nat, name: Seq<char>)
    requires
        p < h.len(),
    ensures
        spec_lookup(spec_with_parent(h, p), h.len(), name) == spec_lookup(h, p, name),
{
    let fr = SpecFrame { bindings: seq![], parent: Some(p) };
    law_new_frame_keeps_lookups(h, fr, p, name);
}

/// `(define name e)`
pub open spec fn define_form(name: Seq<char>, e: SpecSExpr) -> SpecSExpr {
    SpecSExpr::Cons(
        Box::new(SpecSExpr::Atom(define_name())),
        Box::new(
            SpecSExpr::Cons(
                Box::new(SpecSExpr::Atom(name)),
                Box::new(SpecSExpr::Cons(Box::new(e), Box::new(SpecSExpr::Nil))),
            ),
        ),
    )
}

/// Once `(define name e)` has evaluated to `v` in frame `f`, evaluating the
/// symbol `name` there gives `v` back and leaves the store alone (`T`, which
/// always evaluates to itself, excepted).
pub proof fn law_define_then_read(h: Heap, f: nat, name: Seq<char>, e: SpecSExpr)
    requires
        heap_wf(h),
        f < h.len(),
        name != t_name(),
        eval_terminates(define_form(name, e), h, f),
    ensures
        eval_outcome(define_form(name, e), h, f).1 matches Ok(v) ==> {
            let h1 = eval_outcome(define_form(name, e), h, f).0;
            &&& eval_terminates(SpecSExpr::Atom(name), h1, f)
            &&& eval_outcome(SpecSExpr::Atom(name), h1, f) == (h1, Ok::<SpecValue, SpecEvalError>(v))
        },
{
    let d = define_form(name, e);
    let c = choose|fuel: nat| (#[trigger] spec_eval(fuel, d, h, f)) is Some;
    let k = (c - 1) as nat;
    let args = SpecSExpr::Cons(
        Box::new(SpecSExpr::Atom(name)),
        Box::new(SpecSExpr::Cons(Box::new(e), Box::new(SpecSExpr::Nil))),
    );
    assert(is_special_form(define_name()));
    assert(spec_extract_list(SpecSExpr::Nil) == Some(Seq::<SpecSExpr>::empty()));
    assert(seq![e] + Seq::<SpecSExpr>::empty() =~= seq![e]);
    assert(spec_extract_list(SpecSExpr::Cons(Box::new(e), Box::new(SpecSExpr::Nil))) == Some(seq![e]));
    assert(spec_extract_list(args) == Some(seq![SpecSExpr::Atom(name)] + seq![e]));
    let l = seq![SpecSExpr::Atom(name)] + seq![e];
    assert(l[0] == SpecSExpr::Atom(name) && l[1] == e && l.len() == 2);
    assert(define_name() != quote_name());
    assert(define_name() != crate::semantics::cond_name());
    assert(define_name() != crate::semantics::lambda_name());
    assert(spec_eval(c, d, h, f) == spec_eval_special(k, define_name(), args, h, f));
    lemma_eval_keeps_wf(k, e, h, f);
    if let Some((h2, Ok(v))) = spec_eval(k, e, h, f) {
        let h1 = spec_define(h2, f, name, v);
        law_lookup_after_define(h2, f, name, v);
        assert(spec_eval(1, SpecSExpr::Atom(name), h1, f) == Some((h1, Ok::<SpecValue, SpecEvalError>(v))));
        lemma_outcome_any_fuel(1, SpecSExpr::Atom(name), h1, f);
    }
}

/// A quoted expression evaluates to itself read as data, and the store does
/// not change.
pub proof fn law_quote(e: SpecSExpr, h: Heap, f: nat)
    ensures
        eval_terminates(quoted(e), h, f),
        eval_outcome(quoted(e), h, f) == (h, Ok::<SpecValue, SpecEvalError>(spec_quote_to_value(e))),
{
    let rest = SpecSExpr::Cons(Box::new(e), Box::new(SpecSExpr::Nil));
    assert(spec_extract_list(SpecSExpr::Nil) == Some(Seq::<SpecSExpr>::empty()));
    assert(seq![e] + Seq::<SpecSExpr>::empty() =~= seq![e]);
    assert(spec_extract_list(rest) == Some(seq![e]));
    assert(is_special_form(quote_name()));
    assert(spec_eval(1, quoted(e), h, f) == Some((h, Ok::<SpecValue, SpecEvalError>(spec_quote_to_value(e)))));
    lemma_outcome_any_fuel(1, quoted(e), h, f);
}

/// `car` and `cdr` take apart what `cons` builds.
pub proof fn law_car_cdr_of_cons(a: SpecValue, b: SpecValue)
    ensures
        spec_call(BuiltinFunction::Cons, seq![a, b]) == Ok::<SpecValue, SpecEvalError>(
            SpecValue::Cons(Box::new(a), Box::new(b)),
        ),
        spec_call(BuiltinFunction::Car, seq![SpecValue::Cons(Box::new(a), Box::new(b))]) == Ok::<
            SpecValue,
            SpecEvalError,
        >(a),
        spec_call(BuiltinFunction::Cdr, seq![SpecValue::Cons(Box::new(a), Box::new(b))]) == Ok::<
            SpecValue,
            SpecEvalError,
        >(b),
{
}

/// `atom` tells atoms from pairs, and `eq` holds of an atom and itself and of
/// `nil` and itself, and of nothing else.
pub proof fn law_atom_and_eq(x: SpecValue, y: SpecValue)
    ensures
        spec_call(BuiltinFunction::Atom, seq![x]) == Ok::<SpecValue, SpecEvalError>(
            if x is Atom { truth() } else { SpecValue::Nil },
        ),
        spec_call(BuiltinFunction::Eq, seq![x, y]) == Ok::<SpecValue, SpecEvalError>(
            if (x is Atom && x == y) || (x is Nil && y is Nil) { truth() } else { SpecValue::Nil },
        ),
{
}

/// A name that reads back as the same atom: non-empty, free of whitespace and
/// delimiters, and not `nil`.
pub open spec fn plain_symbol(s: Seq<char>) -> bool {
    &&& s.len() > 0
    &&& forall|i: int| 0 <= i < s.len() ==> !is_delimiter(#[trigger] s[i])
    &&& s != nil_name()
}

/// Data made of pairs, `nil` and atoms with plain names.
pub open spec fn printable_data(v: SpecValue) -> bool
    decreases v,
{
    match v {
        SpecValue::Atom(s) => plain_symbol(s),
        SpecValue::Nil => true,
        SpecValue::Cons(a, d) => printable_data(*a) && printable_data(*d),
        _ => false,
    }
}

/// The tokens of the printed form of data.
pub open spec fn data_tokens(v: SpecValue) -> Seq<SpecToken>
    decreases v,
{
    match v {
        SpecValue::Atom(s) => seq![SpecToken::Symbol(s)],
        SpecValue::Cons(a, d) => seq![SpecToken::LParen] + data_tokens(*a) + seq![SpecToken::Dot]
            + data_tokens(*d) + seq![SpecToken::RParen],
        _ => seq![SpecToken::Symbol(nil_name())],
    }
}

/// Data as the S-expression that denotes it.
pub open spec fn data_sexpr(v: SpecValue) -> SpecSExpr
    decreases v,
{
    match v {
        SpecValue::Atom(s) => SpecSExpr::Atom(s),
        SpecValue::Cons(a, d) => SpecSExpr::Cons(Box::new(data_sexpr(*a)), Box::new(data_sexpr(*d))),
        _ => SpecSExpr::Nil,
    }
}

/// Text is "separated" where it is empty or starts with a delimiter.
pub open spec fn starts_separated(s: Seq<char>) -> bool {
    s.len() == 0 || is_delimiter(s[0])
}

proof fn lemma_tokenize_symbol(s: Seq<char>, rest: Seq<char>)
    requires
        s.len() > 0,
        forall|i: int| 0 <= i < s.len() ==> !is_delimiter(#[trigger] s[i]),
        starts_separated(rest),
    ensures
        spec_tokenize(s + rest) == seq![SpecToken::Symbol(s)] + spec_tokenize(rest),
{
    let t = s + rest;
    assert forall|k: int| 0 <= k < s.len() implies !is_delimiter(#[trigger] t[k]) by {
        assert(t[k] == s[k]);
    }
    if rest.len() > 0 {
        assert(t[s.len() as int] == rest[0]);
    }
    crate::lexer::lemma_symbol_len_at_start(t, s.len() as int);
    assert(t.take(s.len() as int) =~= s);
    assert(t.skip(s.len() as int) =~= rest);
    assert(!is_delimiter(t[0]));
    assert(!spec_is_whitespace(t[0]));
}

proof fn lemma_tokenize_char(c: char, rest: Seq<char>)
    requires
        is_delimiter(c),
    ensures
        spec_is_whitespace(c) ==> spec_tokenize(seq![c] + rest) == spec_tokenize(rest),
        c == '(' ==> spec_tokenize(seq![c] + rest) == seq![SpecToken::LParen] + spec_tokenize(rest),
        c == ')' ==> spec_tokenize(seq![c] + rest) == seq![SpecToken::RParen] + spec_tokenize(rest),
        c == '.' ==> spec_tokenize(seq![c] + rest) == seq![SpecToken::Dot] + spec_tokenize(rest),
{
    assert((seq![c] + rest).drop_first() =~= rest);
    assert((seq![c] + rest)[0] == c);
}

/// The printed form of data, followed by separated text, reads as the data's
/// tokens followed by the tokens of that text.
proof fn lemma_tokenize_format(v: SpecValue, rest: Seq<char>)
    requires
        printable_data(v),
        starts_separated(rest),
    ensures
        spec_tokenize(spec_format(v) + rest) == data_tokens(v) + spec_tokenize(rest),
    decreases v,
{
    match v {
        SpecValue::Atom(s) => {
            lemma_tokenize_symbol(s, rest);
        },
        SpecValue::Nil => {
            let n = nil_name();
            assert forall|i: int| 0 <= i < n.len() implies !is_delimiter(#[trigger] n[i]) by {
                assert(n[0] == 'n' && n[1] == 'i' && n[2] == 'l');
            }
            lemma_tokenize_symbol(n, rest);
        },
        SpecValue::Cons(a, d) => {
            let fa = spec_format(*a);
            let fd = spec_format(*d);
            let r3 = seq![')'] + rest;
            let r2 = fd + r3;
            let r1 = seq![' ', '.', ' '] + r2;
            assert(spec_format(v) + rest =~= seq!['('] + (fa + r1));
            lemma_tokenize_char('(', fa + r1);
            assert(starts_separated(r1)) by {
                assert(r1[0] == ' ');
                assert(spec_is_whitespace(' '));
            }
            lemma_tokenize_format(*a, r1);
            assert(r1 =~= seq![' '] + (seq!['.'] + (seq![' '] + r2)));
            assert(spec_is_whitespace(' '));
            lemma_tokenize_char(' ', seq!['.'] + (seq![' '] + r2));
            lemma_tokenize_char('.', seq![' '] + r2);
            lemma_tokenize_char(' ', r2);
            assert(starts_separated(r3)) by {
                assert(r3[0] == ')');
            }
            lemma_tokenize_format(*d, r3);
            lemma_tokenize_char(')', rest);
            assert(data_tokens(v) + spec_tokenize(rest) =~= seq![SpecToken::LParen] + (data_tokens(*a) + (seq![SpecToken::Dot] + (data_tokens(*d) + (seq![SpecToken::RParen] + spec_tokenize(rest))))));
        },
        _ => {},
    }
}

/// Where the tokens of data stand at position `p`, one expression read from
/// there is that data, and reading ends right after those tokens.
proof fn lemma_parse_data(v: SpecValue, t: Seq<SpecToken>, p: nat)
    requires
        printable_data(v),
        p + data_tokens(v).len() <= t.len(),
        t.subrange(p as int, (p + data_tokens(v).len()) as int) == data_tokens(v),
    ensures
        spec_parse_expr(t, p) == (Ok::<SpecSExpr, crate::parser::SpecParseError>(data_sexpr(v)), p + data_tokens(v).len()),
    decreases v,
{
    let dt = data_tokens(v);
    assert(t[p as int] == dt[0]);
    match v {
        SpecValue::Cons(a, d) => {
            let ta = data_tokens(*a);
            let td = data_tokens(*d);
            let pi = p as int;
            let la = ta.len() as int;
            let ld = td.len() as int;
            let p1 = pi + 1 + la;
            let p2 = p1 + 1 + ld;
            assert(dt =~= seq![SpecToken::LParen] + ta + seq![SpecToken::Dot] + td + seq![SpecToken::RParen]);
            assert(t.subrange(pi + 1, pi + 1 + la) =~= ta) by {
                assert forall|k: int| 0 <= k < la implies #[trigger] t.subrange(pi + 1, pi + 1 + la)[k] == ta[k] by {
                    assert(t[pi + 1 + k] == dt[1 + k]);
                }
            }
            lemma_parse_data(*a, t, (pi + 1) as nat);
            assert(t[p1] == dt[1 + la]);
            assert(t.subrange(p1 + 1, p1 + 1 + ld) =~= td) by {
                assert forall|k: int| 0 <= k < ld implies #[trigger] t.subrange(p1 + 1, p1 + 1 + ld)[k] == td[k] by {
                    assert(t[p1 + 1 + k] == dt[2 + la + k]);
                }
            }
            lemma_parse_data(*d, t, (p1 + 1) as nat);
            assert(t[p2] == dt[dt.len() - 1]);
            lemma_data_tokens_start(*a);
            assert(t[pi + 1] == ta[0]);
            assert(t[pi] == SpecToken::LParen);
            assert(t[p1] == SpecToken::Dot);
            assert(t[p2] == SpecToken::RParen);
            assert(p2 < t.len());
            let ea = data_sexpr(*a);
            let ed = data_sexpr(*d);
            assert(spec_parse_expr(t, (pi + 1) as nat) == (Ok::<SpecSExpr, crate::parser::SpecParseError>(ea), p1 as nat));
            assert(spec_parse_expr(t, (p1 + 1) as nat) == (Ok::<SpecSExpr, crate::parser::SpecParseError>(ed), p2 as nat));
            assert(spec_parse_list(t, (pi + 1) as nat) == (Ok::<SpecSExpr, crate::parser::SpecParseError>(
                SpecSExpr::Cons(Box::new(ea), Box::new(ed)),
            ), (p2 + 1) as nat));
        },
        _ => {},
    }
}

proof fn lemma_data_tokens_start(v: SpecValue)
    ensures
        data_tokens(v).len() > 0,
        !(data_tokens(v)[0] is RParen),
        !(data_tokens(v)[0] is Dot),
    decreases v,
{
    match v {
        SpecValue::Cons(a, d) => {
            let dt = data_tokens(v);
            assert(dt[0] == SpecToken::LParen);
        },
        _ => {},
    }
}

proof fn lemma_data_sexpr_quote(v: SpecValue)
    requires
        printable_data(v),
    ensures
        spec_quote_to_value(data_sexpr(v)) == v,
    decreases v,
{
    match v {
        SpecValue::Cons(a, d) => {
            lemma_data_sexpr_quote(*a);
            lemma_data_sexpr_quote(*d);
        },
        _ => {},
    }
}

/// Printed data reads back: tokenizing and parsing the text of data made of
/// pairs, `nil` and plainly named atoms gives an expression that denotes
/// that same data, and quoting it evaluates to the data again.
pub proof fn law_print_then_read(v: SpecValue, h: Heap, f: nat)
    requires
        printable_data(v),
    ensures
        spec_parse(spec_tokenize(spec_format(v)), 0).0 matches Ok(e) && spec_quote_to_value(e) == v,
        spec_parse(spec_tokenize(spec_format(v)), 0).0 matches Ok(e)
            && eval_outcome(quoted(e), h, f) == (h, Ok::<SpecValue, SpecEvalError>(v)),
{
    let empty = Seq::<char>::empty();
    lemma_tokenize_format(v, empty);
    assert(spec_format(v) + empty =~= spec_format(v));
    let t = spec_tokenize(spec_format(v));
    assert(spec_tokenize(empty) =~= Seq::<SpecToken>::empty());
    assert(t =~= data_tokens(v));
    assert(t.subrange(0, data_tokens(v).len() as int) =~= data_tokens(v));
    lemma_parse_data(v, t, 0);
    lemma_data_sexpr_quote(v);
    law_quote(data_sexpr(v), h, f);
}

/// The characters before `symbol_len(s)` are no delimiters.
proof fn lemma_symbol_prefix_plain(s: Seq<char>)
    ensures
        forall|k: int| 0 <= k < symbol_len(s) ==> !is_delimiter(#[trigger] s[k]),
    decreases s.len(),
{
    if s.len() > 0 && !is_delimiter(s[0]) {
        let r = s.drop_first();
        lemma_symbol_len_bound(s);
        lemma_symbol_prefix_plain(r);
        assert forall|k: int| 0 <= k < symbol_len(s) implies !is_delimiter(#[trigger] s[k]) by {
            if k > 0 {
                assert(s[k] == r[k - 1]);
            }
        }
    }
}

/// Every symbol token is a non-empty run of characters that are neither
/// whitespace nor delimiters.
pub proof fn law_symbols_are_plain(s: Seq<char>)
    ensures
        forall|i: int|
            0 <= i < spec_tokenize(s).len() ==> (#[trigger] spec_tokenize(s)[i] matches SpecToken::Symbol(x)
                ==> x.len() > 0 && forall|j: int| 0 <= j < x.len() ==> !is_delimiter(#[trigger] x[j])),
    decreases s.len(),
{
    if s.len() > 0 {
        let t = spec_tokenize(s);
        if spec_is_whitespace(s[0]) {
            law_symbols_are_plain(s.drop_first());
        } else if s[0] == '(' || s[0] == ')' || s[0] == '.' || s[0] == '\'' {
            let r = spec_tokenize(s.drop_first());
            law_symbols_are_plain(s.drop_first());
            assert forall|i: int| 0 <= i < t.len() implies (#[trigger] t[i] matches SpecToken::Symbol(x)
                ==> x.len() > 0 && forall|j: int| 0 <= j < x.len() ==> !is_delimiter(#[trigger] x[j])) by {
                if i > 0 {
                    assert(t[i] == r[i - 1]);
                }
            }
        } else {
            let n = symbol_len(s);
            lemma_symbol_len_bound(s);
            lemma_symbol_prefix_plain(s);
            let r = spec_tokenize(s.skip(n as int));
            law_symbols_are_plain(s.skip(n as int));
            let x0 = s.take(n as int);
            assert forall|j: int| 0 <= j < x0.len() implies !is_delimiter(#[trigger] x0[j]) by {
                assert(x0[j] == s[j]);
            }
            assert forall|i: int| 0 <= i < t.len() implies (#[trigger] t[i] matches SpecToken::Symbol(x)
                ==> x.len() > 0 && forall|j: int| 0 <= j < x.len() ==> !is_delimiter(#[trigger] x[j])) by {
                if i > 0 {
                    assert(t[i] == r[i - 1]);
                } else {
                    assert(t[0] == SpecToken::Symbol(x0));
                }
            }
        }
    }
}

/// A symbol does not run past the end of the text it starts in where the
/// text after it starts with a delimiter.
proof fn lemma_symbol_len_concat(a: Seq<char>, r: Seq<char>)
    requires
        starts_separated(r),
    ensures
        symbol_len(a + r) == symbol_len(a),
    decreases a.len(),
{
    if a.len() == 0 {
        assert(a + r =~= r);
    } else {
        assert((a + r)[0] == a[0]);
        if !is_delimiter(a[0]) {
            assert((a + r).drop_first() =~= a.drop_first() + r);
            lemma_symbol_len_concat(a.drop_first(), r);
        }
    }
}

/// Text followed by text that starts with a delimiter (or by nothing) reads
/// as the tokens of the first followed by the tokens of the second.
pub proof fn law_tokenize_concat(a: Seq<char>, r: Seq<char>)
    requires
        starts_separated(r),
    ensures
        spec_tokenize(a + r) == spec_tokenize(a) + spec_tokenize(r),
    decreases a.len(),
{
    let s = a + r;
    if a.len() == 0 {
        assert(s =~= r);
        assert(spec_tokenize(a) =~= Seq::<SpecToken>::empty());
        assert(spec_tokenize(a) + spec_tokenize(r) =~= spec_tokenize(r));
    } else {
        assert(s[0] == a[0]);
        if spec_is_whitespace(a[0]) || a[0] == '(' || a[0] == ')' || a[0] == '.' || a[0] == '\'' {
            assert(s.drop_first() =~= a.drop_first() + r);
            law_tokenize_concat(a.drop_first(), r);
            let t1 = spec_tokenize(a.drop_first());
            let t2 = spec_tokenize(r);
            assert(seq![SpecToken::LParen] + (t1 + t2) =~= (seq![SpecToken::LParen] + t1) + t2);
            assert(seq![SpecToken::RParen] + (t1 + t2) =~= (seq![SpecToken::RParen] + t1) + t2);
            assert(seq![SpecToken::Dot] + (t1 + t2) =~= (seq![SpecToken::Dot] + t1) + t2);
            assert(seq![SpecToken::Quote] + (t1 + t2) =~= (seq![SpecToken::Quote] + t1) + t2);
        } else {
            let n = symbol_len(a);
            lemma_symbol_len_concat(a, r);
            lemma_symbol_len_bound(a);
            assert(s.take(n as int) =~= a.take(n as int));
            assert(s.skip(n as int) =~= a.skip(n as int) + r);
            law_tokenize_concat(a.skip(n as int), r);
            let x = seq![SpecToken::Symbol(a.take(n as int))];
            let t1 = spec_tokenize(a.skip(n as int));
            let t2 = spec_tokenize(r);
            assert(x + (t1 + t2) =~= (x + t1) + t2);
        }
    }
}

/// Leading whitespace reads as nothing.
proof fn lemma_tokenize_skips_whitespace(w: Seq<char>, b: Seq<char>)
    requires
        forall|i: int| 0 <= i < w.len() ==> spec_is_whitespace(#[trigger] w[i]),
    ensures
        spec_tokenize(w + b) == spec_tokenize(b),
    decreases w.len(),
{
    if w.len() == 0 {
        assert(w + b =~= b);
    } else {
        assert((w + b)[0] == w[0]);
        assert((w + b).drop_first() =~= w.drop_first() + b);
        let w2 = w.drop_first();
        assert forall|i: int| 0 <= i < w2.len() implies spec_is_whitespace(#[trigger] w2[i]) by {
            assert(w2[i] == w[i + 1]);
        }
        lemma_tokenize_skips_whitespace(w2, b);
    }
}

/// Two texts joined by whitespace read as the tokens of the first followed by
/// the tokens of the second.
pub proof fn law_tokenize_joined_by_whitespace(a: Seq<char>, w: Seq<char>, b: Seq<char>)
    requires
        w.len() > 0,
        forall|i: int| 0 <= i < w.len() ==> spec_is_whitespace(#[trigger] w[i]),
    ensures
        spec_tokenize(a + w + b) == spec_tokenize(a) + spec_tokenize(b),
{
    assert((w + b)[0] == w[0]);
    assert(spec_is_whitespace(w[0]));
    law_tokenize_concat(a, w + b);
    assert(a + w + b =~= a + (w + b));
    lemma_tokenize_skips_whitespace(w, b);
}

/// Two stores hold the same first `n` frames.
pub open spec fn same_frames_below(h1: Heap, h2: Heap, n: nat) -> bool {
    &&& n <= h1.len()
    &&& n <= h2.len()
    &&& forall|g: int| 0 <= g < n ==> #[trigger] h1[g] == h2[g]
}

/// Lookups from a frame see only that frame and lower ones, so stores that
/// agree below `n` agree on lookups from there.
pub proof fn lemma_lookup_below(h1: Heap, h2: Heap, n: nat, g: nat, name: Seq<char>)
    requires
        same_frames_below(h1, h2, n),
        g < n,
    ensures
        spec_lookup(h1, g, name) == spec_lookup(h2, g, name),
    decreases g,
{
    assert(h1[g as int] == h2[g as int]);
    if let Some(p) = h1[g as int].parent {
        if p < g {
            lemma_lookup_below(h1, h2, n, p, name);
        }
    }
}

/// A definition in frame `f` changes no lookup from a frame before `f`, such
/// as the parent of a frame made after it.
pub proof fn law_define_keeps_lookups_below(h: Heap, f: nat, name: Seq<char>, v: SpecValue, g: nat, other: Seq<char>)
    requires
        g < f < h.len(),
    ensures
        spec_lookup(spec_define(h, f, name, v), g, other) == spec_lookup(h, g, other),
{
    let h1 = spec_define(h, f, name, v);
    assert(same_frames_below(h1, h, f));
    lemma_lookup_below(h1, h, f, g, other);
}

/// Looking up from a frame: its own latest binding, else what its parent sees.
pub proof fn law_child_lookup(h: Heap, c: nat, p: nat, name: Seq<char>)
    requires
        c < h.len(),
        h[c as int].parent == Some(p),
        p < c,
    ensures
        spec_lookup(h, c, name) == match assoc_find(h[c as int].bindings, name) {
            Some(v) => Some(v),
            None => spec_lookup(h, p, name),
        },
{
}

/// Definitions made in turn, each in the child frame `c` (where its flag is
/// set) or in the parent frame `p`.
pub open spec fn define_in_turn(h: Heap, c: nat, p: nat, ops: Seq<(bool, Seq<char>, SpecValue)>) -> Heap
    decreases ops.len(),
{
    if ops.len() == 0 {
        h
    } else {
        let o = ops.last();
        spec_define(define_in_turn(h, c, p, ops.drop_last()), if o.0 { c } else { p }, o.1, o.2)
    }
}

/// The value of the latest of `ops` that defines `name` in the child.
pub open spec fn latest_child_define(ops: Seq<(bool, Seq<char>, SpecValue)>, name: Seq<char>) -> Option<SpecValue>
    decreases ops.len(),
{
    if ops.len() == 0 {
        None
    } else if ops.last().0 && ops.last().1 == name {
        Some(ops.last().2)
    } else {
        latest_child_define(ops.drop_last(), name)
    }
}

/// The definitions of `ops` made in the parent, in their order.
pub open spec fn parent_defines(ops: Seq<(bool, Seq<char>, SpecValue)>) -> Seq<(bool, Seq<char>, SpecValue)>
    decreases ops.len(),
{
    if ops.len() == 0 {
        ops
    } else if ops.last().0 {
        parent_defines(ops.drop_last())
    } else {
        parent_defines(ops.drop_last()).push(ops.last())
    }
}

proof fn lemma_define_in_turn_shape(h: Heap, p: nat, ops: Seq<(bool, Seq<char>, SpecValue)>)
    requires
        p < h.len(),
    ensures
        ({
            let c = h.len();
            let hc = define_in_turn(spec_with_parent(h, p), c, p, ops);
            &&& hc.len() == h.len() + 1
            &&& hc[c as int].parent == Some(p)
            &&& same_frames_below(hc, define_in_turn(spec_with_parent(h, p), c, p, parent_defines(ops)), c)
            &&& define_in_turn(spec_with_parent(h, p), c, p, parent_defines(ops)).len() == h.len() + 1
        }),
        forall|name: Seq<char>| #[trigger] assoc_find(
            define_in_turn(spec_with_parent(h, p), h.len(), p, ops)[h.len() as int].bindings,
            name,
        ) == latest_child_define(ops, name),
    decreases ops.len(),
{
    let c = h.len();
    let h0 = spec_with_parent(h, p);
    if ops.len() == 0 {
        assert forall|name: Seq<char>| #[trigger] assoc_find(h0[c as int].bindings, name)
            == latest_child_define(ops, name) by {
        }
    } else {
        let rest = ops.drop_last();
        lemma_define_in_turn_shape(h, p, rest);
        let o = ops.last();
        let hr = define_in_turn(h0, c, p, rest);
        let hq = define_in_turn(h0, c, p, parent_defines(rest));
        let hc = define_in_turn(h0, c, p, ops);
        if o.0 {
            assert(parent_defines(ops) == parent_defines(rest));
            assert(hc == spec_define(hr, c, o.1, o.2));
            assert forall|name: Seq<char>| #[trigger] assoc_find(hc[c as int].bindings, name)
                == latest_child_define(ops, name) by {
                assert(hc[c as int].bindings.drop_last() =~= hr[c as int].bindings);
                assert(hc[c as int].bindings.last() == (o.1, o.2));
                assert(assoc_find(hr[c as int].bindings, name) == latest_child_define(rest, name));
            }
        } else {
            let pd = parent_defines(ops);
            assert(pd == parent_defines(rest).push(o));
            assert(pd.drop_last() =~= parent_defines(rest));
            assert(define_in_turn(h0, c, p, pd) == spec_define(hq, p, o.1, o.2));
            assert(hc == spec_define(hr, p, o.1, o.2));
            assert forall|name: Seq<char>| #[trigger] assoc_find(hc[c as int].bindings, name)
                == latest_child_define(ops, name) by {
                assert(hc[c as int] == hr[c as int]);
            }
        }
    }
}

/// Over any interleaving of definitions in a new child frame `c` of `p` and in
/// `p` itself: a lookup from `c` gives the latest value defined for the name
/// in `c`, if any, and otherwise what `p` sees at that time (definitions made
/// in `p` after `c` was made included); and lookups from `p` are those that
/// the definitions made in `p` alone give, so definitions in `c` never change
/// them.
pub proof fn law_child_and_parent_defines(h: Heap, p: nat, ops: Seq<(bool, Seq<char>, SpecValue)>, name: Seq<char>)
    requires
        p < h.len(),
    ensures
        ({
            let c = h.len();
            let h0 = spec_with_parent(h, p);
            let hc = define_in_turn(h0, c, p, ops);
            &&& spec_lookup(hc, c, name) == match latest_child_define(ops, name) {
                Some(v) => Some(v),
                None => spec_lookup(hc, p, name),
            }
            &&& spec_lookup(hc, p, name) == spec_lookup(define_in_turn(h0, c, p, parent_defines(ops)), p, name)
        }),
{
    let c = h.len();
    let h0 = spec_with_parent(h, p);
    let hc = define_in_turn(h0, c, p, ops);
    lemma_define_in_turn_shape(h, p, ops);
    assert(assoc_find(hc[c as int].bindings, name) == latest_child_define(ops, name));
    law_child_lookup(hc, c, p, name);
    lemma_lookup_below(hc, define_in_turn(h0, c, p, parent_defines(ops)), c, p, name);
}

/// `e` holds no `define` form: no pair whose first part is the atom `define`.
pub open spec fn has_no_define(e: SpecSExpr) -> bool
    decreases e,
{
    match e {
        SpecSExpr::Cons(a, d) => *a != SpecSExpr::Atom(define_name()) && has_no_define(*a)
            && has_no_define(*d),
        _ => true,
    }
}

/// Every element of a list without `define` forms has none either.
proof fn lemma_extract_no_define(e: SpecSExpr)
    requires
        has_no_define(e),
    ensures
        spec_extract_list(e) matches Some(l) ==> forall|i: int| 0 <= i < l.len() ==> has_no_define(#[trigger] l[i]),
    decreases e,
{
    if let SpecSExpr::Cons(a, d) = e {
        lemma_extract_no_define(*d);
        if let Some(rest) = spec_extract_list(*d) {
            let l = seq![*a] + rest;
            assert forall|i: int| 0 <= i < l.len() implies has_no_define(#[trigger] l[i]) by {
                if i > 0 {
                    assert(l[i] == rest[i - 1]);
                }
            }
        }
    }
}

/// The store an outcome ends with keeps the first `n` frames of `h` as they were.
pub open spec fn keeps_below(h: Heap, out: SpecOutcome, n: nat) -> bool {
    match out {
        None => true,
        Some((h1, _)) => h.len() <= h1.len() && same_frames_below(h1, h, n),
    }
}

/// Evaluation in a frame at or past `n`, or of an expression without
/// `define` forms anywhere, leaves the first `n` frames as they were: calls
/// bind their parameters and run their bodies in new frames.
pub proof fn lemma_eval_keeps_below(fuel: nat, e: SpecSExpr, h: Heap, f: nat, n: nat)
    requires
        n <= h.len(),
        f < h.len(),
        f >= n || has_no_define(e),
    ensures
        keeps_below(h, spec_eval(fuel, e, h, f), n),
    decreases fuel, 0nat, 0nat,
{
    if fuel > 0 {
        let k = (fuel - 1) as nat;
        if let SpecSExpr::Cons(op, args) = e {
            match *op {
                SpecSExpr::Atom(name) => if is_special_form(name) {
                    lemma_special_keeps_below(k, name, *args, h, f, n);
                } else {
                    lemma_application_keeps_below(k, *op, *args, h, f, n);
                },
                _ => lemma_application_keeps_below(k, *op, *args, h, f, n),
            }
        }
    }
}

proof fn lemma_special_keeps_below(fuel: nat, name: Seq<char>, args: SpecSExpr, h: Heap, f: nat, n: nat)
    requires
        n <= h.len(),
        f < h.len(),
        f >= n || (has_no_define(args) && name != define_name()),
    ensures
        keeps_below(h, spec_eval_special(fuel, name, args, h, f), n),
    decreases fuel, 3nat, 0nat,
{
    if f < n {
        lemma_extract_no_define(args);
    }
    if let Some(l) = spec_extract_list(args) {
        if name == quote_name() {
        } else if name == crate::semantics::cond_name() {
            lemma_clauses_keeps_below(fuel, l, 0, h, f, n);
        } else if name == crate::semantics::lambda_name() {
        } else if name == define_name() {
            if l.len() == 2 {
                if let SpecSExpr::Atom(x) = l[0] {
                    lemma_eval_keeps_below(fuel, l[1], h, f, n);
                }
            }
        }
    }
}

proof fn lemma_clauses_keeps_below(fuel: nat, cl: Seq<SpecSExpr>, i: nat, h: Heap, f: nat, n: nat)
    requires
        n <= h.len(),
        f < h.len(),
        f >= n || forall|j: int| 0 <= j < cl.len() ==> has_no_define(#[trigger] cl[j]),
    ensures
        keeps_below(h, spec_eval_clauses(fuel, cl, i, h, f), n),
    decreases fuel, 2nat, cl.len() - i,
{
    if i < cl.len() {
        if f < n {
            assert(has_no_define(cl[i as int]));
            lemma_extract_no_define(cl[i as int]);
        }
        if let Some(c) = spec_extract_list(cl[i as int]) {
            if c.len() == 0 {
                lemma_clauses_keeps_below(fuel, cl, i + 1, h, f, n);
            } else {
                lemma_eval_keeps_below(fuel, c[0], h, f, n);
                if let Some((h1, Ok(v))) = spec_eval(fuel, c[0], h, f) {
                    if !(v is Nil) {
                        if c.len() > 1 {
                            lemma_sequence_keeps_below(fuel, c, 1, h1, f, SpecValue::Nil, n);
                        }
                    } else {
                        lemma_clauses_keeps_below(fuel, cl, i + 1, h1, f, n);
                    }
                }
            }
        }
    }
}

proof fn lemma_sequence_keeps_below(fuel: nat, es: Seq<SpecSExpr>, j: nat, h: Heap, f: nat, last: SpecValue, n: nat)
    requires
        n <= h.len(),
        f < h.len(),
        f >= n || forall|i: int| 0 <= i < es.len() ==> has_no_define(#[trigger] es[i]),
    ensures
        keeps_below(h, spec_eval_sequence(fuel, es, j, h, f, last), n),
    decreases fuel, 1nat, es.len() - j,
{
    if j < es.len() {
        lemma_eval_keeps_below(fuel, es[j as int], h, f, n);
        if let Some((h1, Ok(v))) = spec_eval(fuel, es[j as int], h, f) {
            lemma_sequence_keeps_below(fuel, es, j + 1, h1, f, v, n);
        }
    }
}

proof fn lemma_args_keeps_below(fuel: nat, es: Seq<SpecSExpr>, i: nat, h: Heap, f: nat, acc: Seq<SpecValue>, n: nat)
    requires
        n <= h.len(),
        f < h.len(),
        f >= n || forall|j: int| 0 <= j < es.len() ==> has_no_define(#[trigger] es[j]),
    ensures
        match spec_eval_args(fuel, es, i, h, f, acc) {
            None => true,
            Some((h1, _)) => h.len() <= h1.len() && same_frames_below(h1, h, n),
        },
    decreases fuel, 1nat, es.len() - i,
{
    if i < es.len() {
        lemma_eval_keeps_below(fuel, es[i as int], h, f, n);
        if let Some((h1, Ok(v))) = spec_eval(fuel, es[i as int], h, f) {
            lemma_args_keeps_below(fuel, es, i + 1, h1, f, acc.push(v), n);
        }
    }
}

proof fn lemma_arguments_keeps_below(fuel: nat, args: SpecSExpr, h: Heap, f: nat, n: nat)
    requires
        n <= h.len(),
        f < h.len(),
        f >= n || has_no_define(args),
    ensures
        match spec_eval_arguments(fuel, args, h, f) {
            None => true,
            Some((h1, _)) => h.len() <= h1.len() && same_frames_below(h1, h, n),
        },
    decreases fuel, 2nat, 0nat,
{
    if f < n {
        lemma_extract_no_define(args);
    }
    if let Some(es) = spec_extract_list(args) {
        lemma_args_keeps_below(fuel, es, 0, h, f, seq![], n);
    }
}

proof fn lemma_apply_keeps_below(fuel: nat, fv: SpecValue, args: Seq<SpecValue>, h: Heap, n: nat)
    requires
        n <= h.len(),
    ensures
        keeps_below(h, spec_apply(fuel, fv, args, h), n),
    decreases fuel, 2nat, 0nat,
{
    if let SpecValue::Lambda(c) = fv {
        if c.params.len() == args.len() {
            let h1 = h.push(SpecFrame { bindings: bind_params(c.params, args), parent: Some(c.env) });
            assert(same_frames_below(h1, h, n)) by {
                assert forall|g: int| 0 <= g < n implies #[trigger] h1[g] == h[g] by {}
            }
            lemma_eval_keeps_below(fuel, c.body, h1, h.len(), n);
        }
    }
}

proof fn lemma_application_keeps_below(fuel: nat, op: SpecSExpr, args: SpecSExpr, h: Heap, f: nat, n: nat)
    requires
        n <= h.len(),
        f < h.len(),
        f >= n || (has_no_define(op) && has_no_define(args)),
    ensures
        keeps_below(h, spec_eval_application(fuel, op, args, h, f), n),
    decreases fuel, 3nat, 0nat,
{
    lemma_eval_keeps_below(fuel, op, h, f, n);
    if let Some((h1, Ok(fv))) = spec_eval(fuel, op, h, f) {
        lemma_arguments_keeps_below(fuel, args, h1, f, n);
        if let Some((h2, Ok(vs))) = spec_eval_arguments(fuel, args, h1, f) {
            lemma_apply_keeps_below(fuel, fv, vs, h2, n);
        }
    }
}

/// An evaluation of an expression without `define` forms leaves every frame
/// that existed before it as it was, so every lookup from such a frame gives
/// what it gave before; frames made by the calls are the only ones written.
pub proof fn law_eval_without_define_keeps_lookups(e: SpecSExpr, h: Heap, f: nat, g: nat, name: Seq<char>)
    requires
        f < h.len(),
        g < h.len(),
        has_no_define(e),
        eval_terminates(e, h, f),
    ensures
        same_frames_below(eval_outcome(e, h, f).0, h, h.len()),
        spec_lookup(eval_outcome(e, h, f).0, g, name) == spec_lookup(h, g, name),
{
    let c = choose|fuel: nat| (#[trigger] spec_eval(fuel, e, h, f)) is Some;
    lemma_eval_keeps_below(c, e, h, f, h.len());
    let h1 = eval_outcome(e, h, f).0;
    lemma_lookup_below(h1, h, h.len(), g, name);
}

/// Data: atoms, `nil` and pairs of data, with no function inside.
pub open spec fn pure_data(v: SpecValue) -> bool
    decreases v,
{
    match v {
        SpecValue::Atom(_) => true,
        SpecValue::Nil => true,
        SpecValue::Cons(a, d) => pure_data(*a) && pure_data(*d),
        _ => false,
    }
}

/// An S-expression read as data has its shape: atoms stay atoms (`T` and
/// names of built-ins too), `nil` stays `nil`, pairs stay pairs, and no
/// function appears in it.
pub proof fn law_quote_keeps_shape(e: SpecSExpr)
    ensures
        pure_data(spec_quote_to_value(e)),
        e matches SpecSExpr::Atom(s) ==> spec_quote_to_value(e) == SpecValue::Atom(s),
        e is Nil ==> spec_quote_to_value(e) is Nil,
        e matches SpecSExpr::Cons(a, d) ==> spec_quote_to_value(e) == SpecValue::Cons(
            Box::new(spec_quote_to_value(*a)),
            Box::new(spec_quote_to_value(*d)),
        ),
    decreases e,
{
    if let SpecSExpr::Cons(a, d) = e {
        law_quote_keeps_shape(*a);
        law_quote_keeps_shape(*d);
    }
}

/// `'x` reads as `(quote x)`: where the tokens from position `p` on hold
/// `'` and then an expression `e` that ends before position `k`, reading from
/// `p` gives `(quote e)` and ends at `k`; and the spelled-out form
/// `( quote <tokens of e> )` reads as the same expression.
pub proof fn law_quote_sugar(t: Seq<SpecToken>, p: nat, e: SpecSExpr, k: nat)
    requires
        spec_parse_expr(t, p + 1) == (Ok::<SpecSExpr, crate::parser::SpecParseError>(e), k),
    ensures
        p < t.len() && t[p as int] is Quote ==> spec_parse_expr(t, p) == (Ok::<SpecSExpr, crate::parser::SpecParseError>(quoted(e)), k),
        p + 1 < t.len() && t[p - 1] is LParen && t[p as int] == SpecToken::Symbol(quote_name()) && k < t.len()
            && t[k as int] is RParen && p >= 1 ==> spec_parse_expr(t, (p - 1) as nat) == (Ok::<
            SpecSExpr,
            crate::parser::SpecParseError,
        >(quoted(e)), k + 1),
{
    lemma_parse_consumes(t, p + 1);
    if p + 1 < t.len() && p >= 1 && t[p - 1] is LParen && t[p as int] == SpecToken::Symbol(quote_name())
        && k < t.len() && t[k as int] is RParen {
        let q = (p - 1) as nat;
        assert(quote_name() != nil_name());
        assert(spec_parse_expr(t, p) == (Ok::<SpecSExpr, crate::parser::SpecParseError>(SpecSExpr::Atom(quote_name())), p + 1));
        // the token after `quote` starts `e`, so it is neither `)` nor `.`
        assert(!(t[(p + 1) as int] is RParen));
        assert(!(t[(p + 1) as int] is Dot));
        assert(spec_parse_list(t, k) == (Ok::<SpecSExpr, crate::parser::SpecParseError>(SpecSExpr::Nil), k + 1));
        assert(spec_parse_list(t, p + 1) == (Ok::<SpecSExpr, crate::parser::SpecParseError>(
            SpecSExpr::Cons(Box::new(e), Box::new(SpecSExpr::Nil)),
        ), k + 1));
        assert(spec_parse_list(t, p) == (Ok::<SpecSExpr, crate::parser::SpecParseError>(quoted(e)), k + 1));
    }
}

/// A successful read consumes at least one token and does not pass the end.
pub proof fn lemma_parse_consumes(t: Seq<SpecToken>, p: nat)
    ensures
        spec_parse_expr(t, p).0 is Ok ==> p < spec_parse_expr(t, p).1 <= t.len(),
        spec_parse_list(t, p).0 is Ok ==> p < spec_parse_list(t, p).1 <= t.len(),
    decreases t.len() - p, 2nat,
{
    if p < t.len() {
        lemma_parse_expr_consumes(t, p);
        lemma_parse_list_consumes(t, p);
    }
}

proof fn lemma_parse_expr_consumes(t: Seq<SpecToken>, p: nat)
    requires
        p < t.len(),
    ensures
        spec_parse_expr(t, p).0 is Ok ==> p < spec_parse_expr(t, p).1 <= t.len(),
    decreases t.len() - p, 0nat,
{
    match t[p as int] {
        SpecToken::Quote => {
            if p + 1 < t.len() {
                lemma_parse_expr_consumes(t, p + 1);
            }
        },
        SpecToken::LParen => {
            if p + 1 < t.len() {
                lemma_parse_list_consumes(t, p + 1);
            }
        },
        _ => {},
    }
}

proof fn lemma_parse_list_consumes(t: Seq<SpecToken>, p: nat)
    requires
        p < t.len(),
    ensures
        spec_parse_list(t, p).0 is Ok ==> p < spec_parse_list(t, p).1 <= t.len(),
    decreases t.len() - p, 1nat,
{
    if !(t[p as int] is RParen) {
        lemma_parse_expr_consumes(t, p);
        let (r1, p1) = spec_parse_expr(t, p);
        if r1 is Ok && p1 < t.len() {
            if t[p1 as int] is Dot {
                if p1 + 1 < t.len() {
                    lemma_parse_expr_consumes(t, p1 + 1);
                }
            } else {
                lemma_parse_list_consumes(t, p1);
            }
        }
    }
}

/// The list `(e1 ... en)` as nested pairs `(e1 . (e2 . ... (en . nil)))`.
pub open spec fn list_sexpr(es: Seq<SpecSExpr>) -> SpecSExpr
    decreases es.len(),
{
    if es.len() == 0 {
        SpecSExpr::Nil
    } else {
        SpecSExpr::Cons(Box::new(es[0]), Box::new(list_sexpr(es.drop_first())))
    }
}

/// List notation: where the tokens from position `ps[0]` hold expressions
/// `es[0] ... es[n-1]`, the i-th read from `ps[i]` and ending at `ps[i+1]`,
/// none followed by `.`, and then `)`, the rest of a list read from `ps[0]`
/// is `(e1 . (e2 . ... (en . nil)))`, ending right after the `)`.
pub proof fn law_list_sugar(t: Seq<SpecToken>, ps: Seq<nat>, es: Seq<SpecSExpr>)
    requires
        ps.len() == es.len() + 1,
        forall|i: int| 0 <= i < es.len() ==> spec_parse_expr(t, #[trigger] ps[i]) == (Ok::<SpecSExpr, crate::parser::SpecParseError>(es[i]), ps[i + 1]),
        forall|i: int| 1 <= i < ps.len() ==> #[trigger] ps[i] < t.len() && !(t[ps[i] as int] is Dot),
        ps.last() < t.len(),
        t[ps.last() as int] is RParen,
    ensures
        spec_parse_list(t, ps[0]) == (Ok::<SpecSExpr, crate::parser::SpecParseError>(list_sexpr(es)), ps.last() + 1),
    decreases es.len(),
{
    if es.len() == 0 {
    } else {
        let ps2 = ps.drop_first();
        let es2 = es.drop_first();
        assert forall|i: int| 0 <= i < es2.len() implies spec_parse_expr(t, #[trigger] ps2[i]) == (Ok::<SpecSExpr, crate::parser::SpecParseError>(es2[i]), ps2[i + 1]) by {
            assert(ps2[i] == ps[i + 1] && es2[i] == es[i + 1] && ps2[i + 1] == ps[i + 2]);
        }
        assert forall|i: int| 1 <= i < ps2.len() implies #[trigger] ps2[i] < t.len() && !(t[ps2[i] as int] is Dot) by {
            assert(ps2[i] == ps[i + 1]);
        }
        assert(ps2.last() == ps.last());
        law_list_sugar(t, ps2, es2);
        lemma_parse_consumes(t, ps[0]);
        assert(spec_parse_expr(t, ps[0]) == (Ok::<SpecSExpr, crate::parser::SpecParseError>(es[0]), ps[1]));
        assert(ps[1] < t.len() && !(t[ps[1] as int] is Dot));
        if ps[0] < t.len() {
            // `es[0]` starts here, so this token is no `)`
            assert(!(t[ps[0] as int] is RParen));
        }
        assert(ps2[0] == ps[1]);
    }
}

/// A list written in list notation has exactly its elements.
pub proof fn lemma_extract_list_sexpr(es: Seq<SpecSExpr>)
    ensures
        spec_extract_list(list_sexpr(es)) == Some(es),
    decreases es.len(),
{
    if es.len() > 0 {
        lemma_extract_list_sexpr(es.drop_first());
        assert(seq![es[0]] + es.drop_first() =~= es);
    }
}

/// In the bindings of parameters to arguments, a name finds the argument of
/// its last parameter position, and a name that is no parameter finds
/// nothing.
pub proof fn lemma_find_in_params(ps: Seq<Seq<char>>, args: Seq<SpecValue>, x: Seq<char>, i: int)
    requires
        ps.len() == args.len(),
    ensures
        (forall|j: int| 0 <= j < ps.len() ==> ps[j] != x) ==> assoc_find(bind_params(ps, args), x) is None,
        (0 <= i < ps.len() && ps[i] == x && forall|j: int| i < j < ps.len() ==> ps[j] != x)
            ==> assoc_find(bind_params(ps, args), x) == Some(args[i]),
    decreases ps.len(),
{
    if ps.len() > 0 {
        let n = ps.len() - 1;
        let bs = bind_params(ps, args);
        assert(bs.drop_last() =~= bind_params(ps.drop_last(), args.drop_last()));
        assert(bs.last() == (ps[n], args[n]));
        lemma_find_in_params(ps.drop_last(), args.drop_last(), x, i);
        if 0 <= i < n && ps[i] == x && (forall|j: int| i < j < ps.len() ==> ps[j] != x) {
            assert(ps[n] != x);
            assert(ps.drop_last()[i] == x);
            assert(args.drop_last()[i] == args[i]);
        }
        if forall|j: int| 0 <= j < ps.len() ==> ps[j] != x {
            assert(ps[n] != x);
        }
    }
}

/// Lexical scope: calling a closure runs its body in a new frame whose
/// parent is the frame the closure was made in, whatever frames were made
/// since.  So where the body is the symbol `x`: a parameter named `x` gives
/// its argument (the last such parameter, where there are several); any other
/// `x` gives its value seen from the closure's own frame `c.env`, or is
/// undefined there.  The store gains exactly the one new frame.
pub proof fn law_closure_call_scope(
    fuel: nat,
    c: SpecClosure,
    args: Seq<SpecValue>,
    h: Heap,
    x: Seq<char>,
    i: int,
)
    requires
        fuel >= 1,
        c.params.len() == args.len(),
        c.env < h.len(),
        c.body == SpecSExpr::Atom(x),
        x != t_name(),
    ensures
        spec_apply(fuel, SpecValue::Lambda(c), args, h) matches Some((h1, _)) && h1.len() == h.len() + 1
            && h1.subrange(0, h.len() as int) == h,
        (forall|j: int| 0 <= j < c.params.len() ==> c.params[j] != x) ==> spec_apply(fuel, SpecValue::Lambda(c), args, h).unwrap().1 == match spec_lookup(h, c.env, x) {
            Some(v) => Ok::<SpecValue, SpecEvalError>(v),
            None => Err(SpecEvalError::UndefinedSymbol(x)),
        },
        (0 <= i < c.params.len() && c.params[i] == x && forall|j: int| i < j < c.params.len() ==> c.params[j] != x)
            ==> spec_apply(fuel, SpecValue::Lambda(c), args, h).unwrap().1 == Ok::<SpecValue, SpecEvalError>(args[i]),
{
    let fr = SpecFrame { bindings: bind_params(c.params, args), parent: Some(c.env) };
    let h1 = h.push(fr);
    assert(h1.subrange(0, h.len() as int) =~= h);
    lemma_find_in_params(c.params, args, x, i);
    law_new_frame_keeps_lookups(h, fr, c.env, x);
    assert(h1[h.len() as int] == fr);
}

/// `(cond clauses...)`
pub open spec fn cond_form(clauses: Seq<SpecSExpr>) -> SpecSExpr {
    SpecSExpr::Cons(
        Box::new(SpecSExpr::Atom(crate::semantics::cond_name())),
        Box::new(list_sexpr(clauses)),
    )
}

/// `cond` takes its first clause exactly when that clause's test is not
/// `nil`: any other value (an atom, a pair or a function) counts as true.
/// Then the value is that of the clause's expression after the test, or the
/// test's own value where the clause holds only the test, and no later clause
/// is evaluated.  Where the test is `nil`, the `cond` goes on as a `cond` of
/// the remaining clauses, from the store the test left.
pub proof fn law_cond_first_clause(
    fuel: nat,
    test: SpecSExpr,
    body: Seq<SpecSExpr>,
    rest: Seq<SpecSExpr>,
    h: Heap,
    f: nat,
    h1: Heap,
    v: SpecValue,
)
    requires
        spec_eval(fuel, test, h, f) == Some((h1, Ok::<SpecValue, SpecEvalError>(v))),
    ensures
        !(v is Nil) && body.len() == 0 ==> spec_eval(fuel + 1, cond_form(seq![list_sexpr(seq![test] + body)] + rest), h, f)
            == Some((h1, Ok::<SpecValue, SpecEvalError>(v))),
        !(v is Nil) && body.len() == 1 ==> spec_eval(fuel + 1, cond_form(seq![list_sexpr(seq![test] + body)] + rest), h, f)
            == spec_eval(fuel, body[0], h1, f),
        v is Nil ==> spec_eval(fuel + 1, cond_form(seq![list_sexpr(seq![test] + body)] + rest), h, f)
            == spec_eval(fuel + 1, cond_form(rest), h1, f),
{
    let clause = seq![test] + body;
    let cl = seq![list_sexpr(clause)] + rest;
    lemma_extract_list_sexpr(cl);
    lemma_extract_list_sexpr(clause);
    lemma_extract_list_sexpr(rest);
    let cn = crate::semantics::cond_name();
    assert(is_special_form(cn));
    assert(cn != quote_name());
    assert(cl[0] == list_sexpr(clause));
    assert(clause[0] == test);
    assert(spec_eval(fuel + 1, cond_form(cl), h, f) == spec_eval_clauses(fuel, cl, 0, h, f));
    assert(spec_eval(fuel + 1, cond_form(rest), h1, f) == spec_eval_clauses(fuel, rest, 0, h1, f));
    if v is Nil {
        lemma_clauses_shift(fuel, cl, rest, h1, f, 0);
    } else if body.len() == 1 {
        assert(clause[1] == body[0]);
        assert(clause.len() == 2);
        assert(spec_eval_clauses(fuel, cl, 0, h, f) == spec_eval_sequence(fuel, clause, 1, h1, f, SpecValue::Nil));
        match spec_eval(fuel, body[0], h1, f) {
            None => {},
            Some((h2, Err(e))) => {},
            Some((h2, Ok(w))) => {
                assert(spec_eval_sequence(fuel, clause, 2, h2, f, w) == Some((h2, Ok::<SpecValue, SpecEvalError>(w))));
            },
        }
        assert(spec_eval_sequence(fuel, clause, 1, h1, f, SpecValue::Nil) == spec_eval(fuel, body[0], h1, f));
    }
}

/// Clauses after the first are evaluated as the clauses of `rest`.
proof fn lemma_clauses_shift(fuel: nat, cl: Seq<SpecSExpr>, rest: Seq<SpecSExpr>, h: Heap, f: nat, i: nat)
    requires
        cl.len() == rest.len() + 1,
        forall|j: int| 0 <= j < rest.len() ==> #[trigger] rest[j] == cl[j + 1],
    ensures
        spec_eval_clauses(fuel, cl, i + 1, h, f) == spec_eval_clauses(fuel, rest, i, h, f),
    decreases rest.len() - i,
{
    if i < rest.len() {
        assert(rest[i as int] == cl[i + 1 as int]);
        if let Some(c) = spec_extract_list(rest[i as int]) {
            if c.len() == 0 {
                lemma_clauses_shift(fuel, cl, rest, h, f, i + 1);
            } else {
                match spec_eval(fuel, c[0], h, f) {
                    Some((h1, Ok(w))) => {
                        if w is Nil {
                            lemma_clauses_shift(fuel, cl, rest, h1, f, i + 1);
                        }
                    },
                    _ => {},
                }
            }
        }
    }
}

} // verus!
