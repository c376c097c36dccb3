//! Writes values in dotted-pair notation.
use crate::evaluator::Value;
use crate::semantics::SpecValue;
use vstd::prelude::*;
use vstd::string::StringExecFns;

verus! {

/// The text of a value: an atom is its name, the empty list is `nil`, a pair
/// is `(car . cdr)`, and functions are `<builtin>` and `<lambda>`.
pub open spec fn spec_format(v: SpecValue) -> Seq<char>
    decreases v,
{
    match v {
        SpecValue::Atom(s) => s,
        SpecValue::Nil => seq!['n', 'i', 'l'],
        SpecValue::Cons(a, d) => seq!['('] + spec_format(*a) + seq![' ', '.', ' '] + spec_format(*d)
            + seq![')'],
        SpecValue::Builtin(_) => seq!['<', 'b', 'u', 'i', 'l', 't', 'i', 'n', '>'],
        SpecValue::Lambda(_) => seq!['<', 'l', 'a', 'm', 'b', 'd', 'a', '>'],
    }
}

/// Writes `v` in dotted-pair notation.
pub fn format_value(v: &Value) -> (s: String)
    ensures
        s@ == spec_format(v@),
    decreases v,
{
    proof {
        reveal_strlit("nil");
        reveal_strlit("(");
        reveal_strlit(" . ");
        reveal_strlit(")");
        reveal_strlit("<builtin>");
        reveal_strlit("<lambda>");
    }
    match v {
        Value::Atom(s) => s.clone(),
        Value::Nil => {
            let s = String::from_str("nil");
            assert(s@ =~= seq!['n', 'i', 'l']);
            s
        },
        Value::Cons(car, cdr) => {
            let car_ref: &Value = &**car;
            let cdr_ref: &Value = &**cdr;
            let a = format_value(car_ref);
            let d = format_value(cdr_ref);
            let mut s = String::from_str("(");
            s.append(a.as_str());
            s.append(" . ");
            s.append(d.as_str());
            s.append(")");
            assert(s@ =~= spec_format(v@));
            s
        },
        Value::Builtin(_) => {
            let s = String::from_str("<builtin>");
            assert(s@ =~= spec_format(v@));
            s
        },
        Value::Lambda(_) => {
            let s = String::from_str("<lambda>");
            assert(s@ =~= spec_format(v@));
            s
        },
    }
}

} // verus!
