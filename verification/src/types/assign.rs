//! Assignability between types.
use vstd::prelude::*;

use crate::types::ty::{lemma_type_eq_refl, type_eq, Type};

verus! {

broadcast use vstd::std_specs::vec::group_vec_axioms;

/// Whether a value of type `from` may be used where `to` is expected.
pub open spec fn assignable(from: Type, to: Type) -> bool
    decreases from, to, 0nat,
{
    if type_eq(from, to) {
        true
    } else if from is Unknown || to is Unknown {
        true
    } else if from is StringLiteral && to is String {
        // Literal types are subtypes of their primitive types
        true
    } else if from is NumberLiteral && to is Number {
        true
    } else if from is String && to is StringLiteral {
        // Primitives accept their literal types as targets too (for widening)
        true
    } else if from is Number && to is NumberLiteral {
        true
    } else {
        match to {
            // A value is assignable TO a union if it's assignable to any variant
            Type::Union(variants) => assignable_to_some(from, variants@, 0),
            _ => match from {
                // A union is assignable FROM if all variants are assignable to the target
                Type::Union(variants) => all_assignable_to(variants@, to, 0),
                // Object structural compatibility: from has all fields of to
                Type::Object { fields: ff } => match to {
                    Type::Object { fields: tf } => fields_cover(ff@, tf@, 0),
                    _ => false,
                },
                // Class instance is assignable to Object with matching fields,
                // and to a class of the same name
                Type::Class { name: n1, fields: ff } => match to {
                    Type::Object { fields: tf } => fields_cover(ff@, tf@, 0),
                    Type::Class { name: n2, .. } => n1@ == n2@,
                    _ => false,
                },
                // Function types: same arity, parameters and results assignable in order
                Type::Function { params: p1, return_type: r1 } => match to {
                    Type::Function { params: p2, return_type: r2 } => p1@.len() == p2@.len()
                        && pairwise_assignable(p1@, p2@, 0) && assignable(*r1, *r2),
                    _ => false,
                },
                // Tuples: same length, elements assignable in order
                Type::Tuple(e1) => match to {
                    Type::Tuple(e2) => e1@.len() == e2@.len() && pairwise_assignable(e1@, e2@, 0),
                    _ => false,
                },
                _ => false,
            },
        }
    }
}

/// `from` is assignable to one of `vs[i..]`.
pub open spec fn assignable_to_some(from: Type, vs: Seq<Type>, i: int) -> bool
    decreases from, vs, vs.len() - i,
{
    if 0 <= i < vs.len() {
        assignable(from, vs[i]) || assignable_to_some(from, vs, i + 1)
    } else {
        false
    }
}

/// Every one of `vs[i..]` is assignable to `to`.
pub open spec fn all_assignable_to(vs: Seq<Type>, to: Type, i: int) -> bool
    decreases vs, to, vs.len() - i,
{
    if 0 <= i < vs.len() {
        assignable(vs[i], to) && all_assignable_to(vs, to, i + 1)
    } else {
        true
    }
}

/// `xs[i..]` and `ys[i..]` are assignable element by element (up to the shorter one).
pub open spec fn pairwise_assignable(xs: Seq<Type>, ys: Seq<Type>, i: int) -> bool
    decreases xs, ys, xs.len() - i,
{
    if 0 <= i < xs.len() && i < ys.len() {
        assignable(xs[i], ys[i]) && pairwise_assignable(xs, ys, i + 1)
    } else {
        true
    }
}

/// Every field in `tf[i..]` is matched by a field of `ff` of the same name and
/// an assignable type.
pub open spec fn fields_cover(ff: Seq<(String, Type)>, tf: Seq<(String, Type)>, i: int) -> bool
    decreases ff, tf, tf.len() - i,
{
    if 0 <= i < tf.len() {
        has_field(ff, tf[i].0@, tf[i].1, 0) && fields_cover(ff, tf, i + 1)
    } else {
        true
    }
}

/// Some field in `ff[j..]` is named `name` and has a type assignable to `ty`.
pub open spec fn has_field(ff: Seq<(String, Type)>, name: Seq<char>, ty: Type, j: int) -> bool
    decreases ff, ty, ff.len() - j,
{
    if 0 <= j < ff.len() {
        (ff[j].0@ == name && assignable(ff[j].1, ty)) || has_field(ff, name, ty, j + 1)
    } else {
        false
    }
}

/// Executable form of `assignable`.
pub fn is_assignable(from: &Type, to: &Type) -> (r: bool)
    ensures
        r == assignable(*from, *to),
    decreases *from, *to, 0nat,
{
    if from.equals(to) {
        return true;
    }
    if from.is_unknown() || to.is_unknown() {
        return true;
    }
    match (from, to) {
        (Type::StringLiteral(_), Type::String) => { return true; },
        (Type::NumberLiteral(_), Type::Number) => { return true; },
        (Type::String, Type::StringLiteral(_)) => { return true; },
        (Type::Number, Type::NumberLiteral(_)) => { return true; },
        _ => {},
    }
    if let Type::Union(variants) = to {
        return assignable_to_some_exec(from, variants, 0);
    }
    match from {
        Type::Union(variants) => all_assignable_to_exec(variants, to, 0),
        Type::Object { fields: ff } => match to {
            Type::Object { fields: tf } => fields_cover_exec(ff, tf, 0),
            _ => false,
        },
        Type::Class { name: n1, fields: ff } => match to {
            Type::Object { fields: tf } => fields_cover_exec(ff, tf, 0),
            Type::Class { name: n2, .. } => *n1 == *n2,
            _ => false,
        },
        Type::Function { params: p1, return_type: r1 } => match to {
            Type::Function { params: p2, return_type: r2 } => {
                if p1.len() != p2.len() {
                    return false;
                }
                let params_ok = pairwise_assignable_exec(p1, p2, 0);
                let ret_ok = is_assignable(r1, r2);
                params_ok && ret_ok
            },
            _ => false,
        },
        Type::Tuple(e1) => match to {
            Type::Tuple(e2) => {
                if e1.len() != e2.len() {
                    return false;
                }
                pairwise_assignable_exec(e1, e2, 0)
            },
            _ => false,
        },
        _ => false,
    }
}

fn assignable_to_some_exec(from: &Type, vs: &Vec<Type>, i: usize) -> (r: bool)
    ensures
        r == assignable_to_some(*from, vs@, i as int),
    decreases *from, vs@, vs@.len() - i,
{
    if i < vs.len() {
        if is_assignable(from, &vs[i]) {
            true
        } else {
            assignable_to_some_exec(from, vs, i + 1)
        }
    } else {
        false
    }
}

fn all_assignable_to_exec(vs: &Vec<Type>, to: &Type, i: usize) -> (r: bool)
    ensures
        r == all_assignable_to(vs@, *to, i as int),
    decreases vs@, *to, vs@.len() - i,
{
    if i < vs.len() {
        if is_assignable(&vs[i], to) {
            all_assignable_to_exec(vs, to, i + 1)
        } else {
            false
        }
    } else {
        true
    }
}

fn pairwise_assignable_exec(xs: &Vec<Type>, ys: &Vec<Type>, i: usize) -> (r: bool)
    ensures
        r == pairwise_assignable(xs@, ys@, i as int),
    decreases xs@, ys@, xs@.len() - i,
{
    if i < xs.len() && i < ys.len() {
        if is_assignable(&xs[i], &ys[i]) {
            pairwise_assignable_exec(xs, ys, i + 1)
        } else {
            false
        }
    } else {
        true
    }
}

fn fields_cover_exec(ff: &Vec<(String, Type)>, tf: &Vec<(String, Type)>, i: usize) -> (r: bool)
    ensures
        r == fields_cover(ff@, tf@, i as int),
    decreases ff@, tf@, tf@.len() - i,
{
    if i < tf.len() {
        if has_field_exec(ff, &tf[i].0, &tf[i].1, 0) {
            fields_cover_exec(ff, tf, i + 1)
        } else {
            false
        }
    } else {
        true
    }
}

fn has_field_exec(ff: &Vec<(String, Type)>, name: &String, ty: &Type, j: usize) -> (r: bool)
    ensures
        r == has_field(ff@, name@, *ty, j as int),
    decreases ff@, *ty, ff@.len() - j,
{
    if j < ff.len() {
        if ff[j].0 == *name && is_assignable(&ff[j].1, ty) {
            true
        } else {
            has_field_exec(ff, name, ty, j + 1)
        }
    } else {
        false
    }
}

/// Every type is assignable to itself.
pub proof fn law_assignable_reflexive(t: Type)
    ensures
        assignable(t, t),
{
    lemma_type_eq_refl(t);
}

/// `unknown` accepts every type and is accepted by every type.
pub proof fn law_unknown_is_top_and_bottom(t: Type)
    ensures
        assignable(t, Type::Unknown),
        assignable(Type::Unknown, t),
{
}

/// Literal types widen to their primitive, and the primitive is accepted
/// where one of its literal types is expected.
pub proof fn law_literal_widening(s: String, n: String)
    ensures
        assignable(Type::StringLiteral(s), Type::String),
        assignable(Type::String, Type::StringLiteral(s)),
        assignable(Type::NumberLiteral(n), Type::Number),
        assignable(Type::Number, Type::NumberLiteral(n)),
{
}

proof fn lemma_to_some(from: Type, vs: Seq<Type>, i: int, k: int)
    requires
        0 <= i <= k < vs.len(),
        assignable(from, vs[k]),
    ensures
        assignable_to_some(from, vs, i),
    decreases k - i,
{
    if i < k {
        lemma_to_some(from, vs, i + 1, k);
    }
}

/// A type assignable to one member of a union is assignable to the union.
pub proof fn law_union_member(from: Type, variants: Vec<Type>, k: int)
    requires
        0 <= k < variants@.len(),
        assignable(from, variants@[k]),
    ensures
        assignable(from, Type::Union(variants)),
{
    lemma_to_some(from, variants@, 0, k);
}

proof fn lemma_all_to(vs: Seq<Type>, to: Type, i: int, k: int)
    requires
        0 <= i <= k < vs.len(),
        all_assignable_to(vs, to, i),
    ensures
        assignable(vs[k], to),
    decreases k - i,
{
    if i < k {
        lemma_all_to(vs, to, i + 1, k);
    }
}

/// A union assignable to a non-union target has every member assignable to it.
pub proof fn law_union_source(variants: Vec<Type>, to: Type, k: int)
    requires
        0 <= k < variants@.len(),
        !(to is Union),
        !(to is Unknown),
        !type_eq(Type::Union(variants), to),
        assignable(Type::Union(variants), to),
    ensures
        assignable(variants@[k], to),
{
    lemma_all_to(variants@, to, 0, k);
}

} // verus!
