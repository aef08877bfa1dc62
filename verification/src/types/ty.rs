//! The types the checker works with.
use vstd::prelude::*;

verus! {

broadcast use vstd::std_specs::vec::group_vec_axioms;

#[derive(Debug)]
pub enum Type {
    Number,
    String,
    Boolean,
    Void,
    Null,
    Undefined,
    Function { params: Vec<Type>, return_type: Box<Type> },
    Array(Box<Type>),
    /// Object with known field names and types (ordered)
    Object { fields: Vec<(String, Type)> },
    /// A named class type. `fields` stores the instance fields + methods.
    Class { name: String, fields: Vec<(String, Type)> },
    /// Union type: string | number
    Union(Vec<Type>),
    /// Intersection of types that have no fields to merge
    Intersection(Vec<Type>),
    /// Tuple type: [number, string]
    Tuple(Vec<Type>),
    /// String literal type: "red"
    StringLiteral(String),
    /// Number literal type, by its canonical decimal text
    NumberLiteral(String),
    // Used internally when a type cannot be determined
    Unknown,
}

/// Structural equality of types: same variant, equal names and literals, and
/// pairwise equal component types.
pub open spec fn type_eq(a: Type, b: Type) -> bool
    decreases a,
{
    match (a, b) {
        (Type::Number, Type::Number) => true,
        (Type::String, Type::String) => true,
        (Type::Boolean, Type::Boolean) => true,
        (Type::Void, Type::Void) => true,
        (Type::Null, Type::Null) => true,
        (Type::Undefined, Type::Undefined) => true,
        (Type::Unknown, Type::Unknown) => true,
        (Type::Function { params: p1, return_type: r1 }, Type::Function { params: p2, return_type: r2 }) =>
            types_eq(p1@, p2@) && type_eq(*r1, *r2),
        (Type::Array(x), Type::Array(y)) => type_eq(*x, *y),
        (Type::Object { fields: f1 }, Type::Object { fields: f2 }) => fields_eq(f1@, f2@),
        (Type::Class { name: n1, fields: f1 }, Type::Class { name: n2, fields: f2 }) =>
            n1@ == n2@ && fields_eq(f1@, f2@),
        (Type::Union(v1), Type::Union(v2)) => types_eq(v1@, v2@),
        (Type::Intersection(v1), Type::Intersection(v2)) => types_eq(v1@, v2@),
        (Type::Tuple(v1), Type::Tuple(v2)) => types_eq(v1@, v2@),
        (Type::StringLiteral(s1), Type::StringLiteral(s2)) => s1@ == s2@,
        (Type::NumberLiteral(s1), Type::NumberLiteral(s2)) => s1@ == s2@,
        _ => false,
    }
}

/// Pairwise structural equality of two type lists.
pub open spec fn types_eq(s1: Seq<Type>, s2: Seq<Type>) -> bool
    decreases s1,
{
    if s1.len() != s2.len() {
        false
    } else if s1.len() == 0 {
        true
    } else {
        type_eq(s1[0], s2[0]) && types_eq(s1.subrange(1, s1.len() as int), s2.subrange(1, s2.len() as int))
    }
}

/// Pairwise equality of two field lists: equal names and structurally equal types.
pub open spec fn fields_eq(s1: Seq<(String, Type)>, s2: Seq<(String, Type)>) -> bool
    decreases s1,
{
    if s1.len() != s2.len() {
        false
    } else if s1.len() == 0 {
        true
    } else {
        s1[0].0@ == s2[0].0@ && type_eq(s1[0].1, s2[0].1) && fields_eq(
            s1.subrange(1, s1.len() as int),
            s2.subrange(1, s2.len() as int),
        )
    }
}

} // verus!

verus! {

/// Element-wise form of `types_eq`.
pub proof fn lemma_types_eq_pointwise(s1: Seq<Type>, s2: Seq<Type>)
    ensures
        types_eq(s1, s2) == (s1.len() == s2.len() && forall|i: int|
            0 <= i < s1.len() ==> #[trigger] type_eq(s1[i], s2[i])),
    decreases s1.len(),
{
    if s1.len() != s2.len() || s1.len() == 0 {
        return;
    }
    let t1 = s1.subrange(1, s1.len() as int);
    let t2 = s2.subrange(1, s2.len() as int);
    lemma_types_eq_pointwise(t1, t2);
    assert(types_eq(s1, s2) == (type_eq(s1[0], s2[0]) && types_eq(t1, t2)));
    if forall|i: int| 0 <= i < s1.len() ==> #[trigger] type_eq(s1[i], s2[i]) {
        assert(type_eq(s1[0], s2[0]));
        assert forall|i: int| 0 <= i < t1.len() implies #[trigger] type_eq(t1[i], t2[i]) by {
            assert(type_eq(s1[i + 1], s2[i + 1]));
            assert(t1[i] == s1[i + 1]);
            assert(t2[i] == s2[i + 1]);
        }
    }
    if types_eq(s1, s2) {
        assert forall|i: int| 0 <= i < s1.len() implies #[trigger] type_eq(s1[i], s2[i]) by {
            if i > 0 {
                assert(type_eq(t1[i - 1], t2[i - 1]));
                assert(t1[i - 1] == s1[i]);
                assert(t2[i - 1] == s2[i]);
            }
        }
    }
}

/// Whether two fields have equal names and structurally equal types.
pub open spec fn field_eq(f1: (String, Type), f2: (String, Type)) -> bool {
    f1.0@ == f2.0@ && type_eq(f1.1, f2.1)
}

/// Element-wise form of `fields_eq`.
pub proof fn lemma_fields_eq_pointwise(s1: Seq<(String, Type)>, s2: Seq<(String, Type)>)
    ensures
        fields_eq(s1, s2) == (s1.len() == s2.len() && forall|i: int|
            0 <= i < s1.len() ==> #[trigger] field_eq(s1[i], s2[i])),
    decreases s1.len(),
{
    if s1.len() != s2.len() || s1.len() == 0 {
        return;
    }
    let t1 = s1.subrange(1, s1.len() as int);
    let t2 = s2.subrange(1, s2.len() as int);
    lemma_fields_eq_pointwise(t1, t2);
    assert(fields_eq(s1, s2) == (field_eq(s1[0], s2[0]) && fields_eq(t1, t2)));
    if forall|i: int| 0 <= i < s1.len() ==> #[trigger] field_eq(s1[i], s2[i]) {
        assert(field_eq(s1[0], s2[0]));
        assert forall|i: int| 0 <= i < t1.len() implies #[trigger] field_eq(t1[i], t2[i]) by {
            assert(field_eq(s1[i + 1], s2[i + 1]));
            assert(t1[i] == s1[i + 1]);
            assert(t2[i] == s2[i + 1]);
        }
    }
    if fields_eq(s1, s2) {
        assert forall|i: int| 0 <= i < s1.len() implies #[trigger] field_eq(s1[i], s2[i]) by {
            if i > 0 {
                assert(field_eq(t1[i - 1], t2[i - 1]));
                assert(t1[i - 1] == s1[i]);
                assert(t2[i - 1] == s2[i]);
            }
        }
    }
}

/// Every type is structurally equal to itself.
pub proof fn lemma_type_eq_refl(t: Type)
    ensures
        type_eq(t, t),
    decreases t,
{
    match t {
        Type::Function { params, return_type } => {
            lemma_types_eq_refl(params@);
            lemma_type_eq_refl(*return_type);
        },
        Type::Array(x) => lemma_type_eq_refl(*x),
        Type::Object { fields } => lemma_fields_eq_refl(fields@),
        Type::Class { name, fields } => lemma_fields_eq_refl(fields@),
        Type::Union(v) => lemma_types_eq_refl(v@),
        Type::Intersection(v) => lemma_types_eq_refl(v@),
        Type::Tuple(v) => lemma_types_eq_refl(v@),
        _ => {},
    }
}

pub proof fn lemma_types_eq_refl(s: Seq<Type>)
    ensures
        types_eq(s, s),
    decreases s,
{
    if s.len() > 0 {
        lemma_type_eq_refl(s[0]);
        lemma_types_eq_refl(s.subrange(1, s.len() as int));
    }
}

pub proof fn lemma_fields_eq_refl(s: Seq<(String, Type)>)
    ensures
        fields_eq(s, s),
    decreases s,
{
    if s.len() > 0 {
        lemma_type_eq_refl(s[0].1);
        lemma_fields_eq_refl(s.subrange(1, s.len() as int));
    }
}

impl Type {
    /// Structural equality (`==` on types).
    pub fn equals(&self, other: &Type) -> (r: bool)
        ensures
            r == type_eq(*self, *other),
        decreases self,
    {
        match (self, other) {
            (Type::Number, Type::Number) => true,
            (Type::String, Type::String) => true,
            (Type::Boolean, Type::Boolean) => true,
            (Type::Void, Type::Void) => true,
            (Type::Null, Type::Null) => true,
            (Type::Undefined, Type::Undefined) => true,
            (Type::Unknown, Type::Unknown) => true,
            (
                Type::Function { params: p1, return_type: r1 },
                Type::Function { params: p2, return_type: r2 },
            ) => equal_lists(p1, p2) && r1.equals(r2),
            (Type::Array(x), Type::Array(y)) => x.equals(y),
            (Type::Object { fields: f1 }, Type::Object { fields: f2 }) => equal_fields(f1, f2),
            (Type::Class { name: n1, fields: f1 }, Type::Class { name: n2, fields: f2 }) => {
                *n1 == *n2 && equal_fields(f1, f2)
            },
            (Type::Union(v1), Type::Union(v2)) => equal_lists(v1, v2),
            (Type::Intersection(v1), Type::Intersection(v2)) => equal_lists(v1, v2),
            (Type::Tuple(v1), Type::Tuple(v2)) => equal_lists(v1, v2),
            (Type::StringLiteral(s1), Type::StringLiteral(s2)) => *s1 == *s2,
            (Type::NumberLiteral(s1), Type::NumberLiteral(s2)) => *s1 == *s2,
            _ => false,
        }
    }

    /// Whether this is the `unknown` type.
    pub fn is_unknown(&self) -> (r: bool)
        ensures
            r == (*self is Unknown),
    {
        match self {
            Type::Unknown => true,
            _ => false,
        }
    }

    /// A copy of this type, structurally equal to it.
    pub fn deep_copy(&self) -> (r: Type)
        ensures
            type_eq(r, *self),
            r is Number <==> *self is Number,
            r is String <==> *self is String,
            r is Boolean <==> *self is Boolean,
            r is Void <==> *self is Void,
            r is Null <==> *self is Null,
            r is Undefined <==> *self is Undefined,
            r is Unknown <==> *self is Unknown,
            r is Function <==> *self is Function,
            r is Array <==> *self is Array,
            r is Object <==> *self is Object,
            r is Class <==> *self is Class,
            r is Union <==> *self is Union,
            r is Tuple <==> *self is Tuple,
        decreases self,
    {
        let r = match self {
            Type::Number => Type::Number,
            Type::String => Type::String,
            Type::Boolean => Type::Boolean,
            Type::Void => Type::Void,
            Type::Null => Type::Null,
            Type::Undefined => Type::Undefined,
            Type::Unknown => Type::Unknown,
            Type::Function { params, return_type } => Type::Function {
                params: copy_types(params),
                return_type: Box::new(return_type.deep_copy()),
            },
            Type::Array(x) => Type::Array(Box::new(x.deep_copy())),
            Type::Object { fields } => Type::Object { fields: copy_fields(fields) },
            Type::Class { name, fields } => Type::Class {
                name: name.clone(),
                fields: copy_fields(fields),
            },
            Type::Union(v) => Type::Union(copy_types(v)),
            Type::Intersection(v) => Type::Intersection(copy_types(v)),
            Type::Tuple(v) => Type::Tuple(copy_types(v)),
            Type::StringLiteral(s) => Type::StringLiteral(s.clone()),
            Type::NumberLiteral(s) => Type::NumberLiteral(s.clone()),
        };
        r
    }

    /// The type as TypeScript writes it, as in error messages.
    pub fn to_display_string(&self) -> (r: String)
        ensures
            r@ == type_text(*self),
    {
        let mut s = String::new();
        self.append_display(&mut s);
        assert(s@ =~= type_text(*self));
        s
    }

    fn append_display(&self, out: &mut String)
        ensures
            final(out)@ == old(out)@ + type_text(*self),
        decreases self,
    {
        match self {
            Type::Number => out.append("number"),
            Type::String => out.append("string"),
            Type::Boolean => out.append("boolean"),
            Type::Void => out.append("void"),
            Type::Null => out.append("null"),
            Type::Undefined => out.append("undefined"),
            Type::Unknown => out.append("unknown"),
            Type::Function { params, return_type } => {
                out.append("(");
                append_list(params, ", ", out);
                out.append(") => ");
                return_type.append_display(out);
            },
            Type::Array(elem) => {
                elem.append_display(out);
                out.append("[]");
            },
            Type::Object { fields } => {
                out.append("{ ");
                append_fields(fields, out);
                out.append(" }");
            },
            Type::Class { name, .. } => out.append(name.as_str()),
            Type::Union(v) => append_list(v, " | ", out),
            Type::Intersection(v) => append_list(v, " & ", out),
            Type::Tuple(v) => {
                out.append("[");
                append_list(v, ", ", out);
                out.append("]");
            },
            Type::StringLiteral(s) => {
                out.append("\"");
                out.append(s.as_str());
                out.append("\"");
            },
            Type::NumberLiteral(s) => out.append(s.as_str()),
        }
    }
}

/// How a type is written: TypeScript syntax for each kind of type.
pub open spec fn type_text(t: Type) -> Seq<char>
    decreases t,
{
    match t {
        Type::Number => "number"@,
        Type::String => "string"@,
        Type::Boolean => "boolean"@,
        Type::Void => "void"@,
        Type::Null => "null"@,
        Type::Undefined => "undefined"@,
        Type::Unknown => "unknown"@,
        Type::Function { params, return_type } => "("@ + list_text(params@, ", "@) + ") => "@
            + type_text(*return_type),
        Type::Array(elem) => type_text(*elem) + "[]"@,
        Type::Object { fields } => "{ "@ + fields_text(fields@) + " }"@,
        Type::Class { name, .. } => name@,
        Type::Union(v) => list_text(v@, " | "@),
        Type::Intersection(v) => list_text(v@, " & "@),
        Type::Tuple(v) => "["@ + list_text(v@, ", "@) + "]"@,
        Type::StringLiteral(s) => "\""@ + s@ + "\""@,
        Type::NumberLiteral(s) => s@,
    }
}

/// Types written one after the other, separated by `sep`.
pub open spec fn list_text(s: Seq<Type>, sep: Seq<char>) -> Seq<char>
    decreases s,
{
    if s.len() == 0 {
        Seq::empty()
    } else if s.len() == 1 {
        type_text(s[0])
    } else {
        list_text(s.subrange(0, s.len() - 1), sep) + sep + type_text(s[s.len() - 1])
    }
}

/// Fields written as `name: type`, separated by `, `.
pub open spec fn fields_text(s: Seq<(String, Type)>) -> Seq<char>
    decreases s,
{
    if s.len() == 0 {
        Seq::empty()
    } else if s.len() == 1 {
        s[0].0@ + ": "@ + type_text(s[0].1)
    } else {
        fields_text(s.subrange(0, s.len() - 1)) + ", "@ + s[s.len() - 1].0@ + ": "@ + type_text(
            s[s.len() - 1].1,
        )
    }
}

fn append_list(v: &Vec<Type>, sep: &str, out: &mut String)
    ensures
        final(out)@ == old(out)@ + list_text(v@, sep@),
    decreases v,
{
    let ghost base = out@;
    let mut i: usize = 0;
    while i < v.len()
        invariant
            i <= v@.len(),
            out@ == base + list_text(v@.take(i as int), sep@),
        decreases v@.len() - i,
    {
        let ghost prefix = v@.take(i as int);
        if i > 0 {
            out.append(sep);
        }
        v[i].append_display(out);
        proof {
            let next = v@.take(i + 1);
            assert(next.subrange(0, next.len() - 1) =~= prefix);
            assert(next[next.len() - 1] == v@[i as int]);
            if i == 0 {
                assert(next.len() == 1);
            }
        }
        i = i + 1;
    }
    assert(v@.take(i as int) =~= v@);
}

fn append_fields(v: &Vec<(String, Type)>, out: &mut String)
    ensures
        final(out)@ == old(out)@ + fields_text(v@),
    decreases v,
{
    let ghost base = out@;
    let mut i: usize = 0;
    while i < v.len()
        invariant
            i <= v@.len(),
            out@ == base + fields_text(v@.take(i as int)),
        decreases v@.len() - i,
    {
        let ghost prefix = v@.take(i as int);
        if i > 0 {
            out.append(", ");
        }
        out.append(v[i].0.as_str());
        out.append(": ");
        assert(decreases_to!(v => v@[i as int]));
        v[i].1.append_display(out);
        proof {
            let next = v@.take(i + 1);
            assert(next.subrange(0, next.len() - 1) =~= prefix);
            assert(next[next.len() - 1] == v@[i as int]);
        }
        i = i + 1;
    }
    assert(v@.take(i as int) =~= v@);
}

fn equal_lists(a: &Vec<Type>, b: &Vec<Type>) -> (r: bool)
    ensures
        r == types_eq(a@, b@),
    decreases a,
{
    proof {
        lemma_types_eq_pointwise(a@, b@);
    }
    if a.len() != b.len() {
        return false;
    }
    let mut i: usize = 0;
    while i < a.len()
        invariant
            i <= a@.len(),
            a@.len() == b@.len(),
            forall|j: int| 0 <= j < i ==> #[trigger] type_eq(a@[j], b@[j]),
        decreases a@.len() - i,
    {
        if !a[i].equals(&b[i]) {
            assert(!type_eq(a@[i as int], b@[i as int]));
            proof {
                lemma_types_eq_pointwise(a@, b@);
            }
            return false;
        }
        i = i + 1;
    }
    true
}

fn equal_fields(a: &Vec<(String, Type)>, b: &Vec<(String, Type)>) -> (r: bool)
    ensures
        r == fields_eq(a@, b@),
    decreases a,
{
    proof {
        lemma_fields_eq_pointwise(a@, b@);
    }
    if a.len() != b.len() {
        return false;
    }
    let mut i: usize = 0;
    while i < a.len()
        invariant
            i <= a@.len(),
            a@.len() == b@.len(),
            forall|j: int| 0 <= j < i ==> #[trigger] field_eq(a@[j], b@[j]),
        decreases a@.len() - i,
    {
        assert(decreases_to!(a => a@[i as int]));
        if !(a[i].0 == b[i].0) || !a[i].1.equals(&b[i].1) {
            assert(!field_eq(a@[i as int], b@[i as int]));
            proof {
                lemma_fields_eq_pointwise(a@, b@);
            }
            return false;
        }
        assert(field_eq(a@[i as int], b@[i as int]));
        i = i + 1;
    }
    true
}

/// A copy of a type list, pairwise structurally equal to it.
pub fn copy_types(v: &Vec<Type>) -> (r: Vec<Type>)
    ensures
        types_eq(r@, v@),
    decreases v,
{
    let mut out: Vec<Type> = Vec::new();
    let mut i: usize = 0;
    while i < v.len()
        invariant
            i <= v@.len(),
            out@.len() == i,
            forall|j: int| 0 <= j < i ==> #[trigger] type_eq(out@[j], v@[j]),
        decreases v@.len() - i,
    {
        out.push(v[i].deep_copy());
        i = i + 1;
    }
    proof {
        lemma_types_eq_pointwise(out@, v@);
    }
    out
}

/// A copy of a field list, with equal names and structurally equal types.
pub fn copy_fields(v: &Vec<(String, Type)>) -> (r: Vec<(String, Type)>)
    ensures
        fields_eq(r@, v@),
    decreases v,
{
    let mut out: Vec<(String, Type)> = Vec::new();
    let mut i: usize = 0;
    while i < v.len()
        invariant
            i <= v@.len(),
            out@.len() == i,
            forall|j: int| 0 <= j < i ==> #[trigger] field_eq(out@[j], v@[j]),
        decreases v@.len() - i,
    {
        assert(decreases_to!(v => v@[i as int]));
        out.push((v[i].0.clone(), v[i].1.deep_copy()));
        assert(field_eq(out@[i as int], v@[i as int]));
        i = i + 1;
    }
    proof {
        lemma_fields_eq_pointwise(out@, v@);
    }
    out
}

} // verus!
