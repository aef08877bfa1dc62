//! Programs made of several modules: what each module imports, the order in
//! which modules are checked (dependencies first), and checking one module
//! against the symbols its dependencies export.
use vstd::prelude::*;

use crate::diagnostics::CompileError;
use crate::parser::ast::{ImportSpecifier, Program, Statement, StmtKind};
use crate::types::checker::{
    checks_fresh, export_typed, exported_function, hoisted_start, infallible_stmt, lemma_entry_for_none,
    lemma_fresh_start, type_error, Scope, TypeChecker,
};
use crate::types::ty::{type_eq, Type};
use crate::text::eq_str;

verus! {

broadcast use vstd::std_specs::vec::group_vec_axioms;

/// The import sources of the first statements of a program, in order.
pub open spec fn imports_of(stmts: Seq<Statement>) -> Seq<Seq<char>>
    decreases stmts.len(),
{
    if stmts.len() == 0 {
        Seq::empty()
    } else {
        let prev = imports_of(stmts.drop_last());
        match stmts.last().kind {
            StmtKind::Import { source, .. } => prev.push(source@),
            _ => prev,
        }
    }
}

/// The sources a program imports from, in order.
pub fn import_sources(program: &Program) -> (r: Vec<String>)
    ensures
        r@.len() == imports_of(program.statements@).len(),
        forall|i: int| 0 <= i < r@.len() ==> #[trigger] r@[i]@ == imports_of(program.statements@)[i],
{
    let stmts = &program.statements;
    let mut out: Vec<String> = Vec::new();
    let mut i: usize = 0;
    while i < stmts.len()
        invariant
            i <= stmts@.len(),
            out@.len() == imports_of(stmts@.take(i as int)).len(),
            forall|j: int| 0 <= j < out@.len() ==> #[trigger] out@[j]@ == imports_of(
                stmts@.take(i as int),
            )[j],
        decreases stmts@.len() - i,
    {
        assert(stmts@.take(i + 1).drop_last() =~= stmts@.take(i as int));
        assert(stmts@.take(i + 1).last() == stmts@[i as int]);
        if let StmtKind::Import { source, .. } = &stmts[i].kind {
            out.push(source.clone());
        }
        i = i + 1;
    }
    assert(stmts@.take(stmts@.len() as int) =~= stmts@);
    out
}

/// Some entry is recorded under the name `n`.
pub open spec fn has_key(m: Seq<(String, Type)>, n: Seq<char>) -> bool {
    exists|j: int| 0 <= j < m.len() && #[trigger] m[j].0@ == n
}

/// `entry` binds the local name of one of `specs` to the type that `exports`
/// records under that specifier's imported name.
pub open spec fn imported_from(
    entry: (String, Type),
    specs: Seq<ImportSpecifier>,
    exports: Seq<(String, Type)>,
) -> bool {
    exists|k: int, j: int|
        #![trigger specs[k], exports[j]]
        0 <= k < specs.len() && 0 <= j < exports.len() && entry.0@ == specs[k].local@
            && exports[j].0@ == specs[k].imported@ && type_eq(entry.1, exports[j].1)
}

/// The index of the first export from `j` on recorded under `name`, if any.
pub open spec fn first_export(exports: Seq<(String, Type)>, name: Seq<char>, j: int) -> Option<int>
    decreases exports.len() - j,
{
    if !(0 <= j < exports.len()) {
        None
    } else if exports[j].0@ == name {
        Some(j)
    } else {
        first_export(exports, name, j + 1)
    }
}

/// What the specifiers import from `exports`, in order: for each specifier
/// whose imported name is exported, its local name and the index of the
/// first export under that name.
pub open spec fn imports_found(specs: Seq<ImportSpecifier>, exports: Seq<(String, Type)>) -> Seq<
    (Seq<char>, int),
>
    decreases specs.len(),
{
    if specs.len() == 0 {
        Seq::empty()
    } else {
        let prev = imports_found(specs.drop_last(), exports);
        match first_export(exports, specs.last().imported@, 0) {
            Some(f) => prev.push((specs.last().local@, f)),
            None => prev,
        }
    }
}

proof fn lemma_first_export_found(exports: Seq<(String, Type)>, name: Seq<char>, j: int, f: int)
    requires
        0 <= j <= f < exports.len(),
        exports[f].0@ == name,
        forall|k: int| j <= k < f ==> exports[k].0@ != name,
    ensures
        first_export(exports, name, j) == Some(f),
    decreases f - j,
{
    if j < f {
        lemma_first_export_found(exports, name, j + 1, f);
    }
}

proof fn lemma_first_export_missing(exports: Seq<(String, Type)>, name: Seq<char>, j: int)
    requires
        0 <= j,
        forall|k: int| j <= k < exports.len() ==> exports[k].0@ != name,
    ensures
        first_export(exports, name, j) is None,
    decreases exports.len() - j,
{
    if j < exports.len() {
        lemma_first_export_missing(exports, name, j + 1);
    }
}

/// The symbols a module imports: for each specifier whose name the
/// dependency exports, in order, the local name bound to (a copy of) the
/// type of the first export under that name.
pub fn imported_symbols_for(specifiers: &Vec<ImportSpecifier>, exports: &Vec<(String, Type)>) -> (r:
    Vec<(String, Type)>)
    ensures
        r@.len() == imports_found(specifiers@, exports@).len(),
        forall|i: int|
            0 <= i < r@.len() ==> {
                let (local, f) = imports_found(specifiers@, exports@)[i];
                &&& (#[trigger] r@[i]).0@ == local
                &&& type_eq(r@[i].1, exports@[f].1)
            },
        forall|k: int|
            0 <= k < specifiers@.len() && has_key(exports@, #[trigger] specifiers@[k].imported@)
                ==> has_key(r@, specifiers@[k].local@),
        forall|i: int| 0 <= i < r@.len() ==> imported_from(#[trigger] r@[i], specifiers@, exports@),
{
    let mut out: Vec<(String, Type)> = Vec::new();
    let mut k: usize = 0;
    while k < specifiers.len()
        invariant
            k <= specifiers@.len(),
            out@.len() == imports_found(specifiers@.take(k as int), exports@).len(),
            forall|i: int|
                0 <= i < out@.len() ==> {
                    let (local, f) = imports_found(specifiers@.take(k as int), exports@)[i];
                    &&& (#[trigger] out@[i]).0@ == local
                    &&& 0 <= f < exports@.len()
                    &&& type_eq(out@[i].1, exports@[f].1)
                },
            forall|k2: int|
                0 <= k2 < k && has_key(exports@, #[trigger] specifiers@[k2].imported@) ==> has_key(
                    out@,
                    specifiers@[k2].local@,
                ),
            forall|i: int| 0 <= i < out@.len() ==> imported_from(#[trigger] out@[i], specifiers@, exports@),
        decreases specifiers@.len() - k,
    {
        let spec_k = &specifiers[k];
        let mut j: usize = 0;
        let mut found: Option<usize> = None;
        while j < exports.len()
            invariant
                j <= exports@.len(),
                found is None ==> forall|j2: int| 0 <= j2 < j ==> exports@[j2].0@ != spec_k.imported@,
                found matches Some(f) ==> f < j && exports@[f as int].0@ == spec_k.imported@
                    && forall|j2: int| 0 <= j2 < f ==> exports@[j2].0@ != spec_k.imported@,
            decreases exports@.len() - j,
        {
            if found.is_none() && eq_str(&exports[j].0, spec_k.imported.as_str()) {
                found = Some(j);
            }
            j = j + 1;
        }
        let ghost before = out@;
        let ghost prefix = specifiers@.take(k as int);
        proof {
            assert(specifiers@.take(k + 1).drop_last() =~= prefix);
            assert(specifiers@.take(k + 1).last() == specifiers@[k as int]);
            assert(specifiers@[k as int] == *spec_k);
        }
        match found {
            Some(f) => {
                proof {
                    lemma_first_export_found(exports@, spec_k.imported@, 0, f as int);
                }
                let t = exports[f].1.deep_copy();
                out.push((spec_k.local.clone(), t));
                proof {
                    let last = out@[before.len() as int];
                    assert(last.0@ == specifiers@[k as int].local@);
                    assert(imported_from(last, specifiers@, exports@)) by {
                        assert(exports@[f as int].0@ == specifiers@[k as int].imported@);
                    }
                    assert forall|i: int| 0 <= i < out@.len() implies imported_from(#[trigger] out@[i], specifiers@, exports@) by {
                        if i < before.len() {
                            assert(out@[i] == before[i]);
                        }
                    }
                    assert forall|i: int| 0 <= i < out@.len() implies {
                        let (local, f2) = imports_found(specifiers@.take(k + 1), exports@)[i];
                        &&& (#[trigger] out@[i]).0@ == local
                        &&& 0 <= f2 < exports@.len()
                        &&& type_eq(out@[i].1, exports@[f2].1)
                    } by {
                        if i < before.len() {
                            assert(out@[i] == before[i]);
                        }
                    }
                    assert forall|k2: int|
                        0 <= k2 < k + 1 && has_key(exports@, #[trigger] specifiers@[k2].imported@) implies has_key(
                            out@,
                            specifiers@[k2].local@,
                        ) by {
                        if k2 < k {
                            let i = choose|i: int| 0 <= i < before.len() && #[trigger] before[i].0@ == specifiers@[k2].local@;
                            assert(out@[i] == before[i]);
                        } else {
                            assert(out@[before.len() as int].0@ == specifiers@[k2].local@);
                        }
                    }
                }
            },
            None => {
                proof {
                    lemma_first_export_missing(exports@, spec_k.imported@, 0);
                    assert(!has_key(exports@, specifiers@[k as int].imported@));
                }
            },
        }
        k = k + 1;
    }
    assert(specifiers@.take(specifiers@.len() as int) =~= specifiers@);
    out
}

/// Checks one module with the symbols it imports, and returns the symbols it
/// exports: among them, every function the module declares as exported,
/// with its signature where no later statement can replace it
/// (`export_typed`). A
/// module whose statements cannot fail is accepted; otherwise its statements
/// are checked in order from the scopes a fresh checker with these imports
/// starts in (`checks_fresh`), and the first refusal is the error.
pub fn check_module(program: &Program, imports: Vec<(String, Type)>) -> (r: Result<
    Vec<(String, Type)>,
    CompileError,
>)
    ensures
        match r {
            Ok(ex) => {
                &&& forall|i: int|
                    0 <= i < program.statements@.len() ==> (#[trigger] exported_function(
                        program.statements@[i],
                    ) matches Some(n) ==> has_key(ex@, n))
                &&& forall|i: int|
                    0 <= i < program.statements@.len() ==> #[trigger] export_typed(
                        program.statements@[i],
                        program.statements@.subrange(i + 1, program.statements@.len() as int),
                        ex@,
                    )
            },
            Err(e) => type_error(e),
        },
        (forall|i: int| 0 <= i < program.statements@.len() ==> #[trigger] infallible_stmt(
            program.statements@[i],
        )) ==> r is Ok,
        checks_fresh(
            imports@,
            program.statements@,
            match r {
                Ok(_) => Ok(()),
                Err(e) => Err(e),
            },
        ),
{
    let mut checker = TypeChecker::new();
    let ghost imported = imports@;
    checker.set_imports(imports);
    let ghost fresh = checker;
    let checked = checker.check(program);
    proof {
        let ss = choose|ss: Seq<Seq<Scope>>|
            #[trigger] TypeChecker::run_of(None, None, program.statements@, ss, checked)
                && hoisted_start(fresh.scope_stack(), fresh.imports(), program.statements@, ss[0]);
        lemma_fresh_start(fresh.scope_stack(), fresh.imports(), program.statements@, ss[0]);
        if checked is Ok {
            assert(TypeChecker::run_of(None, None, program.statements@, ss, Ok(())));
        }
        assert(checks_fresh(imported, program.statements@, checked));
    }
    match checked {
        Ok(_) => {
            let ex = checker.take_exports();
            proof {
                assert forall|i: int|
                    0 <= i < program.statements@.len() implies (#[trigger] exported_function(
                        program.statements@[i],
                    ) matches Some(n) ==> has_key(ex@, n)) by {
                    if let Some(n) = exported_function(program.statements@[i]) {
                        if !has_key(ex@, n) {
                            lemma_entry_for_none(ex@, n);
                        }
                    }
                }
            }
            Ok(ex)
        },
        Err(e) => Err(e),
    }
}

// --- Order of modules ---

/// How many entries are still unset.
pub open spec fn count_unset(s: Seq<bool>) -> nat
    decreases s.len(),
{
    if s.len() == 0 {
        0
    } else {
        count_unset(s.drop_last()) + if s.last() {
            0nat
        } else {
            1nat
        }
    }
}

proof fn lemma_count_unset_mono(a: Seq<bool>, b: Seq<bool>)
    requires
        a.len() == b.len(),
        forall|v: int| 0 <= v < a.len() && #[trigger] a[v] ==> b[v],
    ensures
        count_unset(b) <= count_unset(a),
    decreases a.len(),
{
    if a.len() > 0 {
        lemma_count_unset_mono(a.drop_last(), b.drop_last());
    }
}

proof fn lemma_count_unset_set(a: Seq<bool>, i: int)
    requires
        0 <= i < a.len(),
        !a[i],
    ensures
        count_unset(a.update(i, true)) + 1 == count_unset(a),
    decreases a.len(),
{
    let b = a.update(i, true);
    if i < a.len() - 1 {
        assert(b.drop_last() =~= a.drop_last().update(i, true));
        lemma_count_unset_set(a.drop_last(), i);
    } else {
        assert(b.drop_last() =~= a.drop_last());
    }
}

/// `v` occurs in `s`.
pub open spec fn occurs(s: Seq<usize>, v: usize) -> bool {
    exists|k: int| 0 <= k < s.len() && s[k] == v
}

/// No index occurs twice.
pub open spec fn distinct_indices(s: Seq<usize>) -> bool {
    forall|a: int, b: int| 0 <= a < b < s.len() ==> s[a] != s[b]
}

/// Every dependency names a module.
pub open spec fn deps_ok(deps: Seq<Vec<usize>>) -> bool {
    forall|x: int, j: int| 0 <= x < deps.len() && 0 <= j < deps[x]@.len() ==> #[trigger] deps[x]@[j] < deps.len()
}

/// The dependencies of every module in `s` are marked.
pub open spec fn deps_marked(deps: Seq<Vec<usize>>, s: Seq<usize>, marked: Seq<bool>) -> bool {
    forall|k: int, j: int|
        0 <= k < s.len() && 0 <= j < deps[s[k] as int]@.len() ==> #[trigger] marked[deps[s[k] as int]@[j] as int]
}

/// The imports have no cycle: some ranking puts every module above the
/// modules it imports.
pub open spec fn is_ranking(deps: Seq<Vec<usize>>, rank: Seq<nat>) -> bool {
    &&& rank.len() == deps.len()
    &&& forall|x: int, j: int|
        0 <= x < deps.len() && 0 <= j < deps[x]@.len() ==> rank[#[trigger] deps[x]@[j] as int]
            < rank[x]
}

/// `v` occurs among the first `k` entries of `s`.
pub open spec fn occurs_before(s: Seq<usize>, k: int, v: usize) -> bool {
    exists|m: int| 0 <= m < k && s[m] == v
}

/// From position `start` on, every module comes after the modules it imports.
pub open spec fn deps_before(deps: Seq<Vec<usize>>, s: Seq<usize>, start: int) -> bool {
    forall|k: int, j: int|
        start <= k < s.len() && 0 <= j < deps[s[k] as int]@.len() ==> occurs_before(
            s,
            k,
            #[trigger] deps[s[k] as int]@[j],
        )
}

/// Every module that `s` holds has its imports in `s` too.
pub open spec fn closed_under(deps: Seq<Vec<usize>>, s: Set<usize>) -> bool {
    forall|a: usize, j: int|
        s.contains(a) && a < deps.len() && 0 <= j < deps[a as int]@.len() ==> s.contains(
            #[trigger] deps[a as int]@[j],
        )
}

/// Every entry of `order` from index `from` on is in `s`.
pub open spec fn all_in(order: Seq<usize>, from: int, s: Set<usize>) -> bool {
    forall|k: int| from <= k < order.len() ==> s.contains(#[trigger] order[k])
}

fn visit(
    node: usize,
    deps: &Vec<Vec<usize>>,
    visited: &mut Vec<bool>,
    order: &mut Vec<usize>,
    Ghost(rank): Ghost<Seq<nat>>,
)
    requires
        node < deps@.len(),
        old(visited)@.len() == deps@.len(),
        deps_ok(deps@),
        distinct_indices(old(order)@),
        forall|k: int| 0 <= k < old(order)@.len() ==> #[trigger] old(order)@[k] < deps@.len()
            && old(visited)@[old(order)@[k] as int],
        deps_marked(deps@, old(order)@, old(visited)@),
    ensures
        final(visited)@.len() == deps@.len(),
        final(visited)@[node as int],
        !old(visited)@[node as int] ==> final(order)@.len() > 0 && final(order)@.last() == node,
        forall|v: int| 0 <= v < deps@.len() && #[trigger] old(visited)@[v] ==> final(visited)@[v],
        final(order)@.len() >= old(order)@.len(),
        forall|k: int| 0 <= k < old(order)@.len() ==> #[trigger] final(order)@[k] == old(order)@[k],
        forall|k: int|
            old(order)@.len() <= k < final(order)@.len() ==> !old(visited)@[#[trigger] final(order)@[k] as int],
        forall|v: usize|
            v < deps@.len() && #[trigger] final(visited)@[v as int] && !old(visited)@[v as int] ==> occurs(
                final(order)@,
                v,
            ),
        distinct_indices(final(order)@),
        forall|k: int| 0 <= k < final(order)@.len() ==> #[trigger] final(order)@[k] < deps@.len()
            && final(visited)@[final(order)@[k] as int],
        deps_marked(deps@, final(order)@, final(visited)@),
        is_ranking(deps@, rank) && (forall|v: usize|
            v < deps@.len() && #[trigger] old(visited)@[v as int] && !occurs(old(order)@, v)
                ==> rank[v as int] > rank[node as int]) ==> deps_before(
            deps@,
            final(order)@,
            old(order)@.len() as int,
        ),
        forall|s: Set<usize>|
            #[trigger] closed_under(deps@, s) && s.contains(node) ==> all_in(
                final(order)@,
                old(order)@.len() as int,
                s,
            ),
    decreases count_unset(old(visited)@),
{
    if visited[node] {
        return;
    }
    let ghost entry_visited = visited@;
    let ghost entry_order = order@;
    let ghost stack_ok = is_ranking(deps@, rank) && (forall|v: usize|
        v < deps@.len() && #[trigger] entry_visited[v as int] && !occurs(entry_order, v)
            ==> rank[v as int] > rank[node as int]);
    proof {
        lemma_count_unset_set(visited@, node as int);
    }
    visited.set(node, true);
    let mut j: usize = 0;
    while j < deps[node].len()
        invariant
            node < deps@.len(),
            deps_ok(deps@),
            visited@.len() == deps@.len(),
            visited@[node as int],
            !entry_visited[node as int],
            entry_visited == old(visited)@,
            entry_visited.len() == deps@.len(),
            count_unset(visited@) < count_unset(entry_visited),
            forall|v: int| 0 <= v < deps@.len() && #[trigger] entry_visited[v] ==> visited@[v],
            order@.len() >= entry_order.len(),
            forall|k: int| 0 <= k < entry_order.len() ==> #[trigger] order@[k] == entry_order[k],
            forall|k: int| entry_order.len() <= k < order@.len() ==> !entry_visited[#[trigger] order@[k] as int]
                && order@[k] != node,
            forall|v: usize|
                v < deps@.len() && #[trigger] visited@[v as int] && !entry_visited[v as int] && v != node
                    ==> occurs(order@, v),
            distinct_indices(order@),
            forall|k: int| 0 <= k < order@.len() ==> #[trigger] order@[k] < deps@.len()
                && visited@[order@[k] as int],
            deps_marked(deps@, order@, visited@),
            j <= deps@[node as int]@.len(),
            forall|i: int| 0 <= i < j ==> #[trigger] visited@[deps@[node as int]@[i] as int],
            stack_ok == (is_ranking(deps@, rank) && (forall|v: usize|
                v < deps@.len() && #[trigger] entry_visited[v as int] && !occurs(entry_order, v)
                    ==> rank[v as int] > rank[node as int])),
            stack_ok ==> deps_before(deps@, order@, entry_order.len() as int),
            stack_ok ==> forall|i: int| 0 <= i < j ==> occurs(order@, #[trigger] deps@[node as int]@[i]),
            forall|s: Set<usize>|
                #[trigger] closed_under(deps@, s) && s.contains(node) ==> all_in(
                    order@,
                    entry_order.len() as int,
                    s,
                ),
        decreases deps@[node as int]@.len() - j,
    {
        let d = deps[node][j];
        assert(d < deps@.len());
        let ghost before_visited = visited@;
        let ghost before_order = order@;
        proof {
            lemma_count_unset_mono(entry_visited.update(node as int, true), visited@);
        }
        proof {
            if stack_ok {
                assert(rank[d as int] < rank[node as int]);
                // Every module visited but not yet placed is `node` or was on the
                // stack when this call began: all rank above `d`
                assert forall|v: usize|
                    v < deps@.len() && #[trigger] before_visited[v as int] && !occurs(before_order, v)
                        implies rank[v as int] > rank[d as int] by {
                    if v != node && !entry_visited[v as int] {
                        assert(occurs(before_order, v));
                    }
                    if v != node && entry_visited[v as int] && occurs(entry_order, v) {
                        let k = choose|k: int| 0 <= k < entry_order.len() && entry_order[k] == v;
                        assert(before_order[k] == v);
                    }
                }
                if before_visited[d as int] {
                    if !occurs(before_order, d) {
                        if d != node && entry_visited[d as int] && occurs(entry_order, d) {
                            let k = choose|k: int| 0 <= k < entry_order.len() && entry_order[k] == d;
                            assert(before_order[k] == d);
                        }
                        if d != node && !entry_visited[d as int] {
                            assert(occurs(before_order, d));
                        }
                    }
                }
            }
        }
        visit(d, deps, visited, order, Ghost(rank));
        proof {
            assert forall|s: Set<usize>| #[trigger] closed_under(deps@, s) && s.contains(node) implies all_in(
                order@,
                entry_order.len() as int,
                s,
            ) by {
                assert(s.contains(deps@[node as int]@[j as int]));
                assert forall|k: int| entry_order.len() <= k < order@.len() implies s.contains(
                    #[trigger] order@[k],
                ) by {
                    if k < before_order.len() {
                        assert(order@[k] == before_order[k]);
                        assert(all_in(before_order, entry_order.len() as int, s));
                    }
                }
            }
            lemma_count_unset_mono(before_visited, visited@);
            if stack_ok {
                assert forall|k: int, i: int|
                    entry_order.len() <= k < order@.len() && 0 <= i < deps@[order@[k] as int]@.len() implies occurs_before(
                        order@,
                        k,
                        #[trigger] deps@[order@[k] as int]@[i],
                    ) by {
                    if k < before_order.len() {
                        assert(order@[k] == before_order[k]);
                        let dd = deps@[order@[k] as int]@[i];
                        assert(occurs_before(before_order, k, dd));
                        let m = choose|m: int| 0 <= m < k && before_order[m] == dd;
                        assert(order@[m] == before_order[m]);
                    }
                }
                assert forall|i: int| 0 <= i < j + 1 implies occurs(order@, #[trigger] deps@[node as int]@[i]) by {
                    if i < j {
                        let dd = deps@[node as int]@[i];
                        assert(occurs(before_order, dd));
                        let m = choose|m: int| 0 <= m < before_order.len() && before_order[m] == dd;
                        assert(order@[m] == before_order[m]);
                    } else {
                        assert(deps@[node as int]@[i] == d);
                        if !before_visited[d as int] {
                            assert(visited@[d as int]);
                        } else {
                            let m = choose|m: int| 0 <= m < before_order.len() && before_order[m] == d;
                            assert(order@[m] == before_order[m]);
                        }
                    }
                }
            }
            assert forall|i: int| 0 <= i < j + 1 implies #[trigger] visited@[deps@[node as int]@[i] as int] by {
                if i < j {
                    assert(before_visited[deps@[node as int]@[i] as int]);
                } else {
                    assert(deps@[node as int]@[i] == d);
                }
            }
            assert forall|k: int| entry_order.len() <= k < order@.len() implies !entry_visited[#[trigger] order@[k] as int]
                && order@[k] != node by {
                if k >= before_order.len() {
                    assert(!before_visited[order@[k] as int]);
                } else {
                    assert(order@[k] == before_order[k]);
                }
            }
            assert forall|v: usize|
                v < deps@.len() && #[trigger] visited@[v as int] && !entry_visited[v as int] && v != node
                    implies occurs(order@, v) by {
                if before_visited[v as int] {
                    let k = choose|k: int| 0 <= k < before_order.len() && before_order[k] == v;
                    assert(order@[k] == v);
                }
            }
        }
        j = j + 1;
    }
    let ghost pre = order@;
    order.push(node);
    proof {
        assert forall|s: Set<usize>| #[trigger] closed_under(deps@, s) && s.contains(node) implies all_in(
            order@,
            entry_order.len() as int,
            s,
        ) by {
            assert forall|k: int| entry_order.len() <= k < order@.len() implies s.contains(
                #[trigger] order@[k],
            ) by {
                if k < pre.len() {
                    assert(order@[k] == pre[k]);
                    assert(all_in(pre, entry_order.len() as int, s));
                }
            }
        }
        if stack_ok {
            assert forall|k: int, i: int|
                entry_order.len() <= k < order@.len() && 0 <= i < deps@[order@[k] as int]@.len() implies occurs_before(
                    order@,
                    k,
                    #[trigger] deps@[order@[k] as int]@[i],
                ) by {
                let dd = deps@[order@[k] as int]@[i];
                if k < pre.len() {
                    assert(order@[k] == pre[k]);
                    assert(occurs_before(pre, k, dd));
                    let m = choose|m: int| 0 <= m < k && pre[m] == dd;
                    assert(order@[m] == pre[m]);
                } else {
                    assert(order@[k] == node);
                    assert(occurs(pre, dd));
                    let m = choose|m: int| 0 <= m < pre.len() && pre[m] == dd;
                    assert(order@[m] == pre[m]);
                }
            }
        }
        assert(order@[pre.len() as int] == node);
        assert forall|a: int, b: int| 0 <= a < b < order@.len() implies order@[a] != order@[b] by {
            if b == pre.len() {
                if a >= entry_order.len() {
                    assert(pre[a] != node);
                } else {
                    assert(pre[a] == entry_order[a]);
                    assert(entry_visited[entry_order[a] as int]);
                }
            } else {
                assert(order@[a] == pre[a]);
                assert(order@[b] == pre[b]);
            }
        }
        assert forall|v: usize|
            v < deps@.len() && #[trigger] visited@[v as int] && !old(visited)@[v as int] implies occurs(
                order@,
                v,
            ) by {
            if v == node {
                assert(order@[pre.len() as int] == v);
            } else {
                let k = choose|k: int| 0 <= k < pre.len() && pre[k] == v;
                assert(order@[k] == v);
            }
        }
        assert forall|k: int, i: int|
            0 <= k < order@.len() && 0 <= i < deps@[order@[k] as int]@.len() implies #[trigger] visited@[deps@[order@[k] as int]@[i] as int] by {
            if k < pre.len() {
                assert(order@[k] == pre[k]);
            }
        }
    }
}

/// The modules reachable from `entry`, depth first in import order, `entry`
/// last: only those, as every set of modules that holds `entry` and the
/// imports of each of its modules holds all of them. When the imports have no cycle, every module comes after the modules
/// it imports; on a cycle, the module reached first comes after the others.
pub fn dependency_order(deps: &Vec<Vec<usize>>, entry: usize) -> (r: Vec<usize>)
    requires
        entry < deps@.len(),
        deps_ok(deps@),
    ensures
        r@.len() > 0,
        r@.last() == entry,
        distinct_indices(r@),
        forall|k: int| 0 <= k < r@.len() ==> #[trigger] r@[k] < deps@.len(),
        forall|k: int, j: int|
            0 <= k < r@.len() && 0 <= j < deps@[r@[k] as int]@.len() ==> occurs(
                r@,
                #[trigger] deps@[r@[k] as int]@[j],
            ),
        (exists|rank: Seq<nat>| is_ranking(deps@, rank)) ==> deps_before(deps@, r@, 0),
        forall|s: Set<usize>|
            #[trigger] closed_under(deps@, s) && s.contains(entry) ==> all_in(r@, 0, s),
{
    let mut visited: Vec<bool> = Vec::new();
    let mut i: usize = 0;
    while i < deps.len()
        invariant
            i <= deps@.len(),
            visited@.len() == i,
            forall|v: int| 0 <= v < i ==> !#[trigger] visited@[v],
        decreases deps@.len() - i,
    {
        visited.push(false);
        i = i + 1;
    }
    let mut order: Vec<usize> = Vec::new();
    let ghost start = visited@;
    let ghost rank = choose|rank: Seq<nat>| is_ranking(deps@, rank);
    visit(entry, deps, &mut visited, &mut order, Ghost(rank));
    proof {
        assert(occurs(order@, entry));
        // The entry is pushed last: everything else was pushed by calls it made
        assert forall|k: int, j: int|
            0 <= k < order@.len() && 0 <= j < deps@[order@[k] as int]@.len() implies occurs(
                order@,
                #[trigger] deps@[order@[k] as int]@[j],
            ) by {
            let d = deps@[order@[k] as int]@[j];
            assert(visited@[d as int]);
            assert(!start[d as int]);
        }
    }
    order
}

} // verus!
