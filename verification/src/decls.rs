use vstd::prelude::*;
use crate::ast::{EnumDef, EnumVariant, MatchArm, Pattern, StructDef, StructField, Type, TypeView};
use crate::error::{ErrorView, HuziError};
use crate::text::is_text;

verus! {

// ---------------------------------------------------------------------------
// By-value references between type definitions.
//
// A struct refers by value to the named types of its fields, an enum to the
// named types of its payloads, each including the components of tuples
// (array elements are reached through a pointer and do not count). A definition refers only to names that some definition
// declares. Where two definitions share a name, the later one's references
// stand for that name.
// ---------------------------------------------------------------------------

/// The declared types that `t` refers to by value: its name, when it names
/// one; the references of its components, in order, for a tuple.
pub open spec fn type_refs(t: TypeView, names: Seq<Seq<char>>) -> Seq<Seq<char>>
    decreases t,
{
    match t {
        TypeView::Named(n) => if names.contains(n) {
            seq![n]
        } else {
            Seq::empty()
        },
        TypeView::Tuple(ts) => types_refs(ts, names),
        _ => Seq::empty(),
    }
}

/// The references of a list of types, in order.
pub open spec fn types_refs(ts: Seq<TypeView>, names: Seq<Seq<char>>) -> Seq<Seq<char>>
    decreases ts,
{
    if ts.len() == 0 {
        Seq::empty()
    } else {
        types_refs(ts.drop_last(), names) + type_refs(ts.last(), names)
    }
}

/// The declared types that the fields refer to, in field order.
pub open spec fn field_refs(fields: Seq<StructField>, names: Seq<Seq<char>>) -> Seq<Seq<char>>
    decreases fields.len(),
{
    if fields.len() == 0 {
        Seq::empty()
    } else {
        field_refs(fields.drop_last(), names) + type_refs(fields.last().field_type@, names)
    }
}

/// The declared types that the payloads refer to, in variant order.
pub open spec fn payload_refs(variants: Seq<EnumVariant>, names: Seq<Seq<char>>) -> Seq<Seq<char>>
    decreases variants.len(),
{
    if variants.len() == 0 {
        Seq::empty()
    } else {
        let rest = payload_refs(variants.drop_last(), names);
        match variants.last().payload {
            Some(t) => rest + type_refs(t@, names),
            None => rest,
        }
    }
}

/// `t` names `n` by value: it is `n`, or a tuple with a component that
/// names it.
pub open spec fn names_by_value(t: TypeView, n: Seq<char>) -> bool
    decreases t,
{
    match t {
        TypeView::Named(m) => m == n,
        TypeView::Tuple(ts) => exists|k: int| 0 <= k < ts.len() && names_by_value(#[trigger] ts[k], n),
        _ => false,
    }
}

proof fn lemma_type_refs_exact(t: TypeView, names: Seq<Seq<char>>, n: Seq<char>)
    ensures
        type_refs(t, names).contains(n) <==> (names.contains(n) && names_by_value(t, n)),
    decreases t,
{
    match t {
        TypeView::Tuple(ts) => {
            lemma_types_refs_exact(ts, names, n);
            if names.contains(n) && names_by_value(t, n) {
                let k = choose|k: int| 0 <= k < ts.len() && names_by_value(#[trigger] ts[k], n);
                assert(ts.take(ts.len() as int) =~= ts);
                assert(ts.take(ts.len() as int)[k] == ts[k]);
            }
            if type_refs(t, names).contains(n) {
                assert(ts.take(ts.len() as int) =~= ts);
                let k = choose|k: int| 0 <= k < ts.len() && names.contains(n) && names_by_value(#[trigger] ts.take(ts.len() as int)[k], n);
                assert(ts[k] == ts.take(ts.len() as int)[k]);
            }
        },
        TypeView::Named(m) => {
            if type_refs(t, names).contains(n) {
                assert(seq![m][0] == m);
            }
            if names.contains(n) && m == n {
                assert(seq![m][0] == m);
            }
        },
        _ => {},
    }
}

proof fn lemma_types_refs_exact(ts: Seq<TypeView>, names: Seq<Seq<char>>, n: Seq<char>)
    ensures
        types_refs(ts, names).contains(n) <==> exists|k: int|
            0 <= k < ts.len() && names.contains(n) && names_by_value(#[trigger] ts.take(ts.len() as int)[k], n),
    decreases ts,
{
    assert(ts.take(ts.len() as int) =~= ts);
    if ts.len() > 0 {
        let init = ts.drop_last();
        lemma_types_refs_exact(init, names, n);
        lemma_type_refs_exact(ts.last(), names, n);
        assert(init.take(init.len() as int) =~= init);
        let a = types_refs(init, names);
        let b = type_refs(ts.last(), names);
        if (a + b).contains(n) {
            let i = choose|i: int| 0 <= i < (a + b).len() && (a + b)[i] == n;
            if i < a.len() {
                assert(a[i] == n);
                let k = choose|k: int| 0 <= k < init.len() && names.contains(n) && names_by_value(#[trigger] init.take(init.len() as int)[k], n);
                assert(ts.take(ts.len() as int)[k] == init[k]);
            } else {
                assert(b[i - a.len()] == n);
                assert(ts.take(ts.len() as int)[ts.len() - 1] == ts.last());
            }
        }
        if exists|k: int| 0 <= k < ts.len() && names.contains(n) && names_by_value(#[trigger] ts.take(ts.len() as int)[k], n) {
            let k = choose|k: int| 0 <= k < ts.len() && names.contains(n) && names_by_value(#[trigger] ts.take(ts.len() as int)[k], n);
            if k < init.len() {
                assert(init.take(init.len() as int)[k] == ts[k]);
                let i = choose|i: int| 0 <= i < a.len() && a[i] == n;
                assert((a + b)[i] == n);
            } else {
                assert(ts[k] == ts.last());
                let i = choose|i: int| 0 <= i < b.len() && b[i] == n;
                assert((a + b)[a.len() + i] == n);
            }
        }
    }
}

proof fn lemma_field_refs_exact(fields: Seq<StructField>, names: Seq<Seq<char>>, n: Seq<char>)
    ensures
        field_refs(fields, names).contains(n) <==> exists|j: int|
            0 <= j < fields.len() && names.contains(n) && names_by_value(#[trigger] fields[j].field_type@, n),
    decreases fields.len(),
{
    if fields.len() > 0 {
        let init = fields.drop_last();
        lemma_field_refs_exact(init, names, n);
        lemma_type_refs_exact(fields.last().field_type@, names, n);
        let a = field_refs(init, names);
        let b = type_refs(fields.last().field_type@, names);
        if (a + b).contains(n) {
            let i = choose|i: int| 0 <= i < (a + b).len() && (a + b)[i] == n;
            if i < a.len() {
                assert(a[i] == n);
                let j = choose|j: int| 0 <= j < init.len() && names.contains(n) && names_by_value(#[trigger] init[j].field_type@, n);
                assert(fields[j] == init[j]);
            } else {
                assert(b[i - a.len()] == n);
                assert(fields[fields.len() - 1] == fields.last());
            }
        }
        if exists|j: int| 0 <= j < fields.len() && names.contains(n) && names_by_value(#[trigger] fields[j].field_type@, n) {
            let j = choose|j: int| 0 <= j < fields.len() && names.contains(n) && names_by_value(#[trigger] fields[j].field_type@, n);
            if j < init.len() {
                assert(init[j] == fields[j]);
                let i = choose|i: int| 0 <= i < a.len() && a[i] == n;
                assert((a + b)[i] == n);
            } else {
                let i = choose|i: int| 0 <= i < b.len() && b[i] == n;
                assert((a + b)[a.len() + i] == n);
            }
        }
    }
}

proof fn lemma_payload_refs_exact(variants: Seq<EnumVariant>, names: Seq<Seq<char>>, n: Seq<char>)
    ensures
        payload_refs(variants, names).contains(n) <==> exists|j: int|
            0 <= j < variants.len() && names.contains(n) && (#[trigger] variants[j].payload matches Some(t)
                && names_by_value(t@, n)),
    decreases variants.len(),
{
    if variants.len() > 0 {
        let init = variants.drop_last();
        lemma_payload_refs_exact(init, names, n);
        let a = payload_refs(init, names);
        match variants.last().payload {
            Some(t) => {
                lemma_type_refs_exact(t@, names, n);
                let b = type_refs(t@, names);
                if (a + b).contains(n) {
                    let i = choose|i: int| 0 <= i < (a + b).len() && (a + b)[i] == n;
                    if i < a.len() {
                        assert(a[i] == n);
                        let j = choose|j: int| 0 <= j < init.len() && names.contains(n) && (#[trigger] init[j].payload matches Some(u) && names_by_value(u@, n));
                        assert(variants[j] == init[j]);
                    } else {
                        assert(b[i - a.len()] == n);
                        assert(variants[variants.len() - 1] == variants.last());
                    }
                }
                if exists|j: int| 0 <= j < variants.len() && names.contains(n) && (#[trigger] variants[j].payload matches Some(u) && names_by_value(u@, n)) {
                    let j = choose|j: int| 0 <= j < variants.len() && names.contains(n) && (#[trigger] variants[j].payload matches Some(u) && names_by_value(u@, n));
                    if j < init.len() {
                        assert(init[j] == variants[j]);
                        let i = choose|i: int| 0 <= i < a.len() && a[i] == n;
                        assert((a + b)[i] == n);
                    } else {
                        let i = choose|i: int| 0 <= i < b.len() && b[i] == n;
                        assert((a + b)[a.len() + i] == n);
                    }
                }
            },
            None => {
                if exists|j: int| 0 <= j < variants.len() && names.contains(n) && (#[trigger] variants[j].payload matches Some(u) && names_by_value(u@, n)) {
                    let j = choose|j: int| 0 <= j < variants.len() && names.contains(n) && (#[trigger] variants[j].payload matches Some(u) && names_by_value(u@, n));
                    assert(j < init.len());
                    assert(init[j] == variants[j]);
                }
                if a.contains(n) {
                    let j = choose|j: int| 0 <= j < init.len() && names.contains(n) && (#[trigger] init[j].payload matches Some(u) && names_by_value(u@, n));
                    assert(variants[j] == init[j]);
                }
            },
        }
    }
}

proof fn lemma_refs_of_single(g: Seq<(Seq<char>, Seq<Seq<char>>)>, k: int)
    requires
        0 <= k < g.len(),
        forall|m: int| k < m < g.len() ==> #[trigger] g[m].0 != g[k].0,
    ensures
        refs_of(g, g[k].0) == g[k].1,
    decreases g.len(),
{
    if k < g.len() - 1 {
        assert(g[g.len() - 1].0 != g[k].0);
        let h = g.drop_last();
        assert forall|m: int| k < m < h.len() implies #[trigger] h[m].0 != h[k].0 by {
            assert(h[m] == g[m]);
        }
        lemma_refs_of_single(h, k);
    }
}

/// The edges of the type graph are exactly the by-value uses of declared
/// types: a struct refers to a declared name `n` exactly when one of its
/// fields' types names `n` (directly or inside a tuple), an enum exactly
/// when one of its payloads does. Where no two definitions share a name,
/// these are the references `refs_of` gives for the definition's name.
pub proof fn lemma_type_graph_edges(structs: Seq<StructDef>, enums: Seq<EnumDef>, i: int, n: Seq<char>)
    ensures
        ({
            let g = type_graph(structs, enums);
            let names = def_names(structs, enums);
            &&& g.len() == structs.len() + enums.len()
            &&& 0 <= i < structs.len() ==> {
                &&& g[i].0 == structs[i].name@
                &&& g[i].1.contains(n) <==> (names.contains(n) && exists|j: int|
                    0 <= j < structs[i].fields@.len() && names_by_value(
                        #[trigger] structs[i].fields@[j].field_type@,
                        n,
                    ))
                &&& names.no_duplicates() ==> refs_of(g, structs[i].name@) == g[i].1
            }
            &&& 0 <= i < enums.len() ==> {
                &&& g[structs.len() + i].0 == enums[i].name@
                &&& g[structs.len() + i].1.contains(n) <==> (names.contains(n) && exists|j: int|
                    0 <= j < enums[i].variants@.len() && (#[trigger] enums[i].variants@[j].payload matches Some(t)
                        && names_by_value(t@, n)))
                &&& names.no_duplicates() ==> refs_of(g, enums[i].name@) == g[structs.len() + i].1
            }
        }),
{
    let g = type_graph(structs, enums);
    let names = def_names(structs, enums);
    let ns = struct_names(structs).len();
    assert(ns == structs.len());
    assert forall|m: int| 0 <= m < g.len() implies #[trigger] g[m].0 == names[m] by {
        if m < structs.len() {
            assert(names[m] == struct_names(structs)[m]);
        } else {
            assert(names[m] == enum_names(enums)[m - structs.len()]);
        }
    }
    if 0 <= i < structs.len() {
        lemma_field_refs_exact(structs[i].fields@, names, n);
        if names.no_duplicates() {
            assert forall|m: int| i < m < g.len() implies #[trigger] g[m].0 != g[i].0 by {
                assert(names[m] != names[i]);
            }
            lemma_refs_of_single(g, i);
        }
    }
    if 0 <= i < enums.len() {
        let k = structs.len() + i;
        lemma_payload_refs_exact(enums[i].variants@, names, n);
        assert(g[k] == (enums[i].name@, payload_refs(enums[i].variants@, names)));
        if names.no_duplicates() {
            assert forall|m: int| k < m < g.len() implies #[trigger] g[m].0 != g[k].0 by {
                assert(names[m] != names[k]);
            }
            lemma_refs_of_single(g, k);
        }
    }
}

/// The names of the struct definitions, in order.
pub open spec fn struct_names(structs: Seq<StructDef>) -> Seq<Seq<char>> {
    structs.map_values(|d: StructDef| d.name@)
}

/// The names of the enum definitions, in order.
pub open spec fn enum_names(enums: Seq<EnumDef>) -> Seq<Seq<char>> {
    enums.map_values(|d: EnumDef| d.name@)
}

/// The names of the definitions: the structs', then the enums'.
pub open spec fn def_names(structs: Seq<StructDef>, enums: Seq<EnumDef>) -> Seq<Seq<char>> {
    struct_names(structs) + enum_names(enums)
}

/// Each definition, structs then enums, with the declared types it refers to.
pub open spec fn type_graph(structs: Seq<StructDef>, enums: Seq<EnumDef>) -> Seq<(Seq<char>, Seq<Seq<char>>)> {
    let names = def_names(structs, enums);
    structs.map_values(|d: StructDef| (d.name@, field_refs(d.fields@, names)))
        + enums.map_values(|d: EnumDef| (d.name@, payload_refs(d.variants@, names)))
}

/// The names that `a` refers to: those of the last definition named `a`,
/// none where no definition is.
pub open spec fn refs_of(g: Seq<(Seq<char>, Seq<Seq<char>>)>, a: Seq<char>) -> Seq<Seq<char>>
    decreases g.len(),
{
    if g.len() == 0 {
        Seq::empty()
    } else if g.last().0 == a {
        g.last().1
    } else {
        refs_of(g.drop_last(), a)
    }
}

/// The declared names of a graph.
pub open spec fn graph_names(g: Seq<(Seq<char>, Seq<Seq<char>>)>) -> Seq<Seq<char>> {
    g.map_values(|e: (Seq<char>, Seq<Seq<char>>)| e.0)
}

/// `w` is a walk: a non-empty sequence of names, each referring to the next.
pub open spec fn is_walk(g: Seq<(Seq<char>, Seq<Seq<char>>)>, w: Seq<Seq<char>>) -> bool {
    &&& w.len() >= 1
    &&& forall|i: int| 0 <= i < w.len() - 1 ==> #[trigger] refs_of(g, w[i]).contains(w[i + 1])
}

/// The walk ends on a name it has passed before.
pub open spec fn returns_to(w: Seq<Seq<char>>) -> bool {
    exists|j: int| 0 <= j < w.len() - 1 && #[trigger] w[j] == w.last()
}

/// Some walk from `a` comes back to a name it has passed: `a` leads into a
/// by-value reference cycle.
pub open spec fn reaches_cycle(g: Seq<(Seq<char>, Seq<Seq<char>>)>, a: Seq<char>) -> bool {
    exists|w: Seq<Seq<char>>| #[trigger] is_walk(g, w) && w[0] == a && returns_to(w)
}

/// A walk from `a` that ends on a name of `path` or on a name it has passed.
pub open spec fn closes(g: Seq<(Seq<char>, Seq<Seq<char>>)>, path: Seq<Seq<char>>, a: Seq<char>) -> bool {
    exists|w: Seq<Seq<char>>| #[trigger] is_walk(g, w) && w[0] == a && (path.contains(w.last()) || returns_to(w))
}

/// The error for a definition that leads into a by-value reference cycle.
pub open spec fn cycle_error(name: Seq<char>) -> ErrorView {
    ErrorView {
        message: "Type '"@ + name + "' is part of a by-value reference cycle"@,
        line: 0,
        column: 0,
    }
}

/// `i` is the first definition, in graph order, that leads into a cycle.
pub open spec fn first_cyclic(g: Seq<(Seq<char>, Seq<Seq<char>>)>, i: int) -> bool {
    &&& 0 <= i < g.len()
    &&& reaches_cycle(g, g[i].0)
    &&& forall|k: int| 0 <= k < i ==> !reaches_cycle(g, #[trigger] g[k].0)
}

proof fn lemma_closes_here(g: Seq<(Seq<char>, Seq<Seq<char>>)>, path: Seq<Seq<char>>, a: Seq<char>)
    requires
        path.contains(a),
    ensures
        closes(g, path, a),
{
    let w = seq![a];
    assert(is_walk(g, w));
    assert(w.last() == a);
}

proof fn lemma_closes_step(g: Seq<(Seq<char>, Seq<Seq<char>>)>, path: Seq<Seq<char>>, a: Seq<char>, c: Seq<char>)
    requires
        refs_of(g, a).contains(c),
        closes(g, path.push(a), c),
    ensures
        closes(g, path, a),
{
    let w1 = choose|w: Seq<Seq<char>>| #[trigger] is_walk(g, w) && w[0] == c && (path.push(a).contains(
        w.last(),
    ) || returns_to(w));
    let w = seq![a] + w1;
    assert(w.last() == w1.last());
    assert forall|i: int| 0 <= i < w.len() - 1 implies #[trigger] refs_of(g, w[i]).contains(w[i + 1]) by {
        if i == 0 {
            assert(w[1] == w1[0]);
        } else {
            assert(w[i] == w1[i - 1]);
            assert(w[i + 1] == w1[i]);
            assert(refs_of(g, w1[i - 1]).contains(w1[(i - 1) + 1]));
        }
    }
    assert(is_walk(g, w));
    if path.contains(w1.last()) {
    } else if w1.last() == a {
        assert(w[0] == w.last());
        assert(returns_to(w));
    } else {
        if !path.push(a).contains(w1.last()) {
            let j = choose|j: int| 0 <= j < w1.len() - 1 && #[trigger] w1[j] == w1.last();
            assert(w[j + 1] == w1[j]);
            assert(returns_to(w));
        } else {
            let k = choose|k: int| 0 <= k < path.push(a).len() && path.push(a)[k] == w1.last();
            if k < path.len() {
                assert(path[k] == w1.last());
            }
        }
    }
}

proof fn lemma_closes_back(g: Seq<(Seq<char>, Seq<Seq<char>>)>, path: Seq<Seq<char>>, a: Seq<char>)
    requires
        !path.contains(a),
        closes(g, path, a),
    ensures
        exists|c: Seq<char>| refs_of(g, a).contains(c) && #[trigger] closes(g, path.push(a), c),
{
    let w = choose|w: Seq<Seq<char>>| #[trigger] is_walk(g, w) && w[0] == a && (path.contains(w.last())
        || returns_to(w));
    if w.len() == 1 {
        assert(w.last() == a);
        if returns_to(w) {
            let j = choose|j: int| 0 <= j < w.len() - 1 && #[trigger] w[j] == w.last();
        }
    } else {
        let c = w[1];
        assert(refs_of(g, w[0]).contains(w[0int + 1]));
        let w1 = w.drop_first();
        assert(w1.last() == w.last());
        assert forall|i: int| 0 <= i < w1.len() - 1 implies #[trigger] refs_of(g, w1[i]).contains(w1[i + 1]) by {
            assert(w1[i] == w[i + 1]);
            assert(w1[i + 1] == w[(i + 1) + 1]);
            assert(refs_of(g, w[i + 1]).contains(w[(i + 1) + 1]));
        }
        assert(is_walk(g, w1));
        if path.contains(w.last()) {
            assert(path.push(a).contains(w1.last())) by {
                let k = choose|k: int| 0 <= k < path.len() && path[k] == w.last();
                assert(path.push(a)[k] == w.last());
            }
        } else {
            let j = choose|j: int| 0 <= j < w.len() - 1 && #[trigger] w[j] == w.last();
            if j == 0 {
                assert(path.push(a)[path.len() as int] == a);
                assert(path.push(a).contains(w1.last()));
            } else {
                assert(w1[j - 1] == w.last());
                assert(returns_to(w1));
            }
        }
        assert(closes(g, path.push(a), c));
    }
}

proof fn lemma_closes_undeclared(g: Seq<(Seq<char>, Seq<Seq<char>>)>, path: Seq<Seq<char>>, a: Seq<char>)
    requires
        !path.contains(a),
        refs_of(g, a).len() == 0,
    ensures
        !closes(g, path, a),
{
    if closes(g, path, a) {
        lemma_closes_back(g, path, a);
    }
}

/// A walk that returns to a name it passed is what `closes` finds from an
/// empty path.
proof fn lemma_closes_empty(g: Seq<(Seq<char>, Seq<Seq<char>>)>, a: Seq<char>)
    ensures
        closes(g, Seq::empty(), a) == reaches_cycle(g, a),
{
    if closes(g, Seq::empty(), a) {
        let w = choose|w: Seq<Seq<char>>| #[trigger] is_walk(g, w) && w[0] == a && (Seq::<Seq<char>>::empty().contains(
            w.last(),
        ) || returns_to(w));
        assert(returns_to(w));
    }
}

/// Where `g` has no definition named `a`, nothing stands for `a`.
proof fn lemma_refs_of_undeclared(g: Seq<(Seq<char>, Seq<Seq<char>>)>, a: Seq<char>)
    requires
        !graph_names(g).contains(a),
    ensures
        refs_of(g, a).len() == 0,
    decreases g.len(),
{
    if g.len() > 0 {
        assert(graph_names(g)[g.len() - 1] == g.last().0);
        assert(graph_names(g.drop_last()) =~= graph_names(g).drop_last());
        if graph_names(g.drop_last()).contains(a) {
            let k = choose|k: int| 0 <= k < graph_names(g.drop_last()).len() && graph_names(g.drop_last())[k] == a;
            assert(graph_names(g)[k] == a);
        }
        lemma_refs_of_undeclared(g.drop_last(), a);
    }
}

/// The last definition named `a` gives the names `a` refers to.
proof fn lemma_refs_of_last(g: Seq<(Seq<char>, Seq<Seq<char>>)>, a: Seq<char>, i: int)
    requires
        0 <= i < g.len(),
        g[i].0 == a,
        forall|k: int| i < k < g.len() ==> #[trigger] g[k].0 != a,
    ensures
        refs_of(g, a) == g[i].1,
    decreases g.len(),
{
    if i < g.len() - 1 {
        assert(g.last().0 != a);
        lemma_refs_of_last(g.drop_last(), a, i);
    }
}

/// A duplicate-free sequence within a finite set is no longer than the set.
proof fn lemma_unique_within(s: Seq<Seq<char>>, all: Seq<Seq<char>>)
    requires
        s.no_duplicates(),
        forall|k: int| 0 <= k < s.len() ==> all.contains(#[trigger] s[k]),
    ensures
        s.len() <= all.to_set().len(),
{
    s.unique_seq_to_set();
    assert(s.to_set().subset_of(all.to_set()));
    vstd::set_lib::lemma_len_subset(s.to_set(), all.to_set());
}

// ---------------------------------------------------------------------------
// The executable graph.
// ---------------------------------------------------------------------------

/// A definition's name with the declared types it refers to by value.
struct TypeRefs {
    name: String,
    refs: Vec<String>,
}

impl TypeRefs {
    spec fn view(&self) -> (Seq<char>, Seq<Seq<char>>) {
        (self.name@, self.refs@.map_values(|s: String| s@))
    }
}

spec fn graph_view(g: Seq<TypeRefs>) -> Seq<(Seq<char>, Seq<Seq<char>>)> {
    g.map_values(|e: TypeRefs| e.view())
}

/// The texts of a list of strings.
pub open spec fn names_view(v: Seq<String>) -> Seq<Seq<char>> {
    v.map_values(|s: String| s@)
}

/// Whether `name` is among `names`.
fn contains_name(names: &Vec<String>, name: &String) -> (b: bool)
    ensures
        b == names_view(names@).contains(name@),
{
    let mut i: usize = 0;
    while i < names.len()
        invariant
            i <= names.len(),
            forall|k: int| 0 <= k < i ==> names@[k]@ != name@,
        decreases names.len() - i,
    {
        if names[i] == *name {
            proof {
                assert(names_view(names@)[i as int] == name@);
            }
            return true;
        }
        i += 1;
    }
    proof {
        if names_view(names@).contains(name@) {
            let k = choose|k: int| 0 <= k < names@.len() && names_view(names@)[k] == name@;
            assert(names@[k]@ == name@);
        }
    }
    false
}

/// Appends the declared types that `t` refers to by value.
fn push_type_refs(t: &Type, names: &Vec<String>, refs: &mut Vec<String>)
    ensures
        names_view(final(refs)@) == names_view(old(refs)@) + type_refs(t@, names_view(names@)),
    decreases t,
{
    let ghost nv = names_view(names@);
    let ghost start = names_view(refs@);
    match t {
        Type::Named(n) => {
            if contains_name(names, n) {
                refs.push(n.clone());
                proof {
                    assert(names_view(refs@) =~= start + seq![n@]);
                }
            } else {
                proof {
                    assert(names_view(refs@) =~= start + Seq::<Seq<char>>::empty());
                }
            }
        },
        Type::Tuple(ts) => {
            let mut i: usize = 0;
            proof {
                crate::ast::lemma_types_view_len(ts@);
                assert(crate::ast::types_view(ts@).take(0) =~= Seq::<TypeView>::empty());
                assert(names_view(refs@) =~= start + types_refs(crate::ast::types_view(ts@).take(0), nv));
            }
            while i < ts.len()
                invariant
                    i <= ts@.len(),
                    *t == Type::Tuple(*ts),
                    nv == names_view(names@),
                    crate::ast::types_view(ts@).len() == ts@.len(),
                    forall|k: int| 0 <= k < ts@.len() ==> #[trigger] crate::ast::types_view(ts@)[k] == ts@[k]@,
                    names_view(refs@) == start + types_refs(crate::ast::types_view(ts@).take(i as int), nv),
                decreases ts@.len() - i,
            {
                let c: &Type = &ts[i];
                let ghost before = names_view(refs@);
                proof {
                    assert((*t)->0 == *ts);
                    assert(decreases_to!(*t => (*t)->0));
                    assert(decreases_to!(*ts => ts@));
                    assert(decreases_to!(ts@ => ts@[i as int]));
                }
                push_type_refs(c, names, refs);
                proof {
                    let tv = crate::ast::types_view(ts@);
                    assert(tv.take(i + 1).drop_last() =~= tv.take(i as int));
                    assert(tv.take(i + 1).last() == c@);
                    assert(names_view(refs@) =~= start + types_refs(tv.take(i + 1), nv));
                }
                i += 1;
            }
            proof {
                assert(crate::ast::types_view(ts@).take(i as int) =~= crate::ast::types_view(ts@));
            }
        },
        _ => {
            proof {
                assert(names_view(refs@) =~= start + Seq::<Seq<char>>::empty());
            }
        },
    }
}

/// The definitions' names, structs first.
fn collect_names(structs: &[StructDef], enums: &[EnumDef]) -> (v: Vec<String>)
    ensures
        names_view(v@) == def_names(structs@, enums@),
{
    let mut v: Vec<String> = Vec::new();
    let mut i: usize = 0;
    while i < structs.len()
        invariant
            i <= structs@.len(),
            names_view(v@) == struct_names(structs@.take(i as int)),
        decreases structs@.len() - i,
    {
        let ghost before = v@;
        v.push(structs[i].name.clone());
        proof {
            assert(names_view(v@) =~= names_view(before).push(structs@[i as int].name@));
            assert(struct_names(structs@.take(i + 1)) =~= struct_names(structs@.take(
                i as int,
            )).push(structs@[i as int].name@));
        }
        i += 1;
    }
    let mut j: usize = 0;
    while j < enums.len()
        invariant
            i == structs@.len(),
            j <= enums@.len(),
            names_view(v@) == struct_names(structs@) + enum_names(enums@.take(j as int)),
        decreases enums@.len() - j,
    {
        proof {
            assert(structs@.take(i as int) =~= structs@);
        }
        let ghost before = v@;
        v.push(enums[j].name.clone());
        proof {
            assert(names_view(v@) =~= names_view(before).push(enums@[j as int].name@));
            assert(enum_names(enums@.take(j + 1)) =~= enum_names(enums@.take(j as int)).push(enums@[j as int].name@));
            assert(names_view(v@) =~= struct_names(structs@) + enum_names(enums@.take(j + 1)));
        }
        j += 1;
    }
    proof {
        assert(structs@.take(structs@.len() as int) =~= structs@);
        assert(enums@.take(enums@.len() as int) =~= enums@);
    }
    v
}

/// The graph of by-value references among the definitions.
fn build_graph(structs: &[StructDef], enums: &[EnumDef]) -> (g: Vec<TypeRefs>)
    ensures
        graph_view(g@) == type_graph(structs@, enums@),
{
    let names = collect_names(structs, enums);
    let ghost nv = def_names(structs@, enums@);
    let mut g: Vec<TypeRefs> = Vec::new();
    let mut i: usize = 0;
    while i < structs.len()
        invariant
            i <= structs@.len(),
            names_view(names@) == nv,
            nv == def_names(structs@, enums@),
            graph_view(g@) == structs@.take(i as int).map_values(
                |d: StructDef| (d.name@, field_refs(d.fields@, nv)),
            ),
        decreases structs@.len() - i,
    {
        let def = &structs[i];
        let mut refs: Vec<String> = Vec::new();
        let mut k: usize = 0;
        while k < def.fields.len()
            invariant
                k <= def.fields@.len(),
                names_view(names@) == nv,
                names_view(refs@) == field_refs(def.fields@.take(k as int), nv),
            decreases def.fields@.len() - k,
        {
            proof {
                assert(def.fields@.take(k + 1).drop_last() =~= def.fields@.take(k as int));
            }
            push_type_refs(&def.fields[k].field_type, &names, &mut refs);
            k += 1;
        }
        proof {
            assert(def.fields@.take(def.fields@.len() as int) =~= def.fields@);
        }
        let name = def.name.clone();
        let ghost before = g@;
        let entry = TypeRefs { name, refs };
        proof {
            assert(entry.view() == (structs@[i as int].name@, field_refs(structs@[i as int].fields@, nv)));
        }
        g.push(entry);
        proof {
            assert(graph_view(g@) =~= graph_view(before).push(entry.view()));
            assert(structs@.take(i + 1).map_values(|d: StructDef| (d.name@, field_refs(d.fields@, nv)))
                =~= structs@.take(i as int).map_values(
                |d: StructDef| (d.name@, field_refs(d.fields@, nv)),
            ).push(entry.view()));
            assert(graph_view(g@) =~= structs@.take(i + 1).map_values(
                |d: StructDef| (d.name@, field_refs(d.fields@, nv)),
            ));
        }
        i += 1;
    }
    proof {
        assert(structs@.take(structs@.len() as int) =~= structs@);
    }
    let mut j: usize = 0;
    while j < enums.len()
        invariant
            j <= enums@.len(),
            names_view(names@) == nv,
            nv == def_names(structs@, enums@),
            graph_view(g@) == structs@.map_values(|d: StructDef| (d.name@, field_refs(d.fields@, nv)))
                + enums@.take(j as int).map_values(
                |d: EnumDef| (d.name@, payload_refs(d.variants@, nv)),
            ),
        decreases enums@.len() - j,
    {
        let def = &enums[j];
        let mut refs: Vec<String> = Vec::new();
        let mut k: usize = 0;
        while k < def.variants.len()
            invariant
                k <= def.variants@.len(),
                names_view(names@) == nv,
                names_view(refs@) == payload_refs(def.variants@.take(k as int), nv),
            decreases def.variants@.len() - k,
        {
            proof {
                assert(def.variants@.take(k + 1).drop_last() =~= def.variants@.take(k as int));
            }
            match &def.variants[k].payload {
                Some(t) => {
                    push_type_refs(t, &names, &mut refs);
                },
                None => {},
            }
            k += 1;
        }
        proof {
            assert(def.variants@.take(def.variants@.len() as int) =~= def.variants@);
        }
        let name = def.name.clone();
        let ghost before = g@;
        let entry = TypeRefs { name, refs };
        proof {
            assert(entry.view() == (enums@[j as int].name@, payload_refs(enums@[j as int].variants@, nv)));
        }
        g.push(entry);
        proof {
            assert(graph_view(g@) =~= graph_view(before).push(entry.view()));
            assert(enums@.take(j + 1).map_values(|d: EnumDef| (d.name@, payload_refs(d.variants@, nv)))
                =~= enums@.take(j as int).map_values(
                |d: EnumDef| (d.name@, payload_refs(d.variants@, nv)),
            ).push(entry.view()));
            assert(graph_view(g@) =~= structs@.map_values(
                |d: StructDef| (d.name@, field_refs(d.fields@, nv)),
            ) + enums@.take(j + 1).map_values(|d: EnumDef| (d.name@, payload_refs(d.variants@, nv))));
        }
        j += 1;
    }
    proof {
        assert(enums@.take(enums@.len() as int) =~= enums@);
    }
    g
}

/// The index of the last definition named `name`.
fn last_named(g: &Vec<TypeRefs>, name: &String) -> (r: Option<usize>)
    ensures
        match r {
            Some(i) => i < g@.len() && refs_of(graph_view(g@), name@) == graph_view(g@)[i as int].1
                && graph_view(g@)[i as int].0 == name@,
            None => !graph_names(graph_view(g@)).contains(name@),
        },
{
    let ghost gv = graph_view(g@);
    let mut i: usize = g.len();
    while i > 0
        invariant
            i <= g@.len(),
            gv == graph_view(g@),
            forall|k: int| i <= k < g@.len() ==> #[trigger] gv[k].0 != name@,
        decreases i,
    {
        i -= 1;
        if g[i].name == *name {
            proof {
                lemma_refs_of_last(gv, name@, i as int);
            }
            return Some(i);
        }
    }
    proof {
        if graph_names(gv).contains(name@) {
            let k = choose|k: int| 0 <= k < graph_names(gv).len() && graph_names(gv)[k] == name@;
            assert(gv[k].0 == name@);
        }
    }
    None
}

/// Whether a walk from `node` reaches a name of `path` or one it passed:
/// a depth-first search along the references, with `path` the names on the
/// way to `node`.
fn has_cycle(g: &Vec<TypeRefs>, node: &String, path: &mut Vec<String>) -> (b: bool)
    requires
        names_view(old(path)@).no_duplicates(),
        forall|k: int| 0 <= k < old(path)@.len() ==> graph_names(graph_view(g@)).contains(
            #[trigger] old(path)@[k]@,
        ),
    ensures
        b == closes(graph_view(g@), names_view(old(path)@), node@),
        !b ==> final(path)@ == old(path)@,
    decreases graph_names(graph_view(g@)).to_set().len() - old(path)@.len(),
{
    let ghost gv = graph_view(g@);
    let ghost p = names_view(path@);
    proof {
        lemma_unique_within(p, graph_names(gv));
        assert(p.len() == path@.len());
    }
    let mut k: usize = 0;
    while k < path.len()
        invariant
            k <= path@.len(),
            p == names_view(path@),
            path@ == old(path)@,
            gv == graph_view(g@),
            forall|j: int| 0 <= j < k ==> path@[j]@ != node@,
        decreases path@.len() - k,
    {
        if path[k] == *node {
            proof {
                assert(p[k as int] == node@);
                lemma_closes_here(gv, p, node@);
            }
            return true;
        }
        k += 1;
    }
    proof {
        if p.contains(node@) {
            let j = choose|j: int| 0 <= j < p.len() && p[j] == node@;
            assert(path@[j]@ == node@);
        }
    }
    match last_named(g, node) {
        None => {
            proof {
                lemma_refs_of_undeclared(gv, node@);
                lemma_closes_undeclared(gv, p, node@);
            }
            false
        },
        Some(i) => {
            let ghost before = path@;
            path.push(node.clone());
            proof {
                assert(names_view(path@) =~= p.push(node@));
                assert(graph_names(gv)[i as int] == node@);
                assert forall|j: int| 0 <= j < path@.len() implies graph_names(gv).contains(
                    #[trigger] path@[j]@,
                ) by {
                    if j < before.len() {
                        assert(path@[j] == before[j]);
                    } else {
                        assert(graph_names(gv)[i as int] == path@[j]@);
                    }
                }
                assert(p.push(node@).no_duplicates());
                lemma_unique_within(p.push(node@), graph_names(gv));
            }
            let ghost pushed = path@;
            let ghost pp = p.push(node@);
            let mut c: usize = 0;
            while c < g[i].refs.len()
                invariant
                    i < g@.len(),
                    c <= g@[i as int].refs@.len(),
                    gv == graph_view(g@),
                    names_view(g@[i as int].refs@) == refs_of(gv, node@),
                    path@ == pushed,
                    names_view(pushed) == pp,
                    pp == p.push(node@),
                    pp.no_duplicates(),
                    forall|j: int| 0 <= j < pushed.len() ==> graph_names(gv).contains(#[trigger] pushed[j]@),
                    pp.len() <= graph_names(gv).to_set().len(),
                    p.len() == before.len(),
                    before == old(path)@,
                    p == names_view(old(path)@),
                    forall|cc: int| 0 <= cc < c ==> !closes(gv, pp, #[trigger] g@[i as int].refs@[cc]@),
                decreases g@[i as int].refs@.len() - c,
            {
                let found = has_cycle(g, &g[i].refs[c], path);
                if found {
                    proof {
                        assert(names_view(g@[i as int].refs@)[c as int] == g@[i as int].refs@[c as int]@);
                        lemma_closes_step(gv, p, node@, g@[i as int].refs@[c as int]@);
                    }
                    return true;
                }
                c += 1;
            }
            path.pop();
            proof {
                assert(path@ =~= before);
                if closes(gv, p, node@) {
                    lemma_closes_back(gv, p, node@);
                    let ch = choose|ch: Seq<char>| refs_of(gv, node@).contains(ch) && #[trigger] closes(
                        gv,
                        p.push(node@),
                        ch,
                    );
                    let cc = choose|cc: int| 0 <= cc < refs_of(gv, node@).len() && refs_of(gv, node@)[cc]
                        == ch;
                    assert(names_view(g@[i as int].refs@)[cc] == g@[i as int].refs@[cc]@);
                }
            }
            false
        },
    }
}

/// Rejects by-value reference cycles among the struct and enum definitions,
/// which have no finite layout: the first definition (structs, then enums)
/// from which a walk along by-value references comes back to a type it has
/// passed is reported.
pub fn check_type_cycles(structs: &[StructDef], enums: &[EnumDef]) -> (r: Result<(), HuziError>)
    ensures
        r is Ok <==> forall|i: int|
            0 <= i < type_graph(structs@, enums@).len() ==> !reaches_cycle(
                type_graph(structs@, enums@),
                #[trigger] type_graph(structs@, enums@)[i].0,
            ),
        r matches Err(e) ==> exists|i: int|
            first_cyclic(type_graph(structs@, enums@), i) && e@ == cycle_error(
                #[trigger] type_graph(structs@, enums@)[i].0,
            ),
{
    let g = build_graph(structs, enums);
    let ghost gv = graph_view(g@);
    let mut i: usize = 0;
    while i < g.len()
        invariant
            i <= g@.len(),
            gv == graph_view(g@),
            gv == type_graph(structs@, enums@),
            forall|k: int| 0 <= k < i ==> !reaches_cycle(gv, #[trigger] gv[k].0),
        decreases g@.len() - i,
    {
        let mut path: Vec<String> = Vec::new();
        proof {
            assert(names_view(path@) =~= Seq::<Seq<char>>::empty());
        }
        let found = has_cycle(&g, &g[i].name, &mut path);
        proof {
            lemma_closes_empty(gv, gv[i as int].0);
        }
        if found {
            let mut message = "Type '".to_owned();
            message.append(g[i].name.as_str());
            message.append("' is part of a by-value reference cycle");
            let e = HuziError::new_global(message.as_str());
            proof {
                assert(first_cyclic(gv, i as int));
            }
            return Err(e);
        }
        i += 1;
    }
    Ok(())
}

// ---------------------------------------------------------------------------
// Registration of type names, and lowering of written types.
// ---------------------------------------------------------------------------

/// The kinds of value that generated code works with.
#[derive(Debug, Clone, PartialEq, Eq)]
pub enum ValueType {
    /// An integer of the given bit width (1 for `bool`, 8 for `char`).
    Int(u32),
    /// A floating-point number of the given bit width.
    Float(u32),
    /// A pointer: strings and arrays.
    Ptr,
    /// A user struct or data-carrying enum, by name; a tuple, by how its
    /// type is written.
    Aggregate(String),
}

/// Mathematical form of a value type.
pub enum ValueTypeView {
    Int(u32),
    Float(u32),
    Ptr,
    Aggregate(Seq<char>),
}

impl View for ValueType {
    type V = ValueTypeView;

    open spec fn view(&self) -> ValueTypeView {
        match self {
            ValueType::Int(w) => ValueTypeView::Int(*w),
            ValueType::Float(w) => ValueTypeView::Float(*w),
            ValueType::Ptr => ValueTypeView::Ptr,
            ValueType::Aggregate(n) => ValueTypeView::Aggregate(n@),
        }
    }
}

/// An enum carries data when some variant has a payload.
pub open spec fn carries_data(variants: Seq<EnumVariant>) -> bool {
    exists|k: int| 0 <= k < variants.len() && (#[trigger] variants[k]).payload is Some
}

/// The value type of a primitive type name, as written in a `Named` type.
pub open spec fn primitive_named(n: Seq<char>) -> Option<ValueTypeView> {
    if n == "i32"@ || n == "u32"@ {
        Some(ValueTypeView::Int(32))
    } else if n == "i64"@ || n == "u64"@ {
        Some(ValueTypeView::Int(64))
    } else if n == "f32"@ {
        Some(ValueTypeView::Float(32))
    } else if n == "f64"@ {
        Some(ValueTypeView::Float(64))
    } else if n == "bool"@ {
        Some(ValueTypeView::Int(1))
    } else if n == "char"@ {
        Some(ValueTypeView::Int(8))
    } else if n == "str"@ {
        Some(ValueTypeView::Ptr)
    } else {
        None
    }
}

/// A name of a sized number type: a letter for the kind (`i`, `u` or `f`)
/// and the width in bits (`32` or `64`).
pub open spec fn sized_number_name(n: Seq<char>) -> bool {
    n.len() == 3 && (n[0] == 'i' || n[0] == 'u' || n[0] == 'f') && ((n[1] == '3' && n[2] == '2') || (n[1] == '6'
        && n[2] == '4'))
}

/// The width a sized number type's name states: the number after its
/// letter.
pub open spec fn stated_width(n: Seq<char>) -> int {
    crate::lexer::digits_value(n.drop_first())
}

/// The built-in types that a name can stand for.
pub open spec fn is_builtin_type(t: TypeView) -> bool {
    t is I32 || t is I64 || t is U32 || t is U64 || t is F32 || t is F64 || t is Bool || t is Char || t is Str
}

/// A number type's name gives a number of the width it states (an integer
/// for `i` and `u`, a float for `f`), and every built-in type's name stands
/// for the same value type as the built-in type itself.
pub proof fn lemma_primitive_names_mean_their_types(n: Seq<char>, t: TypeView, structs: Seq<StructDef>, enums: Seq<EnumDef>)
    ensures
        sized_number_name(n) ==> primitive_named(n) == Some(
            if n[0] == 'f' {
                ValueTypeView::Float(stated_width(n) as u32)
            } else {
                ValueTypeView::Int(stated_width(n) as u32)
            },
        ),
        is_builtin_type(t) ==> primitive_named(crate::ast::type_text(t)) == lower(t, structs, enums),
{
    reveal(lower);
    reveal_strlit("i32");
    reveal_strlit("u32");
    reveal_strlit("i64");
    reveal_strlit("u64");
    reveal_strlit("f32");
    reveal_strlit("f64");
    reveal_strlit("bool");
    reveal_strlit("char");
    reveal_strlit("str");
    if sized_number_name(n) {
        let d = n.drop_first();
        assert(d.drop_last().drop_last().len() == 0);
        assert(d.drop_last().last() == n[1]);
        assert(d.last() == n[2]);
        let first = d.drop_last();
        assert(crate::lexer::digits_value(first.drop_last()) == 0);
        assert(crate::lexer::digits_value(first) == crate::lexer::digit_value(n[1]));
        assert(crate::lexer::digits_value(d) == crate::lexer::digit_value(n[1]) * 10 + crate::lexer::digit_value(
            n[2],
        ));
        if n[1] == '3' {
            assert(stated_width(n) == 32);
        } else {
            assert(stated_width(n) == 64);
        }
        if n[0] == 'i' && n[1] == '3' {
            assert(n =~= "i32"@);
        } else if n[0] == 'u' && n[1] == '3' {
            assert(n =~= "u32"@);
        } else if n[0] == 'f' && n[1] == '3' {
            assert(n =~= "f32"@);
        } else if n[0] == 'i' {
            assert(n =~= "i64"@);
        } else if n[0] == 'u' {
            assert(n =~= "u64"@);
        } else {
            assert(n =~= "f64"@);
        }
    }
    if is_builtin_type(t) {
        let w = crate::ast::type_text(t);
        if t is I32 {
        } else if t is U32 {
            assert(w[0] == 'u' && w[1] == '3');
        } else if t is I64 {
            assert(w[0] == 'i' && w[1] == '6');
        } else if t is U64 {
            assert(w[0] == 'u' && w[1] == '6');
        } else if t is F32 {
            assert(w[0] == 'f' && w[1] == '3');
        } else if t is F64 {
            assert(w[0] == 'f' && w[1] == '6');
        } else if t is Bool {
            assert(w.len() == 4 && w[0] == 'b');
        } else if t is Char {
            assert(w.len() == 4 && w[0] == 'c');
        } else {
            assert(w.len() == 3 && w[0] == 's');
        }
    }
}

/// The index of the first enum named `n`.
pub open spec fn enum_index(enums: Seq<EnumDef>, n: Seq<char>) -> int {
    choose|k: int| 0 <= k < enums.len() && enums[k].name@ == n && forall|m: int| 0 <= m < k ==> #[trigger] enums[m].name@ != n
}

/// The value type of a written type, given the declared structs and enums:
/// `None` for a name that is neither primitive nor declared.
#[verifier::opaque]
pub open spec fn lower(t: TypeView, structs: Seq<StructDef>, enums: Seq<EnumDef>) -> Option<ValueTypeView>
    decreases t,
{
    match t {
        TypeView::Tuple(ts) => if all_lower(ts, structs, enums) {
            Some(ValueTypeView::Aggregate(crate::ast::type_text(t)))
        } else {
            None
        },
        TypeView::I32 | TypeView::U32 | TypeView::Unit => Some(ValueTypeView::Int(32)),
        TypeView::I64 | TypeView::U64 => Some(ValueTypeView::Int(64)),
        TypeView::F32 => Some(ValueTypeView::Float(32)),
        TypeView::F64 => Some(ValueTypeView::Float(64)),
        TypeView::Bool => Some(ValueTypeView::Int(1)),
        TypeView::Char => Some(ValueTypeView::Int(8)),
        TypeView::Str | TypeView::Array(_, _) => Some(ValueTypeView::Ptr),
        TypeView::Named(n) => match primitive_named(n) {
            Some(v) => Some(v),
            None => if struct_names(structs).contains(n) {
                Some(ValueTypeView::Aggregate(n))
            } else if enum_names(enums).contains(n) {
                if carries_data(enums[enum_index(enums, n)].variants@) {
                    Some(ValueTypeView::Aggregate(n))
                } else {
                    Some(ValueTypeView::Int(32))
                }
            } else {
                None
            },
        },
    }
}

/// The error for a type name that is neither primitive nor declared.
pub open spec fn unsupported_error(n: Seq<char>) -> ErrorView {
    ErrorView { message: "Unsupported type: "@ + n, line: 0, column: 0 }
}

/// Every one of the types lowers.
pub open spec fn all_lower(ts: Seq<TypeView>, structs: Seq<StructDef>, enums: Seq<EnumDef>) -> bool
    decreases ts,
{
    if ts.len() == 0 {
        true
    } else {
        all_lower(ts.drop_last(), structs, enums) && lower(ts.last(), structs, enums) is Some
    }
}

/// The error for a written type that does not lower: that of its unknown
/// name, or of the first component of a tuple that does not lower.
pub open spec fn lower_error(t: TypeView, structs: Seq<StructDef>, enums: Seq<EnumDef>) -> ErrorView
    decreases t,
{
    match t {
        TypeView::Tuple(ts) => tuple_lower_error(ts, structs, enums),
        TypeView::Named(n) => unsupported_error(n),
        _ => unsupported_error(crate::ast::type_text(t)),
    }
}

/// The error of the first of the types that does not lower.
pub open spec fn tuple_lower_error(ts: Seq<TypeView>, structs: Seq<StructDef>, enums: Seq<EnumDef>) -> ErrorView
    decreases ts,
{
    if ts.len() == 0 {
        unsupported_error(Seq::empty())
    } else if !all_lower(ts.drop_last(), structs, enums) {
        tuple_lower_error(ts.drop_last(), structs, enums)
    } else {
        lower_error(ts.last(), structs, enums)
    }
}

proof fn lemma_all_lower_unfold(ts: Seq<TypeView>, structs: Seq<StructDef>, enums: Seq<EnumDef>)
    requires
        ts.len() > 0,
    ensures
        all_lower(ts, structs, enums) == (all_lower(ts.drop_last(), structs, enums) && lower(ts.last(), structs, enums) is Some),
{
    reveal(lower);
}

proof fn lemma_first_failure_decides(ts: Seq<TypeView>, j: int, structs: Seq<StructDef>, enums: Seq<EnumDef>)
    requires
        0 <= j <= ts.len(),
        !all_lower(ts.take(j), structs, enums),
    ensures
        !all_lower(ts, structs, enums),
        tuple_lower_error(ts, structs, enums) == tuple_lower_error(ts.take(j), structs, enums),
    decreases ts.len() - j,
{
    if j < ts.len() {
        assert(ts.take(j + 1).drop_last() =~= ts.take(j));
        lemma_first_failure_decides(ts, j + 1, structs, enums);
    } else {
        assert(ts.take(j) =~= ts);
    }
}

/// The error for a second definition of a type name.
pub open spec fn duplicate_type_error(n: Seq<char>) -> ErrorView {
    ErrorView { message: "Duplicate type definition: "@ + n, line: 0, column: 0 }
}

/// The name at `i` already stands earlier in `names`.
pub open spec fn repeats_at(names: Seq<Seq<char>>, i: int) -> bool {
    names.take(i).contains(names[i])
}

/// `i` is the first position from `from` on whose name stands earlier.
pub open spec fn first_repeat(names: Seq<Seq<char>>, from: int, i: int) -> bool {
    &&& from <= i < names.len()
    &&& repeats_at(names, i)
    &&& forall|k: int| from <= k < i ==> !#[trigger] repeats_at(names, k)
}

/// The value type of a primitive type name.
fn primitive_type(n: &String) -> (r: Option<ValueType>)
    ensures
        match r {
            Some(v) => primitive_named(n@) == Some(v@),
            None => primitive_named(n@) is None,
        },
{
    if is_text(n, "i32") || is_text(n, "u32") {
        Some(ValueType::Int(32))
    } else if is_text(n, "i64") || is_text(n, "u64") {
        Some(ValueType::Int(64))
    } else if is_text(n, "f32") {
        Some(ValueType::Float(32))
    } else if is_text(n, "f64") {
        Some(ValueType::Float(64))
    } else if is_text(n, "bool") {
        Some(ValueType::Int(1))
    } else if is_text(n, "char") {
        Some(ValueType::Int(8))
    } else if is_text(n, "str") {
        Some(ValueType::Ptr)
    } else {
        None
    }
}

/// Whether some variant has a payload.
fn has_payload(variants: &Vec<EnumVariant>) -> (b: bool)
    ensures
        b == carries_data(variants@),
{
    let mut i: usize = 0;
    while i < variants.len()
        invariant
            i <= variants@.len(),
            forall|k: int| 0 <= k < i ==> (#[trigger] variants@[k]).payload is None,
        decreases variants@.len() - i,
    {
        if variants[i].payload.is_some() {
            return true;
        }
        i += 1;
    }
    false
}

/// The value type of a written type, given the declared structs and enums;
/// a name that is neither primitive nor declared is an error.
pub fn lower_type(t: &Type, structs: &[StructDef], enums: &[EnumDef]) -> (r: Result<ValueType, HuziError>)
    ensures
        match r {
            Ok(v) => lower(t@, structs@, enums@) == Some(v@),
            Err(e) => lower(t@, structs@, enums@) is None && e@ == lower_error(t@, structs@, enums@),
        },
    decreases t,
{
    reveal(lower);
    match t {
        Type::Tuple(ts) => {
            let ghost tv = crate::ast::types_view(ts@);
            proof {
                crate::ast::lemma_types_view_len(ts@);
                assert(tv.take(0) =~= Seq::<TypeView>::empty());
            }
            let mut i: usize = 0;
            while i < ts.len()
                invariant
                    i <= ts@.len(),
                    *t == Type::Tuple(*ts),
                    tv == crate::ast::types_view(ts@),
                    tv.len() == ts@.len(),
                    forall|k: int| 0 <= k < ts@.len() ==> #[trigger] tv[k] == ts@[k]@,
                    all_lower(tv.take(i as int), structs@, enums@),
                decreases ts@.len() - i,
            {
                let c: &Type = &ts[i];
                proof {
                    lemma_all_lower_unfold(tv.take(i + 1), structs@, enums@);
                    assert(tv.take(i + 1).drop_last() =~= tv.take(i as int));
                    assert(tv.take(i + 1).last() == c@);
                    assert(decreases_to!(*t => *ts));
                    assert(decreases_to!(*ts => ts@));
                    assert(decreases_to!(ts@ => ts@[i as int]));
                }
                match lower_type(c, structs, enums) {
                    Ok(_) => {},
                    Err(e) => {
                        proof {
                            assert(lower(tv.take(i + 1).last(), structs@, enums@) is None);
                            assert(tv.take(i + 1).len() > 0);
                            assert(!all_lower(tv.take(i + 1), structs@, enums@));
                            assert(tuple_lower_error(tv.take(i + 1), structs@, enums@) == e@);
                            lemma_first_failure_decides(tv, i + 1, structs@, enums@);
                            reveal(lower);
                        }
                        return Err(e);
                    },
                }
                i += 1;
            }
            proof {
                assert(tv.take(i as int) =~= tv);
            }
            Ok(ValueType::Aggregate(t.text()))
        },
        Type::I32 | Type::U32 | Type::Unit => Ok(ValueType::Int(32)),
        Type::I64 | Type::U64 => Ok(ValueType::Int(64)),
        Type::F32 => Ok(ValueType::Float(32)),
        Type::F64 => Ok(ValueType::Float(64)),
        Type::Bool => Ok(ValueType::Int(1)),
        Type::Char => Ok(ValueType::Int(8)),
        Type::Str | Type::Array(_, _) => Ok(ValueType::Ptr),
        Type::Named(n) => {
            match primitive_type(n) {
                Some(v) => return Ok(v),
                None => {},
            }
            let mut i: usize = 0;
            while i < structs.len()
                invariant
                    i <= structs@.len(),
                    primitive_named(n@) is None,
                    t@ == TypeView::Named(n@),
                    forall|k: int| 0 <= k < i ==> (#[trigger] structs@[k]).name@ != n@,
                decreases structs@.len() - i,
            {
                if structs[i].name == *n {
                    proof {
                        assert(struct_names(structs@)[i as int] == n@);
                    }
                    proof {
                        reveal(lower);
                    }
                    return Ok(ValueType::Aggregate(n.clone()));
                }
                i += 1;
            }
            proof {
                if struct_names(structs@).contains(n@) {
                    let k = choose|k: int| 0 <= k < structs@.len() && #[trigger] struct_names(structs@)[k] == n@;
                    assert(structs@[k].name@ == n@);
                }
            }
            let mut j: usize = 0;
            while j < enums.len()
                invariant
                    j <= enums@.len(),
                    primitive_named(n@) is None,
                    t@ == TypeView::Named(n@),
                    !struct_names(structs@).contains(n@),
                    forall|k: int| 0 <= k < j ==> (#[trigger] enums@[k]).name@ != n@,
                decreases enums@.len() - j,
            {
                if enums[j].name == *n {
                    proof {
                        assert(enum_names(enums@)[j as int] == n@);
                        let c = enum_index(enums@, n@);
                        assert(0 <= c < enums@.len() && enums@[c].name@ == n@ && forall|m: int|
                            0 <= m < c ==> #[trigger] enums@[m].name@ != n@) by {
                            assert(enums@[j as int].name@ == n@);
                        }
                        if c < j {
                        } else if c > j {
                            assert(enums@[j as int].name@ != n@);
                        }
                    }
                    proof {
                        reveal(lower);
                    }
                    if has_payload(&enums[j].variants) {
                        return Ok(ValueType::Aggregate(n.clone()));
                    } else {
                        return Ok(ValueType::Int(32));
                    }
                }
                j += 1;
            }
            proof {
                if enum_names(enums@).contains(n@) {
                    let k = choose|k: int| 0 <= k < enums@.len() && #[trigger] enum_names(enums@)[k] == n@;
                    assert(enums@[k].name@ == n@);
                }
            }
            let mut message = "Unsupported type: ".to_owned();
            message.append(n.as_str());
            Err(HuziError::new_global(message.as_str()))
        },
    }
}

/// The first position from `from` on whose name already stands earlier.
fn find_repeat(names: &Vec<String>, from: usize) -> (r: Option<usize>)
    requires
        from <= names@.len(),
    ensures
        match r {
            Some(i) => first_repeat(names_view(names@), from as int, i as int),
            None => forall|k: int| from <= k < names@.len() ==> !#[trigger] repeats_at(names_view(names@), k),
        },
{
    let ghost nv = names_view(names@);
    let mut i: usize = from;
    while i < names.len()
        invariant
            from <= i <= names@.len(),
            nv == names_view(names@),
            forall|k: int| from <= k < i ==> !#[trigger] repeats_at(nv, k),
        decreases names@.len() - i,
    {
        let mut j: usize = 0;
        while j < i
            invariant
                j <= i < names@.len(),
                from <= i,
                nv == names_view(names@),
                forall|k: int| from <= k < i ==> !#[trigger] repeats_at(nv, k),
                forall|m: int| 0 <= m < j ==> names@[m]@ != names@[i as int]@,
            decreases i - j,
        {
            if names[j] == names[i] {
                proof {
                    assert(nv.take(i as int)[j as int] == nv[i as int]);
                }
                return Some(i);
            }
            j += 1;
        }
        proof {
            if repeats_at(nv, i as int) {
                let m = choose|m: int| 0 <= m < nv.take(i as int).len() && nv.take(i as int)[m] == nv[i as int];
                assert(names@[m]@ == names@[i as int]@);
            }
        }
        i += 1;
    }
    None
}

/// Registers the struct names: a struct name given twice is an error, at
/// the second struct that repeats an earlier one.
pub fn register_struct_names(structs: &[StructDef]) -> (r: Result<(), HuziError>)
    ensures
        r is Ok <==> forall|i: int|
            0 <= i < structs@.len() ==> !#[trigger] repeats_at(struct_names(structs@), i),
        r matches Err(e) ==> exists|i: int|
            first_repeat(struct_names(structs@), 0, i) && e@ == duplicate_type_error(
                #[trigger] structs@[i].name@,
            ),
{
    let names = collect_names(structs, &[]);
    proof {
        assert(names_view(names@) =~= struct_names(structs@));
    }
    match find_repeat(&names, 0) {
        Some(i) => {
            let mut message = "Duplicate type definition: ".to_owned();
            message.append(structs[i].name.as_str());
            proof {
                assert(names_view(names@)[i as int] == structs@[i as int].name@);
            }
            Err(HuziError::new_global(message.as_str()))
        },
        None => Ok(()),
    }
}

/// Registers the enum names after the struct names: an enum whose name is
/// a struct's or an earlier enum's is an error, at the first such enum.
pub fn register_enum_names(structs: &[StructDef], enums: &[EnumDef]) -> (r: Result<(), HuziError>)
    ensures
        r is Ok <==> forall|i: int|
            structs@.len() <= i < def_names(structs@, enums@).len() ==> !#[trigger] repeats_at(
                def_names(structs@, enums@),
                i,
            ),
        r matches Err(e) ==> exists|i: int|
            first_repeat(def_names(structs@, enums@), structs@.len() as int, i) && e@ == duplicate_type_error(
                #[trigger] def_names(structs@, enums@)[i],
            ),
{
    let names = collect_names(structs, enums);
    match find_repeat(&names, structs.len()) {
        Some(i) => {
            let mut message = "Duplicate type definition: ".to_owned();
            message.append(names[i].as_str());
            Err(HuziError::new_global(message.as_str()))
        },
        None => Ok(()),
    }
}

// ---------------------------------------------------------------------------
// Bodies of structs and enums.
// ---------------------------------------------------------------------------

/// The error for a written type that does not lower, if it does not.
pub open spec fn type_error(t: TypeView, structs: Seq<StructDef>, enums: Seq<EnumDef>) -> Option<ErrorView> {
    if lower(t, structs, enums) is None {
        Some(lower_error(t, structs, enums))
    } else {
        None
    }
}

/// The error for a struct with a field of its own type.
pub open spec fn self_containing_error(s: Seq<char>) -> ErrorView {
    ErrorView { message: "Struct '"@ + s + "' cannot contain itself by value"@, line: 0, column: 0 }
}

/// The error for a field name given twice in a struct.
pub open spec fn duplicate_field_error(f: Seq<char>, s: Seq<char>) -> ErrorView {
    ErrorView { message: "Duplicate field '"@ + f + "' in struct '"@ + s + "'"@, line: 0, column: 0 }
}

/// The error for a variant name given twice in an enum.
pub open spec fn duplicate_variant_error(v: Seq<char>, e: Seq<char>) -> ErrorView {
    ErrorView { message: "Duplicate variant '"@ + v + "' in enum '"@ + e + "'"@, line: 0, column: 0 }
}

/// The names of the fields, in order.
pub open spec fn field_names(fields: Seq<StructField>) -> Seq<Seq<char>> {
    fields.map_values(|f: StructField| f.name@)
}

/// The names of the variants, in order.
pub open spec fn variant_names(variants: Seq<EnumVariant>) -> Seq<Seq<char>> {
    variants.map_values(|v: EnumVariant| v.name@)
}

/// The check of field `j` of struct `d`: a field of the struct's own type,
/// then a type that does not lower, then a name that an earlier field has.
pub open spec fn field_error(d: StructDef, j: int, structs: Seq<StructDef>, enums: Seq<EnumDef>) -> Option<ErrorView> {
    let f = d.fields@[j];
    if f.field_type@ == TypeView::Named(d.name@) {
        Some(self_containing_error(d.name@))
    } else if type_error(f.field_type@, structs, enums) is Some {
        type_error(f.field_type@, structs, enums)
    } else if field_names(d.fields@).take(j).contains(f.name@) {
        Some(duplicate_field_error(f.name@, d.name@))
    } else {
        None
    }
}

/// The first error among the first `n` fields of `d`.
pub open spec fn fields_error(d: StructDef, n: int, structs: Seq<StructDef>, enums: Seq<EnumDef>) -> Option<ErrorView>
    decreases n,
{
    if n <= 0 {
        None
    } else {
        match fields_error(d, n - 1, structs, enums) {
            Some(e) => Some(e),
            None => field_error(d, n - 1, structs, enums),
        }
    }
}

/// The first error in the bodies of the first `n` structs.
pub open spec fn struct_bodies_error(structs: Seq<StructDef>, n: int, enums: Seq<EnumDef>) -> Option<ErrorView>
    decreases n,
{
    if n <= 0 {
        None
    } else {
        match struct_bodies_error(structs, n - 1, enums) {
            Some(e) => Some(e),
            None => fields_error(structs[n - 1], structs[n - 1].fields@.len() as int, structs, enums),
        }
    }
}

/// The check of variant `j` of enum `d`: a name that an earlier variant has,
/// then a payload type that does not lower.
pub open spec fn variant_error(d: EnumDef, j: int, structs: Seq<StructDef>, enums: Seq<EnumDef>) -> Option<ErrorView> {
    let v = d.variants@[j];
    if variant_names(d.variants@).take(j).contains(v.name@) {
        Some(duplicate_variant_error(v.name@, d.name@))
    } else {
        match v.payload {
            Some(t) => type_error(t@, structs, enums),
            None => None,
        }
    }
}

/// The first error among the first `n` variants of `d`.
pub open spec fn variants_error(d: EnumDef, n: int, structs: Seq<StructDef>, enums: Seq<EnumDef>) -> Option<ErrorView>
    decreases n,
{
    if n <= 0 {
        None
    } else {
        match variants_error(d, n - 1, structs, enums) {
            Some(e) => Some(e),
            None => variant_error(d, n - 1, structs, enums),
        }
    }
}

/// The first error in the bodies of the first `n` enums.
pub open spec fn enum_bodies_error(structs: Seq<StructDef>, enums: Seq<EnumDef>, n: int) -> Option<ErrorView>
    decreases n,
{
    if n <= 0 {
        None
    } else {
        match enum_bodies_error(structs, enums, n - 1) {
            Some(e) => Some(e),
            None => variants_error(enums[n - 1], enums[n - 1].variants@.len() as int, structs, enums),
        }
    }
}

/// How many of the first `n` variants carry a payload.
pub open spec fn payload_count(variants: Seq<EnumVariant>, n: int) -> nat
    decreases n,
{
    if n <= 0 {
        0
    } else {
        payload_count(variants, n - 1) + if variants[n - 1].payload is Some {
            1nat
        } else {
            0nat
        }
    }
}

proof fn lemma_payload_count_bound(variants: Seq<EnumVariant>, n: int)
    requires
        0 <= n,
    ensures
        payload_count(variants, n) <= n,
    decreases n,
{
    if n > 0 {
        lemma_payload_count_bound(variants, n - 1);
    }
}

/// Where a variant stands in its enum's layout: its tag, and for a variant
/// with a payload, the slot of the payload in the enum's payload union.
#[derive(Debug, Clone, Copy)]
pub struct VariantLayout {
    pub tag: usize,
    pub payload_slot: Option<usize>,
}

/// The layout of the variants of `variants`: tags count from 0 in
/// declaration order, payload slots count the variants with payloads.
pub open spec fn lays_out(layout: Seq<VariantLayout>, variants: Seq<EnumVariant>) -> bool {
    &&& layout.len() == variants.len()
    &&& forall|j: int|
        0 <= j < layout.len() ==> (#[trigger] layout[j]).tag == j && layout[j].payload_slot == if variants[j].payload is Some {
            Some(payload_count(variants, j) as usize)
        } else {
            None::<usize>
        }
}

proof fn lemma_fields_error_stays(d: StructDef, n: int, m: int, structs: Seq<StructDef>, enums: Seq<EnumDef>)
    requires
        0 <= n <= m,
        fields_error(d, n, structs, enums) is Some,
    ensures
        fields_error(d, m, structs, enums) == fields_error(d, n, structs, enums),
    decreases m - n,
{
    if n < m {
        lemma_fields_error_stays(d, n, m - 1, structs, enums);
    }
}

proof fn lemma_struct_bodies_error_stays(structs: Seq<StructDef>, n: int, m: int, enums: Seq<EnumDef>)
    requires
        0 <= n <= m,
        struct_bodies_error(structs, n, enums) is Some,
    ensures
        struct_bodies_error(structs, m, enums) == struct_bodies_error(structs, n, enums),
    decreases m - n,
{
    if n < m {
        lemma_struct_bodies_error_stays(structs, n, m - 1, enums);
    }
}

proof fn lemma_variants_error_stays(d: EnumDef, n: int, m: int, structs: Seq<StructDef>, enums: Seq<EnumDef>)
    requires
        0 <= n <= m,
        variants_error(d, n, structs, enums) is Some,
    ensures
        variants_error(d, m, structs, enums) == variants_error(d, n, structs, enums),
    decreases m - n,
{
    if n < m {
        lemma_variants_error_stays(d, n, m - 1, structs, enums);
    }
}

proof fn lemma_enum_bodies_error_stays(structs: Seq<StructDef>, enums: Seq<EnumDef>, n: int, m: int)
    requires
        0 <= n <= m,
        enum_bodies_error(structs, enums, n) is Some,
    ensures
        enum_bodies_error(structs, enums, m) == enum_bodies_error(structs, enums, n),
    decreases m - n,
{
    if n < m {
        lemma_enum_bodies_error_stays(structs, enums, n, m - 1);
    }
}

/// Checks the fields of `def` in order.
fn check_fields(def: &StructDef, structs: &[StructDef], enums: &[EnumDef]) -> (r: Result<(), HuziError>)
    ensures
        match r {
            Ok(()) => fields_error(*def, def.fields@.len() as int, structs@, enums@) is None,
            Err(e) => fields_error(*def, def.fields@.len() as int, structs@, enums@) == Some(e@),
        },
{
    let ghost total = def.fields@.len() as int;
    let mut seen: Vec<String> = Vec::new();
    let mut j: usize = 0;
    while j < def.fields.len()
        invariant
            j <= def.fields@.len(),
            total == def.fields@.len(),
            fields_error(*def, j as int, structs@, enums@) is None,
            names_view(seen@) == field_names(def.fields@).take(j as int),
        decreases def.fields@.len() - j,
    {
        let f = &def.fields[j];
        let own = match &f.field_type {
            Type::Named(n) => *n == def.name,
            _ => false,
        };
        if own {
            let mut message = "Struct '".to_owned();
            message.append(def.name.as_str());
            message.append("' cannot contain itself by value");
            let e = HuziError::new_global(message.as_str());
            proof {
                assert(fields_error(*def, j + 1, structs@, enums@) == Some(e@));
                lemma_fields_error_stays(*def, j + 1, total, structs@, enums@);
            }
            return Err(e);
        }
        match lower_type(&f.field_type, structs, enums) {
            Ok(_) => {},
            Err(e) => {
                proof {
                    assert(fields_error(*def, j + 1, structs@, enums@) == Some(e@));
                    lemma_fields_error_stays(*def, j + 1, total, structs@, enums@);
                }
                return Err(e);
            },
        }
        proof {
            assert(field_names(def.fields@)[j as int] == f.name@);
        }
        if contains_name(&seen, &f.name) {
            let mut message = "Duplicate field '".to_owned();
            message.append(f.name.as_str());
            message.append("' in struct '");
            message.append(def.name.as_str());
            message.append("'");
            let e = HuziError::new_global(message.as_str());
            proof {
                assert(fields_error(*def, j + 1, structs@, enums@) == Some(e@));
                lemma_fields_error_stays(*def, j + 1, total, structs@, enums@);
            }
            return Err(e);
        }
        let ghost before = seen@;
        seen.push(f.name.clone());
        proof {
            assert(names_view(seen@) =~= names_view(before).push(f.name@));
            assert(field_names(def.fields@).take(j + 1) =~= field_names(def.fields@).take(j as int).push(
                f.name@,
            ));
        }
        j += 1;
    }
    Ok(())
}

/// Checks the fields of every struct, in order: a field of the struct's own
/// type, a field type that does not lower, and a field name given twice are
/// errors, and the first one found is reported.
pub fn resolve_struct_bodies(structs: &[StructDef], enums: &[EnumDef]) -> (r: Result<(), HuziError>)
    ensures
        match r {
            Ok(()) => struct_bodies_error(structs@, structs@.len() as int, enums@) is None,
            Err(e) => struct_bodies_error(structs@, structs@.len() as int, enums@) == Some(e@),
        },
{
    let mut i: usize = 0;
    while i < structs.len()
        invariant
            i <= structs@.len(),
            struct_bodies_error(structs@, i as int, enums@) is None,
        decreases structs@.len() - i,
    {
        match check_fields(&structs[i], structs, enums) {
            Ok(()) => {},
            Err(e) => {
                proof {
                    lemma_struct_bodies_error_stays(structs@, i + 1, structs@.len() as int, enums@);
                }
                return Err(e);
            },
        }
        i += 1;
    }
    Ok(())
}

/// Checks the variants of `def` in order and lays them out.
fn layout_variants(def: &EnumDef, structs: &[StructDef], enums: &[EnumDef]) -> (r: Result<Vec<VariantLayout>, HuziError>)
    ensures
        match r {
            Ok(layout) => variants_error(*def, def.variants@.len() as int, structs@, enums@) is None
                && lays_out(layout@, def.variants@),
            Err(e) => variants_error(*def, def.variants@.len() as int, structs@, enums@) == Some(e@),
        },
{
    let ghost total = def.variants@.len() as int;
    let mut seen: Vec<String> = Vec::new();
    let mut layout: Vec<VariantLayout> = Vec::new();
    let mut slots: usize = 0;
    let mut j: usize = 0;
    while j < def.variants.len()
        invariant
            j <= def.variants@.len(),
            total == def.variants@.len(),
            variants_error(*def, j as int, structs@, enums@) is None,
            names_view(seen@) == variant_names(def.variants@).take(j as int),
            slots == payload_count(def.variants@, j as int),
            slots <= j,
            layout@.len() == j,
            forall|m: int|
                0 <= m < j ==> (#[trigger] layout@[m]).tag == m && layout@[m].payload_slot == if def.variants@[m].payload is Some {
                    Some(payload_count(def.variants@, m) as usize)
                } else {
                    None::<usize>
                },
        decreases def.variants@.len() - j,
    {
        let v = &def.variants[j];
        proof {
            assert(variant_names(def.variants@)[j as int] == v.name@);
        }
        if contains_name(&seen, &v.name) {
            let mut message = "Duplicate variant '".to_owned();
            message.append(v.name.as_str());
            message.append("' in enum '");
            message.append(def.name.as_str());
            message.append("'");
            let e = HuziError::new_global(message.as_str());
            proof {
                assert(variants_error(*def, j + 1, structs@, enums@) == Some(e@));
                lemma_variants_error_stays(*def, j + 1, total, structs@, enums@);
            }
            return Err(e);
        }
        let slot = match &v.payload {
            Some(t) => {
                match lower_type(t, structs, enums) {
                    Ok(_) => {},
                    Err(e) => {
                        proof {
                            assert(variants_error(*def, j + 1, structs@, enums@) == Some(e@));
                            lemma_variants_error_stays(*def, j + 1, total, structs@, enums@);
                        }
                        return Err(e);
                    },
                }
                let s = slots;
                slots = slots + 1;
                Some(s)
            },
            None => None,
        };
        layout.push(VariantLayout { tag: j, payload_slot: slot });
        let ghost before = seen@;
        seen.push(v.name.clone());
        proof {
            assert(names_view(seen@) =~= names_view(before).push(v.name@));
            assert(variant_names(def.variants@).take(j + 1) =~= variant_names(def.variants@).take(
                j as int,
            ).push(v.name@));
        }
        j += 1;
    }
    Ok(layout)
}

/// Checks the variants of every enum, in order, and lays them out: a
/// variant name given twice and a payload type that does not lower are
/// errors, and the first one found is reported.
pub fn resolve_enum_bodies(structs: &[StructDef], enums: &[EnumDef]) -> (r: Result<Vec<Vec<VariantLayout>>, HuziError>)
    ensures
        match r {
            Ok(layouts) => enum_bodies_error(structs@, enums@, enums@.len() as int) is None && layouts@.len()
                == enums@.len() && forall|i: int|
                0 <= i < enums@.len() ==> lays_out(#[trigger] layouts@[i]@, enums@[i].variants@),
            Err(e) => enum_bodies_error(structs@, enums@, enums@.len() as int) == Some(e@),
        },
{
    let mut layouts: Vec<Vec<VariantLayout>> = Vec::new();
    let mut i: usize = 0;
    while i < enums.len()
        invariant
            i <= enums@.len(),
            enum_bodies_error(structs@, enums@, i as int) is None,
            layouts@.len() == i,
            forall|k: int| 0 <= k < i ==> lays_out(#[trigger] layouts@[k]@, enums@[k].variants@),
        decreases enums@.len() - i,
    {
        match layout_variants(&enums[i], structs, enums) {
            Ok(layout) => {
                layouts.push(layout);
            },
            Err(e) => {
                proof {
                    lemma_enum_bodies_error_stays(structs@, enums@, i + 1, enums@.len() as int);
                }
                return Err(e);
            },
        }
        i += 1;
    }
    Ok(layouts)
}

// ---------------------------------------------------------------------------
// Uses of declared types: struct literals, variant lookup and construction.
// ---------------------------------------------------------------------------

/// `i` is the first position of `n` in `names`.
pub open spec fn first_index(names: Seq<Seq<char>>, n: Seq<char>, i: int) -> bool {
    &&& 0 <= i < names.len()
    &&& names[i] == n
    &&& forall|k: int| 0 <= k < i ==> #[trigger] names[k] != n
}

/// The first error of a struct literal that gives the fields `given` for
/// the struct `d`: a field given twice, then a field the struct does not
/// have, then a field of the struct that is not given.
pub open spec fn literal_error(d: StructDef, given: Seq<Seq<char>>) -> Option<ErrorView> {
    let declared = field_names(d.fields@);
    if exists|i: int| 0 <= i < given.len() && #[trigger] repeats_at(given, i) {
        let i = choose|i: int| first_repeat(given, 0, i);
        Some(global_error("Duplicate field '"@ + given[i] + "' in struct literal"@))
    } else if exists|i: int| 0 <= i < given.len() && !declared.contains(#[trigger] given[i]) {
        let i = choose|i: int|
            0 <= i < given.len() && !declared.contains(given[i]) && forall|k: int|
                0 <= k < i ==> declared.contains(#[trigger] given[k]);
        Some(global_error("Struct '"@ + d.name@ + "' has no field '"@ + given[i] + "'"@))
    } else if exists|j: int| 0 <= j < declared.len() && !given.contains(#[trigger] declared[j]) {
        let j = choose|j: int|
            0 <= j < declared.len() && !given.contains(declared[j]) && forall|k: int|
                0 <= k < j ==> given.contains(#[trigger] declared[k]);
        Some(global_error("Missing field '"@ + declared[j] + "' in struct literal for '"@ + d.name@ + "'"@))
    } else {
        None
    }
}

/// An error that belongs to no position.
pub open spec fn global_error(message: Seq<char>) -> ErrorView {
    ErrorView { message, line: 0, column: 0 }
}

/// The first position of `name` in `names`, if it is there.
fn position_of(names: &Vec<String>, name: &String) -> (r: Option<usize>)
    ensures
        match r {
            Some(i) => first_index(names_view(names@), name@, i as int),
            None => !names_view(names@).contains(name@),
        },
{
    let ghost nv = names_view(names@);
    let mut i: usize = 0;
    while i < names.len()
        invariant
            i <= names@.len(),
            nv == names_view(names@),
            forall|k: int| 0 <= k < i ==> #[trigger] nv[k] != name@,
        decreases names@.len() - i,
    {
        if names[i] == *name {
            return Some(i);
        }
        i += 1;
    }
    proof {
        if nv.contains(name@) {
            let k = choose|k: int| 0 <= k < nv.len() && nv[k] == name@;
            assert(nv[k] != name@);
        }
    }
    None
}

fn field_name_list(d: &StructDef) -> (v: Vec<String>)
    ensures
        names_view(v@) == field_names(d.fields@),
{
    let mut v: Vec<String> = Vec::new();
    let mut i: usize = 0;
    while i < d.fields.len()
        invariant
            i <= d.fields@.len(),
            names_view(v@) == field_names(d.fields@).take(i as int),
        decreases d.fields@.len() - i,
    {
        let ghost before = v@;
        v.push(d.fields[i].name.clone());
        proof {
            assert(names_view(v@) =~= names_view(before).push(d.fields@[i as int].name@));
            assert(field_names(d.fields@).take(i + 1) =~= field_names(d.fields@).take(i as int).push(
                d.fields@[i as int].name@,
            ));
        }
        i += 1;
    }
    proof {
        assert(field_names(d.fields@).take(d.fields@.len() as int) =~= field_names(d.fields@));
    }
    v
}

/// Checks a literal of the struct `d` that gives the fields `given`, in
/// order; for each given field, the position of the struct's field it sets.
pub fn struct_literal_fields(d: &StructDef, given: &Vec<String>) -> (r: Result<Vec<usize>, HuziError>)
    ensures
        match r {
            Ok(slots) => literal_error(*d, names_view(given@)) is None && slots@.len() == given@.len()
                && forall|i: int|
                0 <= i < given@.len() ==> first_index(
                    field_names(d.fields@),
                    #[trigger] names_view(given@)[i],
                    slots@[i] as int,
                ),
            Err(e) => literal_error(*d, names_view(given@)) == Some(e@),
        },
{
    let ghost gv = names_view(given@);
    let declared = field_name_list(d);
    let ghost dv = field_names(d.fields@);
    match find_repeat(given, 0) {
        Some(i) => {
            let mut message = "Duplicate field '".to_owned();
            message.append(given[i].as_str());
            message.append("' in struct literal");
            proof {
                assert(gv[i as int] == given@[i as int]@);
                assert(first_repeat(gv, 0, i as int));
                let c = choose|c: int| first_repeat(gv, 0, c);
                if c < i {
                    assert(!repeats_at(gv, c));
                } else if c > i {
                    assert(!repeats_at(gv, i as int));
                }
            }
            return Err(HuziError::new_global(message.as_str()));
        },
        None => {},
    }
    let mut slots: Vec<usize> = Vec::new();
    let mut i: usize = 0;
    while i < given.len()
        invariant
            i <= given@.len(),
            gv == names_view(given@),
            dv == names_view(declared@),
            dv == field_names(d.fields@),
            slots@.len() == i,
            forall|k: int| 0 <= k < i ==> first_index(dv, #[trigger] gv[k], slots@[k] as int),
            forall|c: int| 0 <= c < gv.len() ==> !#[trigger] repeats_at(gv, c),
        decreases given@.len() - i,
    {
        match position_of(&declared, &given[i]) {
            Some(j) => {
                slots.push(j);
            },
            None => {
                let mut message = "Struct '".to_owned();
                message.append(d.name.as_str());
                message.append("' has no field '");
                message.append(given[i].as_str());
                message.append("'");
                proof {
                    assert(gv[i as int] == given@[i as int]@);
                    assert(!dv.contains(gv[i as int]));
                    assert forall|k: int| 0 <= k < i implies dv.contains(#[trigger] gv[k]) by {
                        assert(dv[slots@[k] as int] == gv[k]);
                    }
                    let c = choose|c: int|
                        0 <= c < gv.len() && !dv.contains(gv[c]) && forall|k: int|
                            0 <= k < c ==> dv.contains(#[trigger] gv[k]);
                    if c < i {
                    } else if c > i {
                        assert(dv.contains(gv[i as int]));
                    }
                }
                return Err(HuziError::new_global(message.as_str()));
            },
        }
        i += 1;
    }
    proof {
        assert forall|k: int| 0 <= k < gv.len() implies dv.contains(#[trigger] gv[k]) by {
            assert(dv[slots@[k] as int] == gv[k]);
        }
    }
    let mut j: usize = 0;
    while j < declared.len()
        invariant
            j <= declared@.len(),
            gv == names_view(given@),
            dv == names_view(declared@),
            dv == field_names(d.fields@),
            forall|k: int| 0 <= k < j ==> gv.contains(#[trigger] dv[k]),
            forall|c: int| 0 <= c < gv.len() ==> !#[trigger] repeats_at(gv, c),
            forall|k: int| 0 <= k < gv.len() ==> dv.contains(#[trigger] gv[k]),
            slots@.len() == gv.len(),
            forall|k: int| 0 <= k < gv.len() ==> first_index(dv, #[trigger] gv[k], slots@[k] as int),
        decreases declared@.len() - j,
    {
        if !contains_name(given, &declared[j]) {
            let mut message = "Missing field '".to_owned();
            message.append(declared[j].as_str());
            message.append("' in struct literal for '");
            message.append(d.name.as_str());
            message.append("'");
            proof {
                assert(dv[j as int] == declared@[j as int]@);
                let c = choose|c: int|
                    0 <= c < dv.len() && !gv.contains(dv[c]) && forall|k: int|
                        0 <= k < c ==> gv.contains(#[trigger] dv[k]);
                if c < j {
                } else if c > j {
                    assert(gv.contains(dv[j as int]));
                }
            }
            return Err(HuziError::new_global(message.as_str()));
        }
        proof {
            assert(dv[j as int] == declared@[j as int]@);
        }
        j += 1;
    }
    Ok(slots)
}

/// The error for a variant that the enum does not have.
pub open spec fn no_variant_error(e: Seq<char>, v: Seq<char>) -> ErrorView {
    global_error("Enum '"@ + e + "' has no variant '"@ + v + "'"@)
}

/// The variant named `variant` of the enum `d`: its position, which is also
/// its tag.
pub fn find_variant(d: &EnumDef, variant: &String) -> (r: Result<usize, HuziError>)
    ensures
        match r {
            Ok(j) => first_index(variant_names(d.variants@), variant@, j as int),
            Err(e) => !variant_names(d.variants@).contains(variant@) && e@ == no_variant_error(d.name@, variant@),
        },
{
    let ghost vn = variant_names(d.variants@);
    let mut j: usize = 0;
    while j < d.variants.len()
        invariant
            j <= d.variants@.len(),
            vn == variant_names(d.variants@),
            forall|k: int| 0 <= k < j ==> #[trigger] vn[k] != variant@,
        decreases d.variants@.len() - j,
    {
        proof {
            assert(vn[j as int] == d.variants@[j as int].name@);
        }
        if d.variants[j].name == *variant {
            return Ok(j);
        }
        j += 1;
    }
    proof {
        if vn.contains(variant@) {
            let k = choose|k: int| 0 <= k < vn.len() && vn[k] == variant@;
            assert(vn[k] != variant@);
        }
    }
    let mut message = "Enum '".to_owned();
    message.append(d.name.as_str());
    message.append("' has no variant '");
    message.append(variant.as_str());
    message.append("'");
    Err(HuziError::new_global(message.as_str()))
}

/// The error for arguments given to a variant without payload.
pub open spec fn unit_variant_error(e: Seq<char>, v: Seq<char>) -> ErrorView {
    global_error("Unit variant '"@ + e + "::"@ + v + "' takes no arguments"@)
}

/// The error for a payload variant not given exactly one argument.
pub open spec fn payload_arity_error(e: Seq<char>, v: Seq<char>) -> ErrorView {
    global_error("Variant '"@ + e + "::"@ + v + "' expects exactly 1 argument"@)
}

/// Checks the construction `d::variant(args)` with `nargs` arguments: the
/// variant must exist, a variant without payload takes none and one with a
/// payload takes exactly one. The variant's position is returned.
pub fn variant_construct(d: &EnumDef, variant: &String, nargs: usize) -> (r: Result<usize, HuziError>)
    ensures
        match r {
            Ok(j) => first_index(variant_names(d.variants@), variant@, j as int) && (if d.variants@[j as int].payload
                is Some {
                nargs == 1
            } else {
                nargs == 0
            }),
            Err(e) => {
                ||| !variant_names(d.variants@).contains(variant@) && e@ == no_variant_error(d.name@, variant@)
                ||| exists|j: int|
                    first_index(variant_names(d.variants@), variant@, j) && (#[trigger] d.variants@[j]).payload
                        is None && nargs != 0 && e@ == unit_variant_error(d.name@, variant@)
                ||| exists|j: int|
                    first_index(variant_names(d.variants@), variant@, j) && (#[trigger] d.variants@[j]).payload
                        is Some && nargs != 1 && e@ == payload_arity_error(d.name@, variant@)
            },
        },
{
    let j = match find_variant(d, variant) {
        Ok(j) => j,
        Err(e) => return Err(e),
    };
    proof {
        assert(variant_names(d.variants@)[j as int] == d.variants@[j as int].name@);
    }
    if d.variants[j].payload.is_none() {
        if nargs != 0 {
            let mut message = "Unit variant '".to_owned();
            message.append(d.name.as_str());
            message.append("::");
            message.append(variant.as_str());
            message.append("' takes no arguments");
            return Err(HuziError::new_global(message.as_str()));
        }
    } else if nargs != 1 {
        let mut message = "Variant '".to_owned();
        message.append(d.name.as_str());
        message.append("::");
        message.append(variant.as_str());
        message.append("' expects exactly 1 argument");
        return Err(HuziError::new_global(message.as_str()));
    }
    Ok(j)
}

// ---------------------------------------------------------------------------
// `match`: what is matched, and binding a payload.
// ---------------------------------------------------------------------------

/// The enum that the patterns of a `match` name: that of the first
/// variant pattern.
pub open spec fn pattern_enum(arms: Seq<MatchArm>) -> Option<Seq<char>>
    decreases arms.len(),
{
    if arms.len() == 0 {
        None
    } else {
        match arms[0].pattern {
            Pattern::Variant { enum_name, .. } => Some(enum_name@),
            Pattern::Wildcard => pattern_enum(arms.drop_first()),
        }
    }
}

/// The enum named by the first variant pattern of `arms`, if any.
pub fn first_pattern_enum(arms: &Vec<MatchArm>) -> (r: Option<String>)
    ensures
        match r {
            Some(n) => pattern_enum(arms@) == Some(n@),
            None => pattern_enum(arms@) is None,
        },
{
    let mut i: usize = 0;
    proof {
        assert(arms@.skip(0) =~= arms@);
    }
    while i < arms.len()
        invariant
            i <= arms@.len(),
            pattern_enum(arms@) == pattern_enum(arms@.skip(i as int)),
        decreases arms@.len() - i,
    {
        proof {
            assert(arms@.skip(i as int)[0] == arms@[i as int]);
            assert(arms@.skip(i as int).drop_first() =~= arms@.skip(i + 1));
        }
        match &arms[i].pattern {
            Pattern::Variant { enum_name, .. } => return Some(enum_name.clone()),
            Pattern::Wildcard => {},
        }
        i += 1;
    }
    proof {
        assert(arms@.skip(i as int).len() == 0);
    }
    None
}

/// What a `match` reads its tag from.
#[derive(Debug, Clone, Copy, PartialEq, Eq, Structural)]
pub enum MatchTarget {
    /// A data-carrying enum value: the tag is its first field; the position
    /// of the enum among the definitions.
    Data(usize),
    /// A plain 32-bit tag, of the enum at this position when the patterns
    /// name one.
    Tag(Option<usize>),
}

/// `k` is the first enum named `n`.
pub open spec fn first_enum(enums: Seq<EnumDef>, n: Seq<char>, k: int) -> bool {
    first_index(enum_names(enums), n, k)
}

/// The error for a `match` whose patterns name another enum than its
/// scrutinee.
pub open spec fn match_mismatch_error(p: Seq<char>, n: Seq<char>) -> ErrorView {
    global_error("Match arms use '"@ + p + "' but the scrutinee is '"@ + n + "'"@)
}

/// The error for an unknown enum name.
pub open spec fn unknown_enum_error(n: Seq<char>) -> ErrorView {
    global_error("Unknown enum: "@ + n)
}

/// The error for matching a data-carrying enum's patterns on a plain tag.
pub open spec fn plain_scrutinee_error(n: Seq<char>) -> ErrorView {
    global_error("Cannot match '"@ + n + "' against a plain i32 scrutinee; it carries data"@)
}

/// The error for a scrutinee that is no enum value.
pub open spec fn scrutinee_error() -> ErrorView {
    global_error("match scrutinee must be an enum value"@)
}

/// The first enum named `name`.
fn enum_position(enums: &[EnumDef], name: &String) -> (r: Option<usize>)
    ensures
        match r {
            Some(k) => first_enum(enums@, name@, k as int),
            None => !enum_names(enums@).contains(name@),
        },
{
    let ghost en = enum_names(enums@);
    let mut k: usize = 0;
    while k < enums.len()
        invariant
            k <= enums@.len(),
            en == enum_names(enums@),
            forall|m: int| 0 <= m < k ==> #[trigger] en[m] != name@,
        decreases enums@.len() - k,
    {
        proof {
            assert(en[k as int] == enums@[k as int].name@);
        }
        if enums[k].name == *name {
            return Some(k);
        }
        k += 1;
    }
    proof {
        if en.contains(name@) {
            let m = choose|m: int| 0 <= m < en.len() && en[m] == name@;
            assert(en[m] != name@);
        }
    }
    None
}

/// The data-carrying enum named `n`, if there is one.
pub open spec fn data_enum(enums: Seq<EnumDef>, n: Seq<char>) -> Option<int> {
    if enum_names(enums).contains(n) && carries_data(enums[enum_index(enums, n)].variants@) {
        Some(enum_index(enums, n))
    } else {
        None
    }
}

/// What a `match` on a scrutinee of type `t` reads, given the enum that its
/// patterns name.
pub open spec fn match_target_of(t: ValueTypeView, pattern: Option<Seq<char>>, enums: Seq<EnumDef>) -> Result<MatchTarget, ErrorView> {
    match t {
        ValueTypeView::Aggregate(n) => match data_enum(enums, n) {
            Some(k) => match pattern {
                Some(p) => if p != n {
                    Err(match_mismatch_error(p, n))
                } else {
                    Ok(MatchTarget::Data(k as usize))
                },
                None => Ok(MatchTarget::Data(k as usize)),
            },
            None => Err(scrutinee_error()),
        },
        ValueTypeView::Int(w) => if w != 32 {
            Err(scrutinee_error())
        } else {
            match pattern {
                None => Ok(MatchTarget::Tag(None)),
                Some(p) => if !enum_names(enums).contains(p) {
                    Err(unknown_enum_error(p))
                } else if data_enum(enums, p) is Some {
                    Err(plain_scrutinee_error(p))
                } else {
                    Ok(MatchTarget::Tag(Some(enum_index(enums, p) as usize)))
                },
            }
        },
        _ => Err(scrutinee_error()),
    }
}

/// The text of an optional string.
pub open spec fn opt_text(p: Option<&String>) -> Option<Seq<char>> {
    match p {
        Some(s) => Some(s@),
        None => None,
    }
}

/// The first enum named `n`, and whether it carries data.
fn enum_kind(enums: &[EnumDef], n: &String) -> (r: Option<(usize, bool)>)
    ensures
        match r {
            Some((k, data)) => enum_names(enums@).contains(n@) && k == enum_index(enums@, n@) && data == (data_enum(
                enums@,
                n@,
            ) is Some) && (data ==> data_enum(enums@, n@) == Some(k as int)),
            None => !enum_names(enums@).contains(n@) && data_enum(enums@, n@) is None,
        },
{
    match enum_position(enums, n) {
        Some(k) => {
            proof {
                lemma_enum_index(enums@, n@, k as int);
            }
            let data = has_payload(&enums[k].variants);
            Some((k, data))
        },
        None => None,
    }
}

/// What a `match` on a scrutinee of type `scrutinee` reads, given the enum
/// its patterns name: a data-carrying enum's value must be matched with
/// that enum's patterns; a plain tag may be matched with a simple enum's
/// patterns; anything else is no enum value.
pub fn match_target(scrutinee: &ValueType, pattern: Option<&String>, enums: &[EnumDef]) -> (r: Result<MatchTarget, HuziError>)
    ensures
        match r {
            Ok(t) => match_target_of(scrutinee@, opt_text(pattern), enums@) == Ok::<MatchTarget, ErrorView>(t),
            Err(e) => match_target_of(scrutinee@, opt_text(pattern), enums@) == Err::<MatchTarget, ErrorView>(e@),
        },
{
    match scrutinee {
        ValueType::Aggregate(n) => {
            match enum_kind(enums, n) {
                Some((k, true)) => {
                    match pattern {
                        Some(p) => if *p != *n {
                            let mut message = "Match arms use '".to_owned();
                            message.append(p.as_str());
                            message.append("' but the scrutinee is '");
                            message.append(n.as_str());
                            message.append("'");
                            return Err(HuziError::new_global(message.as_str()));
                        },
                        None => {},
                    }
                    Ok(MatchTarget::Data(k))
                },
                _ => Err(HuziError::new_global("match scrutinee must be an enum value")),
            }
        },
        ValueType::Int(w) => {
            if *w != 32 {
                return Err(HuziError::new_global("match scrutinee must be an enum value"));
            }
            match pattern {
                None => Ok(MatchTarget::Tag(None)),
                Some(p) => match enum_kind(enums, p) {
                    None => {
                        let mut message = "Unknown enum: ".to_owned();
                        message.append(p.as_str());
                        Err(HuziError::new_global(message.as_str()))
                    },
                    Some((k, data)) => {
                        if data {
                            let mut message = "Cannot match '".to_owned();
                            message.append(p.as_str());
                            message.append("' against a plain i32 scrutinee; it carries data");
                            Err(HuziError::new_global(message.as_str()))
                        } else {
                            Ok(MatchTarget::Tag(Some(k)))
                        }
                    },
                },
            }
        },
        _ => Err(HuziError::new_global("match scrutinee must be an enum value")),
    }
}

/// The first enum of a name is the one `enum_index` picks.
proof fn lemma_enum_index(enums: Seq<EnumDef>, n: Seq<char>, k: int)
    requires
        first_enum(enums, n, k),
    ensures
        enum_index(enums, n) == k,
        enum_names(enums).contains(n),
{
    assert(enum_names(enums)[k] == enums[k].name@);
    assert(enums[k].name@ == n && forall|m: int| 0 <= m < k ==> #[trigger] enums[m].name@ != n) by {
        assert forall|m: int| 0 <= m < k implies #[trigger] enums[m].name@ != n by {
            assert(enum_names(enums)[m] == enums[m].name@);
        }
    }
    let c = enum_index(enums, n);
    if c < k {
        assert(enums[c].name@ != n);
    } else if c > k {
        assert(enums[k].name@ != n);
    }
}

/// The error for binding the payload of a variant that has none to bind.
pub open spec fn no_payload_error(e: Seq<char>, v: Seq<char>) -> ErrorView {
    global_error("Variant '"@ + e + "::"@ + v + "' has no payload to bind"@)
}

/// Binding the payload of variant `j` of `d` in a `match` on a
/// data-carrying value (`data`) or on a plain tag: the payload's slot in the
/// layout, or an error where there is no payload to bind.
pub fn payload_binding(d: &EnumDef, layout: &Vec<VariantLayout>, j: usize, data: bool) -> (r: Result<usize, HuziError>)
    requires
        lays_out(layout@, d.variants@),
        j < d.variants@.len(),
    ensures
        match r {
            Ok(slot) => data && d.variants@[j as int].payload is Some && slot == payload_count(
                d.variants@,
                j as int,
            ),
            Err(e) => !(data && d.variants@[j as int].payload is Some) && e@ == no_payload_error(
                d.name@,
                d.variants@[j as int].name@,
            ),
        },
{
    let slot = layout[j].payload_slot;
    proof {
        assert(layout@[j as int].tag == j);
        lemma_payload_count_bound(d.variants@, j as int);
    }
    match slot {
        Some(s) => if data {
            Ok(s)
        } else {
            let mut message = "Variant '".to_owned();
            message.append(d.name.as_str());
            message.append("::");
            message.append(d.variants[j].name.as_str());
            message.append("' has no payload to bind");
            Err(HuziError::new_global(message.as_str()))
        },
        None => {
            let mut message = "Variant '".to_owned();
            message.append(d.name.as_str());
            message.append("::");
            message.append(d.variants[j].name.as_str());
            message.append("' has no payload to bind");
            Err(HuziError::new_global(message.as_str()))
        },
    }
}

/// A struct literal that passes the checks sets every field of its struct
/// exactly once (the struct's fields having distinct names, as
/// `resolve_struct_bodies` ensures): it gives as many fields as the struct
/// has, the positions it sets are distinct, and each position is set.
pub proof fn lemma_literal_sets_every_field_once(d: StructDef, given: Seq<Seq<char>>, slots: Seq<usize>)
    requires
        field_names(d.fields@).no_duplicates(),
        literal_error(d, given) is None,
        slots.len() == given.len(),
        forall|i: int| 0 <= i < given.len() ==> first_index(field_names(d.fields@), #[trigger] given[i], slots[i] as int),
    ensures
        given.len() == d.fields@.len(),
        forall|i: int, k: int| 0 <= i < k < given.len() ==> slots[i] != slots[k],
        forall|j: int| 0 <= j < d.fields@.len() ==> #[trigger] slots.contains(j as usize),
{
    let declared = field_names(d.fields@);
    assert(!exists|i: int| 0 <= i < given.len() && #[trigger] repeats_at(given, i));
    assert(!exists|i: int| 0 <= i < given.len() && !declared.contains(#[trigger] given[i]));
    assert(!exists|j: int| 0 <= j < declared.len() && !given.contains(#[trigger] declared[j]));
    assert(given.no_duplicates()) by {
        assert forall|i: int, k: int| 0 <= i < given.len() && 0 <= k < given.len() && i != k implies given[i]
            != given[k] by {
            if given[i] == given[k] {
                if i < k {
                    assert(given.take(k)[i] == given[k]);
                    assert(repeats_at(given, k));
                } else {
                    assert(given.take(i)[k] == given[i]);
                    assert(repeats_at(given, i));
                }
            }
        }
    }
    assert forall|i: int, k: int| 0 <= i < k < given.len() implies slots[i] != slots[k] by {
        assert(first_index(declared, given[i], slots[i] as int));
        assert(first_index(declared, given[k], slots[k] as int));
    }
    assert forall|j: int| 0 <= j < d.fields@.len() implies #[trigger] slots.contains(j as usize) by {
        assert(declared[j] == d.fields@[j].name@);
        assert(given.contains(declared[j]));
        let i = choose|i: int| 0 <= i < given.len() && given[i] == declared[j];
        assert(first_index(declared, given[i], slots[i] as int));
        assert(declared[slots[i] as int] == declared[j]);
        assert(slots[i] as int == j);
        assert(slots[i] == j as usize);
    }
    assert(given.to_set() =~= declared.to_set()) by {
        assert forall|x: Seq<char>| given.to_set().contains(x) implies declared.to_set().contains(x) by {
            let i = choose|i: int| 0 <= i < given.len() && given[i] == x;
            assert(declared.contains(given[i]));
        }
        assert forall|x: Seq<char>| declared.to_set().contains(x) implies given.to_set().contains(x) by {
            let j = choose|j: int| 0 <= j < declared.len() && declared[j] == x;
            assert(given.contains(declared[j]));
        }
    }
    given.unique_seq_to_set();
    declared.unique_seq_to_set();
}

} // verus!
