//! Name resolution: the items that a source file defines or imports.
use vstd::prelude::*;

use crate::ast::{Db, Def, FnDef, Ident, StructDef};
use crate::input::Source;
use crate::tp::{FnSig, TypeData, TypeId, Types};

verus! {

/// A named item of a module.
pub enum Item {
    Function { full_name: String, def: FnDef },
    Type { def: StructDef },
}

/// What an item is, without its printed name.
#[derive(Debug, Clone, Copy, PartialEq, Eq, Structural)]
pub enum ItemV {
    Function(FnDef),
    Type(StructDef),
}

impl View for Item {
    type V = ItemV;

    open spec fn view(&self) -> ItemV {
        match self {
            Item::Function { def, .. } => ItemV::Function(*def),
            Item::Type { def } => ItemV::Type(*def),
        }
    }
}

/// The items of a module, each name at most once.
pub struct ModuleDefs {
    pub items: Vec<(Ident, Item)>,
}

/// The items visible after the first `n` definitions of source `sf`: a
/// function or struct binds its name, an import brings in all items of the
/// imported source; a later binding of a name replaces an earlier one.
pub open spec fn defs_map(db: Db, sf: int, n: int) -> Map<Ident, ItemV>
    decreases sf, n + 1,
{
    if sf < 0 || sf >= db.files@.len() || n <= 0 || n > db.files@[sf].defs@.len() {
        Map::empty()
    } else {
        let m = defs_map(db, sf, n - 1);
        match db.files@[sf].defs@[n - 1] {
            Def::Fn(f) => if f.0 < db.fns@.len() {
                m.insert(db.fns@[f.0 as int].name, ItemV::Function(f))
            } else {
                m
            },
            Def::Struct(s) => if s.0 < db.structs@.len() {
                m.insert(db.structs@[s.0 as int].name, ItemV::Type(s))
            } else {
                m
            },
            Def::Import(_, src) => if src.0 < sf {
                m.union_prefer_right(module_map(db, src.0 as int))
            } else {
                m
            },
        }
    }
}

/// The items visible in source `sf`.
pub open spec fn module_map(db: Db, sf: int) -> Map<Ident, ItemV>
    decreases sf, (if 0 <= sf < db.files@.len() { db.files@[sf].defs@.len() as int } else { 0 }) + 2,
{
    if 0 <= sf < db.files@.len() {
        defs_map(db, sf, db.files@[sf].defs@.len() as int)
    } else {
        Map::empty()
    }
}

/// The map of an association list whose keys are distinct.
pub open spec fn assoc_map(items: Seq<(Ident, Item)>) -> Map<Ident, ItemV> {
    Map::new(
        |k: Ident| exists|i: int| 0 <= i < items.len() && items[i].0 == k,
        |k: Ident| {
            let i = choose|i: int| 0 <= i < items.len() && items[i].0 == k;
            items[i].1@
        },
    )
}

/// The keys of an association list are distinct.
pub open spec fn keys_distinct(items: Seq<(Ident, Item)>) -> bool {
    forall|i: int, j: int| #![trigger items[i], items[j]] 0 <= i < j < items.len() ==> items[i].0 != items[j].0
}

/// In a list with distinct keys, a key is at one place only.
pub proof fn lemma_distinct_unique(items: Seq<(Ident, Item)>, a: int, b: int)
    requires
        keys_distinct(items),
        0 <= a < items.len(),
        0 <= b < items.len(),
        items[a].0 == items[b].0,
    ensures
        a == b,
{
    if a < b {
        assert(items[a].0 != items[b].0);
    } else if b < a {
        assert(items[b].0 != items[a].0);
    }
}

/// Replacing the entry of a key binds the key to the new item.
pub proof fn lemma_assoc_update(before: Seq<(Ident, Item)>, i: int, k: Ident, v: Item)
    requires
        keys_distinct(before),
        0 <= i < before.len(),
        before[i].0 == k,
    ensures
        keys_distinct(before.update(i, (k, v))),
        assoc_map(before.update(i, (k, v))) == assoc_map(before).insert(k, v@),
{
    let after = before.update(i, (k, v));
    assert forall|x: int, y: int| #![trigger after[x], after[y]] 0 <= x < y < after.len() implies after[x].0 != after[y].0 by {
        assert(before[x].0 != before[y].0);
    }
    let m2 = assoc_map(after);
    let m1 = assoc_map(before).insert(k, v@);
    assert forall|key: Ident| #[trigger] m2.contains_key(key) <==> m1.contains_key(key) by {
        if m1.contains_key(key) && key != k {
            let j = choose|j: int| 0 <= j < before.len() && before[j].0 == key;
            assert(after[j].0 == key);
        }
        if m2.contains_key(key) && key != k {
            let j = choose|j: int| 0 <= j < after.len() && after[j].0 == key;
            assert(before[j].0 == key);
        }
        if key == k {
            assert(after[i].0 == k);
        }
    }
    assert forall|key: Ident| #[trigger] m2.contains_key(key) implies m2[key] == m1[key] by {
        let j2 = choose|j: int| 0 <= j < after.len() && after[j].0 == key;
        if key == k {
            lemma_distinct_unique(after, j2, i);
        } else {
            let j1 = choose|j: int| 0 <= j < before.len() && before[j].0 == key;
            lemma_distinct_unique(before, j1, j2);
        }
    }
    assert(m2 =~= m1);
}

/// Adding an entry for a new key binds the key to the item.
pub proof fn lemma_assoc_push(before: Seq<(Ident, Item)>, k: Ident, v: Item)
    requires
        keys_distinct(before),
        forall|j: int| 0 <= j < before.len() ==> before[j].0 != k,
    ensures
        keys_distinct(before.push((k, v))),
        assoc_map(before.push((k, v))) == assoc_map(before).insert(k, v@),
{
    let after = before.push((k, v));
    let n = before.len() as int;
    assert forall|x: int, y: int| #![trigger after[x], after[y]] 0 <= x < y < after.len() implies after[x].0 != after[y].0 by {
        if y < n {
            assert(before[x].0 != before[y].0);
        }
    }
    let m2 = assoc_map(after);
    let m1 = assoc_map(before).insert(k, v@);
    assert forall|key: Ident| #[trigger] m2.contains_key(key) <==> m1.contains_key(key) by {
        if m1.contains_key(key) && key != k {
            let j = choose|j: int| 0 <= j < before.len() && before[j].0 == key;
            assert(after[j].0 == key);
        }
        if m2.contains_key(key) && key != k {
            let j = choose|j: int| 0 <= j < after.len() && after[j].0 == key;
            assert(before[j].0 == key);
        }
        if key == k {
            assert(after[n].0 == k);
        }
    }
    assert forall|key: Ident| #[trigger] m2.contains_key(key) implies m2[key] == m1[key] by {
        let j2 = choose|j: int| 0 <= j < after.len() && after[j].0 == key;
        if key == k {
            lemma_distinct_unique(after, j2, n);
        } else {
            let j1 = choose|j: int| 0 <= j < before.len() && before[j].0 == key;
            lemma_distinct_unique(after, j1, j2);
        }
    }
    assert(m2 =~= m1);
}

/// A copy of an item.
pub fn copy_item(it: &Item) -> (r: Item)
    ensures
        r@ == it@,
{
    match it {
        Item::Function { full_name, def } => Item::Function { full_name: full_name.clone(), def: *def },
        Item::Type { def } => Item::Type { def: *def },
    }
}

/// Binds `k` to `v` in an association list, replacing an earlier binding.
fn assoc_insert(items: &mut Vec<(Ident, Item)>, k: Ident, v: Item)
    requires
        keys_distinct(old(items)@),
    ensures
        keys_distinct(final(items)@),
        assoc_map(final(items)@) == assoc_map(old(items)@).insert(k, v@),
{
    let n = items.len();
    let ghost vv = v@;
    let mut i: usize = 0;
    while i < n
        invariant
            n == items@.len(),
            i <= n,
            items@ == old(items)@,
            keys_distinct(items@),
            forall|j: int| 0 <= j < i ==> items@[j].0 != k,
        decreases n - i,
    {
        if items[i].0 == k {
            let ghost before = items@;
            items.set(i, (k, v));
            proof {
                lemma_assoc_update(before, i as int, k, v);
                assert(items@ == before.update(i as int, (k, v)));
            }
            return;
        }
        i = i + 1;
    }
    let ghost before = items@;
    items.push((k, v));
    proof {
        lemma_assoc_push(before, k, v);
    }
}

/// The items that source `sf` defines or imports, later bindings of a name
/// replacing earlier ones.
pub fn get_defs(db: &Db, sf: Source) -> (m: ModuleDefs)
    requires
        sf.0 < db.files@.len(),
    ensures
        keys_distinct(m.items@),
        assoc_map(m.items@) == module_map(*db, sf.0 as int),
    decreases sf.0,
{
    let mut items: Vec<(Ident, Item)> = Vec::new();
    let defs = &db.files[sf.0].defs;
    let n = defs.len();
    assert(assoc_map(items@) =~= Map::<Ident, ItemV>::empty());
    for i in 0..n
        invariant
            sf.0 < db.files@.len(),
            defs@ == db.files@[sf.0 as int].defs@,
            n == defs@.len(),
            keys_distinct(items@),
            assoc_map(items@) == defs_map(*db, sf.0 as int, i as int),
    {
        match defs[i] {
            Def::Fn(f) => {
                if f.0 < db.fns.len() {
                    let name = db.fns[f.0].name;
                    let full_name = if name.0 < db.idents.len() {
                        db.idents[name.0].clone()
                    } else {
                        String::new()
                    };
                    assoc_insert(&mut items, name, Item::Function { full_name, def: f });
                }
            },
            Def::Struct(s) => {
                if s.0 < db.structs.len() {
                    let name = db.structs[s.0].name;
                    assoc_insert(&mut items, name, Item::Type { def: s });
                }
            },
            Def::Import(_, src) => {
                if src.0 < sf.0 {
                    let child = get_defs(db, src);
                    let ghost m0 = assoc_map(items@);
                    let ghost cm = assoc_map(child.items@);
                    let cn = child.items.len();
                    for j in 0..cn
                        invariant
                            cn == child.items@.len(),
                            keys_distinct(child.items@),
                            cm == assoc_map(child.items@),
                            keys_distinct(items@),
                            assoc_map(items@) == m0.union_prefer_right(assoc_map(child.items@.take(j as int))),
                    {
                        let it = copy_item(&child.items[j].1);
                        assoc_insert(&mut items, child.items[j].0, it);
                        proof {
                            let pre = child.items@.take(j as int);
                            let post = child.items@.take(j + 1);
                            let key = child.items@[j as int].0;
                            assert(assoc_map(post) =~= assoc_map(pre).insert(key, child.items@[j as int].1@)) by {
                                assert forall|x: Ident| #[trigger] assoc_map(post).contains_key(x) <==> assoc_map(pre).insert(key, child.items@[j as int].1@).contains_key(x) by {
                                    if assoc_map(pre).contains_key(x) {
                                        let w = choose|w: int| 0 <= w < pre.len() && pre[w].0 == x;
                                        assert(post[w].0 == x);
                                    }
                                    if x == key {
                                        assert(post[j as int].0 == x);
                                    }
                                    if assoc_map(post).contains_key(x) && x != key {
                                        let w = choose|w: int| 0 <= w < post.len() && post[w].0 == x;
                                        assert(pre[w].0 == x);
                                    }
                                }
                                assert forall|x: Ident| #[trigger] assoc_map(post).contains_key(x) implies assoc_map(post)[x] == assoc_map(pre).insert(key, child.items@[j as int].1@)[x] by {
                                    let w2 = choose|w: int| 0 <= w < post.len() && post[w].0 == x;
                                    if x == key {
                                        assert(w2 == j);
                                    } else {
                                        let w1 = choose|w: int| 0 <= w < pre.len() && pre[w].0 == x;
                                        assert(w1 == w2);
                                    }
                                }
                            }
                            assert(assoc_map(items@) =~= m0.union_prefer_right(assoc_map(post)));
                        }
                    }
                    assert(child.items@.take(cn as int) =~= child.items@);
                }
            },
        }
    }
    ModuleDefs { items }
}

/// The item named `name` in source `sf`, if there is one.
pub fn get_item(db: &Db, sf: Source, name: Ident) -> (r: Option<Item>)
    requires
        sf.0 < db.files@.len(),
    ensures
        module_map(*db, sf.0 as int).contains_key(name) ==> (r matches Some(it) && it@ == module_map(
            *db,
            sf.0 as int,
        )[name]),
        !module_map(*db, sf.0 as int).contains_key(name) ==> r is None,
{
    let defs = get_defs(db, sf);
    let n = defs.items.len();
    for i in 0..n
        invariant
            n == defs.items@.len(),
            keys_distinct(defs.items@),
            assoc_map(defs.items@) == module_map(*db, sf.0 as int),
            forall|j: int| 0 <= j < i ==> defs.items@[j].0 != name,
    {
        if defs.items[i].0 == name {
            proof {
                let m = assoc_map(defs.items@);
                assert(m.contains_key(name));
                let w = choose|w: int| 0 <= w < defs.items@.len() && defs.items@[w].0 == name;
                assert(w == i);
            }
            return Some(copy_item(&defs.items[i].1));
        }
    }
    None
}

/// The signature of a function: the types of its arguments and its result
/// type, the empty tuple where it declares none.
pub fn parse_fn_signature(db: &Db, types: &mut Types, func: FnDef) -> (sig: FnSig)
    requires
        func.0 < db.fns@.len(),
    ensures
        sig.args@ == db.fns@[func.0 as int].args@.map_values(|a: (crate::ast::PatternId, TypeId)| a.1),
        db.fns@[func.0 as int].ret matches Some(t) ==> sig.ret == t && final(types)@ == old(types)@,
        db.fns@[func.0 as int].ret is None ==> sig.ret.0 == old(types)@.len() && final(types)@ == old(
            types,
        )@.push(crate::tp::TypeDataV::Tuple(Seq::empty())),
{
    let f = &db.fns[func.0];
    let mut args: Vec<TypeId> = Vec::new();
    for i in 0..f.args.len()
        invariant
            f == db.fns@[func.0 as int],
            args@ == f.args@.take(i as int).map_values(|a: (crate::ast::PatternId, TypeId)| a.1),
    {
        args.push(f.args[i].1);
        assert(args@ =~= f.args@.take(i + 1).map_values(|a: (crate::ast::PatternId, TypeId)| a.1));
    }
    assert(f.args@.take(f.args@.len() as int) =~= f.args@);
    let ret = match f.ret {
        Some(t) => t,
        None => {
            let t = TypeData::Tuple(Vec::new());
            assert(t@ == crate::tp::TypeDataV::Tuple(Seq::empty()));
            t.wrap(types)
        },
    };
    FnSig { args, ret }
}


/// In a well-formed syntax tree, the items of a module are definitions that exist.
pub proof fn lemma_module_map_valid(db: Db, sf: int, name: Ident)
    requires
        db.defs_wf(),
        module_map(db, sf).contains_key(name),
    ensures
        module_map(db, sf)[name] matches ItemV::Function(f) ==> f.0 < db.fns@.len(),
        module_map(db, sf)[name] matches ItemV::Type(s) ==> s.0 < db.structs@.len(),
    decreases sf, (if 0 <= sf < db.files@.len() { db.files@[sf].defs@.len() as int } else { 0 }) + 2,
{
    lemma_defs_map_valid(db, sf, db.files@[sf].defs@.len() as int, name);
}

/// In a well-formed syntax tree, the items visible after some definitions exist.
pub proof fn lemma_defs_map_valid(db: Db, sf: int, n: int, name: Ident)
    requires
        db.defs_wf(),
        defs_map(db, sf, n).contains_key(name),
    ensures
        defs_map(db, sf, n)[name] matches ItemV::Function(f) ==> f.0 < db.fns@.len(),
        defs_map(db, sf, n)[name] matches ItemV::Type(s) ==> s.0 < db.structs@.len(),
    decreases sf, n + 1,
{
    if 0 <= sf < db.files@.len() && 0 < n <= db.files@[sf].defs@.len() {
        let m = defs_map(db, sf, n - 1);
        match db.files@[sf].defs@[n - 1] {
            Def::Import(_, src) => {
                if src.0 < sf && module_map(db, src.0 as int).contains_key(name) {
                    lemma_module_map_valid(db, src.0 as int, name);
                } else if m.contains_key(name) {
                    lemma_defs_map_valid(db, sf, n - 1, name);
                }
            },
            Def::Fn(f) => {
                if m.contains_key(name) {
                    lemma_defs_map_valid(db, sf, n - 1, name);
                }
            },
            Def::Struct(s) => {
                if m.contains_key(name) {
                    lemma_defs_map_valid(db, sf, n - 1, name);
                }
            },
        }
    }
}

} // verus!
