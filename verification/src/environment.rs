//! Scopes of names: the items a file or block defines itself, and the
//! environments it imports.

use std::sync::Arc;

use vstd::prelude::*;

use crate::storage::bytes_eq;

verus! {

/// The names visible in a scope: its own items (`locals`) and, behind them,
/// the items of the environments it imports, searched in import order.
pub struct Environment<T> {
    imports: Vec<Arc<Environment<T>>>,
    locals: Vec<(Vec<u8>, T)>,
}

/// No name occurs twice.
pub open spec fn distinct_names<T>(locals: Seq<(Vec<u8>, T)>) -> bool {
    forall|i: int, j: int|
        0 <= i < locals.len() && 0 <= j < locals.len() && i != j ==> locals[i].0@ != locals[j].0@
}

/// The item stored under `name` in a list of local items.
pub open spec fn local_get<T>(locals: Seq<(Vec<u8>, T)>, name: Seq<u8>) -> Option<T>
    decreases locals.len(),
{
    if locals.len() == 0 {
        None
    } else if locals.last().0@ == name {
        Some(locals.last().1)
    } else {
        local_get(locals.drop_last(), name)
    }
}

/// A list of local items as a map.
pub open spec fn local_map<T>(locals: Seq<(Vec<u8>, T)>) -> Map<Seq<u8>, T>
    decreases locals.len(),
{
    if locals.len() == 0 {
        Map::empty()
    } else {
        local_map(locals.drop_last()).insert(locals.last().0@, locals.last().1)
    }
}

impl<T> Environment<T> {
    /// The environments imported, in order.
    pub closed spec fn imported(&self) -> Seq<Environment<T>> {
        self.imports@.map_values(|e: Arc<Environment<T>>| *e)
    }

    /// The items defined in this scope itself.
    pub closed spec fn own(&self) -> Seq<(Vec<u8>, T)> {
        self.locals@
    }

    /// The items defined in this scope itself, by name.
    pub open spec fn locals_map(&self) -> Map<Seq<u8>, T> {
        local_map(self.own())
    }

    /// Local names are distinct, here and in every imported environment.
    pub closed spec fn wf(&self) -> bool
        decreases self, 1nat,
    {
        &&& distinct_names(self.locals@)
        &&& all_wf(self.imports@)
    }

    /// What `get` finds for `name`: the local item, else the first import
    /// that has one.
    pub closed spec fn lookup(&self, name: Seq<u8>) -> Option<T>
        decreases self, 1nat,
    {
        match local_get(self.locals@, name) {
            Some(t) => Some(t),
            None => {
                proof {
                    assert(decreases_to!(self => self.imports));
                    assert(decreases_to!(self.imports => self.imports@));
                }
                lookup_in(self.imports@, name)
            },
        }
    }

    /// Every item reachable from this scope, as collected by `all_items`:
    /// imports first, in order, each overriding the ones before it, and the
    /// local items last.
    pub closed spec fn items(&self) -> Map<Seq<u8>, T>
        decreases self, 1nat,
    {
        proof {
            assert(decreases_to!(self => self.imports));
            assert(decreases_to!(self.imports => self.imports@));
        }
        items_of(self.imports@).union_prefer_right(local_map(self.locals@))
    }
}

/// Every one of `envs` is well formed.
pub closed spec fn all_wf<T>(envs: Seq<Arc<Environment<T>>>) -> bool
    decreases envs, 0nat,
{
    if envs.len() == 0 {
        true
    } else {
        envs[0].wf() && all_wf(envs.subrange(1, envs.len() as int))
    }
}

proof fn lemma_all_wf<T>(envs: Seq<Arc<Environment<T>>>)
    ensures
        all_wf(envs) <==> forall|i: int| 0 <= i < envs.len() ==> #[trigger] envs[i].wf(),
    decreases envs.len(),
{
    if envs.len() > 0 {
        let rest = envs.subrange(1, envs.len() as int);
        lemma_all_wf(rest);
        if all_wf(envs) {
            assert forall|i: int| 0 <= i < envs.len() implies #[trigger] envs[i].wf() by {
                if i > 0 {
                    assert(envs[i] == rest[i - 1]);
                }
            }
        }
        if forall|i: int| 0 <= i < envs.len() ==> #[trigger] envs[i].wf() {
            assert forall|i: int| 0 <= i < rest.len() implies #[trigger] rest[i].wf() by {
                assert(rest[i] == envs[i + 1]);
            }
            assert(envs[0].wf());
            assert(all_wf(rest));
        }
    }
}

/// The first of `envs` that knows `name`, and what it knows.
pub closed spec fn lookup_in<T>(envs: Seq<Arc<Environment<T>>>, name: Seq<u8>) -> Option<T>
    decreases envs, 0nat,
{
    if envs.len() == 0 {
        None
    } else {
        proof {
            assert(decreases_to!(envs => envs[0]));
            assert(decreases_to!(envs => envs.subrange(1, envs.len() as int)));
        }
        match envs[0].lookup(name) {
            Some(t) => Some(t),
            None => lookup_in(envs.subrange(1, envs.len() as int), name),
        }
    }
}

/// The items of `envs`, later environments overriding earlier ones.
pub closed spec fn items_of<T>(envs: Seq<Arc<Environment<T>>>) -> Map<Seq<u8>, T>
    decreases envs, 0nat,
{
    if envs.len() == 0 {
        Map::empty()
    } else {
        proof {
            assert(decreases_to!(envs => envs[envs.len() - 1]));
            assert(decreases_to!(envs => envs.subrange(0, envs.len() - 1)));
        }
        items_of(envs.subrange(0, envs.len() - 1)).union_prefer_right(envs[envs.len() - 1].items())
    }
}


/// Index of `name` among `locals`, searching from the end as `local_get` does.
fn find_local<T>(locals: &Vec<(Vec<u8>, T)>, name: &[u8]) -> (r: Option<usize>)
    ensures
        match r {
            Some(k) => k < locals@.len() && locals@[k as int].0@ == name@ && local_get(locals@, name@)
                == Some(locals@[k as int].1),
            None => local_get(locals@, name@) is None,
        },
{
    let mut k = locals.len();
    assert(locals@.take(k as int) =~= locals@);
    while k > 0
        invariant
            k <= locals@.len(),
            local_get(locals@, name@) == local_get(locals@.take(k as int), name@),
        decreases k,
    {
        assert(locals@.take(k as int).drop_last() =~= locals@.take(k - 1));
        if bytes_eq(locals[k - 1].0.as_slice(), name) {
            return Some(k - 1);
        }
        k -= 1;
    }
    None
}

proof fn lemma_local_get_map<T>(locals: Seq<(Vec<u8>, T)>, name: Seq<u8>)
    ensures
        local_get(locals, name) == local_map(locals).get(name),
    decreases locals.len(),
{
    if locals.len() > 0 {
        lemma_local_get_map(locals.drop_last(), name);
    }
}

/// `local_get` finds `name` exactly when some entry carries it, and with
/// distinct names it finds that entry.
proof fn lemma_local_get_index<T>(locals: Seq<(Vec<u8>, T)>, name: Seq<u8>)
    ensures
        local_get(locals, name) is None <==> forall|k: int| 0 <= k < locals.len() ==> #[trigger] locals[k].0@ != name,
        distinct_names(locals) ==> forall|k: int|
            0 <= k < locals.len() && #[trigger] locals[k].0@ == name ==> local_get(locals, name) == Some(locals[k].1),
    decreases locals.len(),
{
    if locals.len() > 0 {
        let init = locals.drop_last();
        lemma_local_get_index(init, name);
        assert forall|k: int| 0 <= k < init.len() implies #[trigger] init[k] == locals[k] by {}
        if distinct_names(locals) {
            assert(distinct_names(init)) by {
                assert forall|i: int, j: int|
                    0 <= i < init.len() && 0 <= j < init.len() && i != j implies init[i].0@ != init[j].0@ by {
                    assert(init[i] == locals[i] && init[j] == locals[j]);
                }
            }
        }
        if local_get(locals, name) is None {
            assert forall|k: int| 0 <= k < locals.len() implies #[trigger] locals[k].0@ != name by {
                if k < init.len() {
                    assert(init[k] == locals[k]);
                }
            }
        }
    }
}

impl<T> Environment<T> {
    /// An environment with no items and no imports.
    pub fn new() -> (r: Environment<T>)
        ensures
            r.wf(),
            r.imported() == Seq::<Environment<T>>::empty(),
            r.own() == Seq::<(Vec<u8>, T)>::empty(),
            r.imported_arcs() == Seq::<Arc<Environment<T>>>::empty(),
            r.locals_map() == Map::<Seq<u8>, T>::empty(),
            forall|name: Seq<u8>| #[trigger] r.lookup(name) is None,
    {
        let r = Environment { imports: Vec::new(), locals: Vec::new() };
        assert(r.imported() =~= Seq::<Environment<T>>::empty());
        assert(r.imported_arcs() =~= Seq::<Arc<Environment<T>>>::empty());
        r
    }

    /// The items defined in this scope itself.
    pub fn locals(&self) -> (r: &Vec<(Vec<u8>, T)>)
        ensures
            r@ == self.own(),
    {
        &self.locals
    }

    /// The item `name` refers to: the local one, else the first found among
    /// the imports, in import order.
    pub fn get(&self, name: &[u8]) -> (r: Option<&T>)
        ensures
            crate::ast::opt_deref(r) == self.lookup(name@),
        decreases self,
    {
        match find_local(&self.locals, name) {
            Some(k) => Some(&self.locals[k].1),
            None => {
                let n = self.imports.len();
                let mut i: usize = 0;
                assert(self.imports@.subrange(0, n as int) =~= self.imports@);
                while i < n
                    invariant
                        n == self.imports@.len(),
                        i <= n,
                        local_get(self.locals@, name@) is None,
                        self.lookup(name@) == lookup_in(self.imports@.subrange(i as int, n as int), name@),
                    decreases n - i,
                {
                    let ghost rest = self.imports@.subrange(i as int, n as int);
                    assert(rest[0] == self.imports@[i as int]);
                    assert(rest.subrange(1, rest.len() as int) =~= self.imports@.subrange(i + 1, n as int));
                    proof {
                        assert(decreases_to!(self => self.imports));
                        assert(decreases_to!(self.imports => self.imports@));
                        assert(decreases_to!(self.imports@ => self.imports@[i as int]));
                    }
                    let found = self.imports[i].get(name);
                    if found.is_some() {
                        return found;
                    }
                    i += 1;
                }
                None
            },
        }
    }

    /// The local item stored under `name`, ignoring the imports.
    pub fn get_local(&self, name: &[u8]) -> (r: Option<&T>)
        ensures
            crate::ast::opt_deref(r) == self.locals_map().get(name@),
    {
        proof {
            lemma_local_get_map(self.locals@, name@);
        }
        match find_local(&self.locals, name) {
            Some(k) => Some(&self.locals[k].1),
            None => None,
        }
    }

    /// Whether `name` refers to anything here or in the imports.
    pub fn contains(&self, name: &[u8]) -> (r: bool)
        ensures
            r == self.lookup(name@) is Some,
    {
        self.get(name).is_some()
    }

    /// Adds `other` to the environments searched after the local items.
    pub fn import(&mut self, other: &Arc<Environment<T>>)
        requires
            old(self).wf(),
            other.wf(),
        ensures
            final(self).wf(),
            final(self).own() == old(self).own(),
            final(self).imported() == old(self).imported().push(**other),
            final(self).imported_arcs() == old(self).imported_arcs().push(*other),
    {
        self.imports.push(Arc::clone(other));
        proof {
            lemma_all_wf(old(self).imports@);
            lemma_all_wf(self.imports@);
            assert(self.imported() =~= old(self).imported().push(**other));
            assert forall|i: int| 0 <= i < self.imports@.len() implies #[trigger] self.imports@[i].wf() by {
                if i < old(self).imports@.len() {
                    assert(self.imports@[i] == old(self).imports@[i]);
                } else {
                    assert(self.imports@[i] == *other);
                }
            }
        }
    }
}


/// Stores `item` under `name` in a list of items with distinct names,
/// replacing an item already stored there.
fn put<T>(items: &mut Vec<(Vec<u8>, T)>, name: &[u8], item: T)
    requires
        distinct_names(old(items)@),
    ensures
        distinct_names(final(items)@),
        local_map(final(items)@) == local_map(old(items)@).insert(name@, item),
        forall|n: Seq<u8>| #[trigger] local_get(final(items)@, n) == local_map(final(items)@).get(n),
{
    proof {
        lemma_local_get_index(items@, name@);
    }
    match find_local(items, name) {
        Some(k) => {
            let ghost before = items@;
            proof {
                lemma_update_entry(before, k as int, name@);
            }
            items[k].1 = item;
            proof {
                assert(items@ == before.update(k as int, (before[k as int].0, item)));
            }
        },
        None => {
            let ghost before = items@;
            let key = crate::workspace::copy_range(name, 0, name.len());
            assert(name@.subrange(0, name@.len() as int) =~= name@);
            items.push((key, item));
            proof {
                assert(items@.drop_last() =~= before);
                assert forall|i: int, j: int|
                    0 <= i < items@.len() && 0 <= j < items@.len() && i != j implies items@[i].0@
                    != items@[j].0@ by {
                    if i < before.len() {
                        assert(items@[i] == before[i]);
                    }
                    if j < before.len() {
                        assert(items@[j] == before[j]);
                    }
                }
                assert forall|n: Seq<u8>| #[trigger] local_get(items@, n) == local_map(items@).get(n) by {
                    lemma_local_get_map(items@, n);
                }
            }
        },
    }
    proof {
        assert forall|n: Seq<u8>| #[trigger] local_get(items@, n) == local_map(items@).get(n) by {
            lemma_local_get_map(items@, n);
        }
    }
}

/// Replacing the item of the entry named `name` stores it under `name`.
proof fn lemma_update_entry<T>(before: Seq<(Vec<u8>, T)>, k: int, name: Seq<u8>)
    requires
        distinct_names(before),
        0 <= k < before.len(),
        before[k].0@ == name,
    ensures
        forall|v: T| #[trigger] local_map(before.update(k, (before[k].0, v))) == local_map(before).insert(name, v),
        forall|v: T| distinct_names(#[trigger] before.update(k, (before[k].0, v))),
{
    assert forall|v: T| #[trigger] local_map(before.update(k, (before[k].0, v))) == local_map(before).insert(name, v) by {
        let items = before.update(k, (before[k].0, v));
        assert forall|i: int, j: int|
            0 <= i < items.len() && 0 <= j < items.len() && i != j implies items[i].0@ != items[j].0@ by {
            assert(items[i].0 == before[i].0 && items[j].0 == before[j].0);
        }
        assert forall|n: Seq<u8>| #[trigger] local_get(items, n) == local_map(before).insert(name, v).get(n) by {
            lemma_local_get_index(before, n);
            lemma_local_get_index(items, n);
            lemma_local_get_map(before, n);
            if n != name {
                if local_get(before, n) is None {
                    assert forall|i: int| 0 <= i < items.len() implies #[trigger] items[i].0@ != n by {
                        assert(items[i].0 == before[i].0);
                        assert(before[i].0@ != n);
                    }
                } else {
                    let w = choose|i: int| 0 <= i < before.len() && #[trigger] before[i].0@ == n;
                    assert(items[w].0 == before[w].0);
                    assert(w != k);
                    assert(items[w] == before[w]);
                    assert(items[w].0@ == n);
                }
            } else {
                assert(items[k].0@ == n);
            }
        }
        lemma_local_map_ext(items, local_map(before).insert(name, v));
    }
    assert forall|v: T| distinct_names(#[trigger] before.update(k, (before[k].0, v))) by {
        let items = before.update(k, (before[k].0, v));
        assert forall|i: int, j: int|
            0 <= i < items.len() && 0 <= j < items.len() && i != j implies items[i].0@ != items[j].0@ by {
            assert(items[i].0 == before[i].0 && items[j].0 == before[j].0);
        }
    }
}

/// A list of items whose `local_get` agrees with a map everywhere has that map
/// as its `local_map`.
proof fn lemma_local_map_ext<T>(locals: Seq<(Vec<u8>, T)>, m: Map<Seq<u8>, T>)
    requires
        forall|n: Seq<u8>| #[trigger] local_get(locals, n) == m.get(n),
    ensures
        local_map(locals) == m,
{
    assert forall|n: Seq<u8>| #[trigger] local_map(locals).get(n) == m.get(n) by {
        lemma_local_get_map(locals, n);
    }
    assert(local_map(locals) =~= m) by {
        assert forall|n: Seq<u8>| local_map(locals).dom().contains(n) <==> #[trigger] m.dom().contains(n) by {
            assert(local_map(locals).get(n) == m.get(n));
        }
        assert forall|n: Seq<u8>| #[trigger] local_map(locals).dom().contains(n) implies local_map(locals)[n] == m[n] by {
            assert(local_map(locals).get(n) == m.get(n));
        }
    }
}


/// What `lookup` finds: a local item first, then the imports.
/// `get` finds a local item first, then searches the imports in order.
pub proof fn lemma_lookup_local<T>(e: Environment<T>, name: Seq<u8>)
    ensures
        e.lookup(name) == match e.locals_map().get(name) {
            Some(t) => Some(t),
            None => lookup_in(e.imported_arcs(), name),
        },
{
    lemma_local_get_map(e.own(), name);
}

impl<T> Environment<T> {
    /// The imported environments as stored.
    pub closed spec fn imported_arcs(&self) -> Seq<Arc<Environment<T>>> {
        self.imports@
    }

    /// Stores `item` under `name` among the local items, replacing one
    /// already stored there.
    pub fn insert(&mut self, name: &[u8], item: T)
        requires
            old(self).wf(),
        ensures
            final(self).wf(),
            final(self).locals_map() == old(self).locals_map().insert(name@, item),
            final(self).imported_arcs() == old(self).imported_arcs(),
            final(self).lookup(name@) == Some(item),
            forall|n: Seq<u8>| n != name@ ==> #[trigger] final(self).lookup(n) == old(self).lookup(n),
    {
        put(&mut self.locals, name, item);
        proof {
            lemma_local_get_map(self.locals@, name@);
            assert forall|n: Seq<u8>| n != name@ implies #[trigger] self.lookup(n) == old(self).lookup(n) by {
                lemma_local_get_map(self.locals@, n);
                lemma_local_get_map(old(self).locals@, n);
            }
        }
    }

    /// The local item stored under `name`, stored first as `f()` when there
    /// is none.
    pub fn ensure<F: FnOnce() -> T>(&mut self, name: &[u8], f: F) -> (r: &mut T)
        requires
            old(self).wf(),
            f.requires(()),
        ensures
            old(self).locals_map().contains_key(name@) ==> *r == old(self).locals_map()[name@],
            !old(self).locals_map().contains_key(name@) ==> f.ensures((), *r),
            final(self).wf(),
            final(self).locals_map() == old(self).locals_map().insert(name@, *final(r)),
            final(self).imported_arcs() == old(self).imported_arcs(),
    {
        proof {
            lemma_local_get_map(self.locals@, name@);
        }
        let k = match find_local(&self.locals, name) {
            Some(k) => k,
            None => {
                let item = f();
                put(&mut self.locals, name, item);
                proof {
                    lemma_local_get_map(self.locals@, name@);
                }
                find_local(&self.locals, name).unwrap()
            },
        };
        let ghost mid = self.locals@;
        proof {
            lemma_local_get_index(mid, name@);
            lemma_local_get_map(mid, name@);
            lemma_update_entry(mid, k as int, name@);
            assert(local_map(mid).insert(name@, mid[k as int].1) == local_map(mid));
        }
        &mut self.locals[k].1
    }
}


/// `b` holds the keys of `a`, each with a clone of `a`'s item.
pub open spec fn cloned_map<T: Clone>(a: Map<Seq<u8>, T>, b: Map<Seq<u8>, T>) -> bool {
    &&& b.dom() == a.dom()
    &&& forall|k: Seq<u8>| #[trigger] a.dom().contains(k) ==> cloned(a[k], b[k])
}

proof fn lemma_last_not_in_init<T>(rest: Seq<(Vec<u8>, T)>)
    requires
        distinct_names(rest),
        rest.len() > 0,
    ensures
        !local_map(rest.drop_last()).dom().contains(rest.last().0@),
        distinct_names(rest.drop_last()),
{
    let init = rest.drop_last();
    lemma_local_get_index(init, rest.last().0@);
    lemma_local_get_map(init, rest.last().0@);
    assert forall|i: int| 0 <= i < init.len() implies #[trigger] init[i].0@ != rest.last().0@ by {
        assert(init[i] == rest[i]);
    }
    assert forall|i: int, j: int|
        0 <= i < init.len() && 0 <= j < init.len() && i != j implies init[i].0@ != init[j].0@ by {
        assert(init[i] == rest[i] && init[j] == rest[j]);
    }
}

impl<T> Environment<T> {
    /// Adds the local items of `other` to this scope, replacing items of the
    /// same name, and its imports after this scope's imports.
    pub fn merge(&mut self, other: Environment<T>)
        requires
            old(self).wf(),
            other.wf(),
        ensures
            final(self).wf(),
            final(self).locals_map() == old(self).locals_map().union_prefer_right(other.locals_map()),
            final(self).imported_arcs() == old(self).imported_arcs() + other.imported_arcs(),
    {
        let Environment { imports: mut other_imports, locals: mut rest } = other;
        let ghost target = old(self).locals_map().union_prefer_right(local_map(rest@));
        assert(old(self).locals_map().union_prefer_right(local_map(rest@)) == target);
        while rest.len() > 0
            invariant
                distinct_names(self.locals@),
                distinct_names(rest@),
                local_map(self.locals@).union_prefer_right(local_map(rest@)) == target,
                self.imports@ == old(self).imports@,
            decreases rest@.len(),
        {
            let ghost before = rest@;
            proof {
                lemma_last_not_in_init(before);
            }
            let (name, item) = rest.pop().unwrap();
            let ghost mine = local_map(self.locals@);
            put(&mut self.locals, name.as_slice(), item);
            proof {
                assert(rest@ == before.drop_last());
                assert(mine.insert(name@, item).union_prefer_right(local_map(rest@)) =~= mine.union_prefer_right(
                    local_map(rest@).insert(name@, item),
                ));
            }
        }
        assert(local_map(self.locals@).union_prefer_right(local_map(rest@)) =~= local_map(self.locals@));
        let ghost mine = self.imports@;
        self.imports.append(&mut other_imports);
        proof {
            lemma_all_wf(mine);
            lemma_all_wf(other.imports@);
            lemma_all_wf(self.imports@);
            assert forall|i: int| 0 <= i < self.imports@.len() implies #[trigger] self.imports@[i].wf() by {
                if i < mine.len() {
                    assert(self.imports@[i] == mine[i]);
                } else {
                    assert(self.imports@[i] == other.imports@[i - mine.len()]);
                }
            }
        }
    }
}

impl<T: Clone> Environment<T> {
    /// Collects every item reachable from this scope into `items`: the
    /// imports' first, in order, then the local items, each replacing an
    /// item of the same name collected before.
    fn collect_items(&self, items: &mut Vec<(Vec<u8>, T)>)
        requires
            distinct_names(old(items)@),
        ensures
            distinct_names(final(items)@),
            local_map(final(items)@).dom() == local_map(old(items)@).dom().union(self.items().dom()),
            forall|k: Seq<u8>| #[trigger]
                self.items().dom().contains(k) ==> cloned(self.items()[k], local_map(final(items)@)[k]),
            forall|k: Seq<u8>|
                !self.items().dom().contains(k) && #[trigger] local_map(old(items)@).dom().contains(k)
                    ==> local_map(final(items)@)[k] == local_map(old(items)@)[k],
        decreases self,
    {
        let ghost start = local_map(items@);
        let n = self.imports.len();
        let mut i: usize = 0;
        while i < n
            invariant
                n == self.imports@.len(),
                i <= n,
                distinct_names(items@),
                local_map(items@).dom() == start.dom().union(items_of(self.imports@.subrange(0, i as int)).dom()),
                forall|k: Seq<u8>| #[trigger]
                    items_of(self.imports@.subrange(0, i as int)).dom().contains(k) ==> cloned(
                        items_of(self.imports@.subrange(0, i as int))[k],
                        local_map(items@)[k],
                    ),
                forall|k: Seq<u8>|
                    !items_of(self.imports@.subrange(0, i as int)).dom().contains(k)
                        && #[trigger] start.dom().contains(k) ==> local_map(items@)[k] == start[k],
            decreases n - i,
        {
            proof {
                assert(decreases_to!(self => self.imports));
                assert(decreases_to!(self.imports => self.imports@));
                assert(decreases_to!(self.imports@ => self.imports@[i as int]));
            }
            let ghost prev = items_of(self.imports@.subrange(0, i as int));
            let ghost before = local_map(items@);
            self.imports[i].collect_items(items);
            proof {
                let next = self.imports@.subrange(0, i + 1);
                assert(next.subrange(0, next.len() - 1) =~= self.imports@.subrange(0, i as int));
                assert(next[next.len() - 1] == self.imports@[i as int]);
                assert(items_of(next) == prev.union_prefer_right(self.imports@[i as int].items()));
                assert(local_map(items@).dom() =~= start.dom().union(items_of(next).dom()));
                assert forall|k: Seq<u8>| #[trigger] items_of(next).dom().contains(k) implies cloned(
                    items_of(next)[k],
                    local_map(items@)[k],
                ) by {
                    if !self.imports@[i as int].items().dom().contains(k) {
                        assert(prev.dom().contains(k));
                        assert(before.dom().contains(k));
                        assert(local_map(items@)[k] == before[k]);
                    }
                }
                assert forall|k: Seq<u8>|
                    !items_of(next).dom().contains(k) && #[trigger] start.dom().contains(k) implies local_map(
                        items@,
                    )[k] == start[k] by {
                    assert(before.dom().contains(k));
                    assert(local_map(items@)[k] == before[k]);
                }
            }
            i += 1;
        }
        assert(self.imports@.subrange(0, n as int) =~= self.imports@);
        let m = self.locals.len();
        let mut j: usize = 0;
        let ghost from_imports = items_of(self.imports@);
        while j < m
            invariant
                m == self.locals@.len(),
                j <= m,
                distinct_names(items@),
                from_imports == items_of(self.imports@),
                local_map(items@).dom() == start.dom().union(
                    from_imports.union_prefer_right(local_map(self.locals@.take(j as int))).dom(),
                ),
                forall|k: Seq<u8>| #[trigger]
                    from_imports.union_prefer_right(local_map(self.locals@.take(j as int))).dom().contains(k)
                        ==> cloned(
                        from_imports.union_prefer_right(local_map(self.locals@.take(j as int)))[k],
                        local_map(items@)[k],
                    ),
                forall|k: Seq<u8>|
                    !from_imports.union_prefer_right(local_map(self.locals@.take(j as int))).dom().contains(k)
                        && #[trigger] start.dom().contains(k) ==> local_map(items@)[k] == start[k],
            decreases m - j,
        {
            let item = self.locals[j].1.clone();
            put(items, self.locals[j].0.as_slice(), item);
            proof {
                let t = self.locals@.take(j + 1);
                assert(t.drop_last() =~= self.locals@.take(j as int));
                assert(t.last() == self.locals@[j as int]);
                assert(local_map(t) == local_map(self.locals@.take(j as int)).insert(
                    self.locals@[j as int].0@,
                    self.locals@[j as int].1,
                ));
                assert(local_map(items@).dom() =~= start.dom().union(
                    from_imports.union_prefer_right(local_map(t)).dom(),
                ));
                let key = self.locals@[j as int].0@;
                let acc = from_imports.union_prefer_right(local_map(self.locals@.take(j as int)));
                let acc2 = from_imports.union_prefer_right(local_map(t));
                assert(acc2 == acc.insert(key, self.locals@[j as int].1));
                assert forall|k: Seq<u8>| #[trigger] acc2.dom().contains(k) implies cloned(
                    acc2[k],
                    local_map(items@)[k],
                ) by {
                    if k != key {
                        assert(acc.dom().contains(k));
                    }
                }
            }
            j += 1;
        }
        assert(self.locals@.take(m as int) =~= self.locals@);
        assert(local_map(items@).dom() =~= local_map(old(items)@).dom().union(self.items().dom()));
    }

    /// Every item reachable from this scope, by name: an import's items
    /// replace those of the imports before it, and the local items replace
    /// them all. Each item is a clone.
    pub fn all_items(&self) -> (r: Vec<(Vec<u8>, T)>)
        ensures
            distinct_names(r@),
            cloned_map(self.items(), local_map(r@)),
    {
        let mut items: Vec<(Vec<u8>, T)> = Vec::new();
        assert(local_map(items@) =~= Map::<Seq<u8>, T>::empty());
        self.collect_items(&mut items);
        assert(local_map(items@).dom() =~= self.items().dom());
        items
    }
}


/// The search of imports in order finds what the first import that has an
/// item for `name` holds, and nothing when none has one.
proof fn lemma_lookup_in_first<T>(envs: Seq<Arc<Environment<T>>>, name: Seq<u8>, i: int)
    requires
        0 <= i <= envs.len(),
        forall|j: int| 0 <= j < i ==> #[trigger] envs[j].lookup(name) is None,
        i < envs.len() ==> envs[i].lookup(name) is Some,
    ensures
        lookup_in(envs, name) == if i < envs.len() {
            envs[i].lookup(name)
        } else {
            None
        },
    decreases i,
{
    if envs.len() > 0 && i > 0 {
        let rest = envs.subrange(1, envs.len() as int);
        assert forall|j: int| 0 <= j < i - 1 implies #[trigger] rest[j].lookup(name) is None by {
            assert(rest[j] == envs[j + 1]);
        }
        if i < envs.len() {
            assert(rest[i - 1] == envs[i]);
        }
        lemma_lookup_in_first(rest, name, i - 1);
        assert(envs[0].lookup(name) is None);
        assert(lookup_in(envs, name) == lookup_in(rest, name));
    }
}

/// The earliest import wins: where a scope has no item of its own for
/// `name`, `get` finds what the first import that has one holds (imports in
/// the order `import` and `merge` added them), and nothing when no import
/// has one.
pub proof fn lemma_earliest_import_wins<T>(e: Environment<T>, name: Seq<u8>, i: int)
    requires
        !e.locals_map().contains_key(name),
        0 <= i <= e.imported_arcs().len(),
        forall|j: int| 0 <= j < i ==> #[trigger] e.imported_arcs()[j].lookup(name) is None,
        i < e.imported_arcs().len() ==> e.imported_arcs()[i].lookup(name) is Some,
    ensures
        e.lookup(name) == if i < e.imported_arcs().len() {
            e.imported_arcs()[i].lookup(name)
        } else {
            None
        },
{
    lemma_lookup_local(e, name);
    lemma_lookup_in_first(e.imported_arcs(), name, i);
}

pub proof fn lemma_lookup_in_exists<T>(envs: Seq<Arc<Environment<T>>>, name: Seq<u8>)
    ensures
        (lookup_in(envs, name) is Some) == exists|i: int| 0 <= i < envs.len() && #[trigger] envs[i].lookup(name) is Some,
    decreases envs.len(),
{
    if envs.len() > 0 {
        let rest = envs.subrange(1, envs.len() as int);
        lemma_lookup_in_exists(rest, name);
        if envs[0].lookup(name) is Some {
            assert(lookup_in(envs, name) is Some);
        } else if lookup_in(rest, name) is Some {
            let w = choose|i: int| 0 <= i < rest.len() && #[trigger] rest[i].lookup(name) is Some;
            assert(envs[w + 1] == rest[w]);
            assert(envs[w + 1].lookup(name) is Some);
        } else {
            assert forall|i: int| 0 <= i < envs.len() implies !(#[trigger] envs[i].lookup(name) is Some) by {
                if i > 0 {
                    assert(rest[i - 1] == envs[i]);
                }
            }
        }
    }
}

proof fn lemma_items_of_exists<T>(envs: Seq<Arc<Environment<T>>>, name: Seq<u8>)
    ensures
        items_of(envs).dom().contains(name) == exists|i: int|
            0 <= i < envs.len() && #[trigger] envs[i].items().dom().contains(name),
    decreases envs.len(),
{
    if envs.len() > 0 {
        let last = envs.len() - 1;
        let init = envs.subrange(0, last);
        lemma_items_of_exists(init, name);
        if envs[last].items().dom().contains(name) {
            assert(items_of(envs).dom().contains(name));
        } else if items_of(init).dom().contains(name) {
            let w = choose|i: int| 0 <= i < init.len() && #[trigger] init[i].items().dom().contains(name);
            assert(envs[w] == init[w]);
            assert(envs[w].items().dom().contains(name));
        } else {
            assert forall|i: int| 0 <= i < envs.len() implies !#[trigger] envs[i].items().dom().contains(name) by {
                if i < last {
                    assert(init[i] == envs[i]);
                }
            }
        }
    }
}

proof fn lemma_list_names<T>(envs: Seq<Arc<Environment<T>>>, name: Seq<u8>)
    ensures
        items_of(envs).dom().contains(name) == (lookup_in(envs, name) is Some),
    decreases envs, 0nat,
{
    lemma_lookup_in_exists(envs, name);
    lemma_items_of_exists(envs, name);
    assert forall|i: int| 0 <= i < envs.len() implies #[trigger] envs[i].items().dom().contains(name) == (
    envs[i].lookup(name) is Some) by {
        assert(decreases_to!(envs => envs[i]));
        lemma_all_items_names(*envs[i], name);
    }
    if lookup_in(envs, name) is Some {
        let w = choose|i: int| 0 <= i < envs.len() && #[trigger] envs[i].lookup(name) is Some;
        assert(envs[w].items().dom().contains(name));
    }
    if items_of(envs).dom().contains(name) {
        let w = choose|i: int| 0 <= i < envs.len() && #[trigger] envs[i].items().dom().contains(name);
        assert(envs[w].lookup(name) is Some);
    }
}

/// The items `all_items` collects are determined by the local items and the
/// imports.
pub proof fn lemma_items_parts<T>(e: Environment<T>)
    ensures
        e.items() == items_of(e.imported_arcs()).union_prefer_right(e.locals_map()),
{
}

/// A name is among the items that `all_items` collects exactly when `get`
/// finds it (and `contains` says so).
pub proof fn lemma_all_items_names<T>(env: Environment<T>, name: Seq<u8>)
    ensures
        env.items().dom().contains(name) == (env.lookup(name) is Some),
    decreases env, 1nat,
{
    lemma_local_get_map(env.locals@, name);
    assert(decreases_to!(env => env.imports));
    assert(decreases_to!(env.imports => env.imports@));
    lemma_list_names(env.imports@, name);
}

/// A local item shadows whatever the imports hold under its name: `get`
/// returns it, and `all_items` collects it.
pub proof fn lemma_local_shadows<T>(env: Environment<T>, name: Seq<u8>)
    requires
        env.locals_map().contains_key(name),
    ensures
        env.lookup(name) == Some(env.locals_map()[name]),
        env.items()[name] == env.locals_map()[name],
{
    lemma_local_get_map(env.locals@, name);
}

} // verus!
