use vstd::prelude::*;
use indexmap::IndexMap;

verus! {

#[verifier::external_type_specification]
#[verifier::external_body]
#[verifier::reject_recursive_types(K)]
#[verifier::reject_recursive_types(V)]
#[verifier::reject_recursive_types(S)]
pub struct ExIndexMap<K, V, S>(IndexMap<K, V, S>);

/// Where an upvalue comes from: the block it was found in (counted from
/// the innermost, less one), its slot there, and whether that slot is
/// itself an upvalue.
pub type Origin = (usize, usize, bool);

/// The entries of a map of local slots, in insertion order: each name
/// with its slot.
pub uninterp spec fn local_entries(m: IndexMap<String, usize>) -> Seq<(Seq<char>, usize)>;

/// The entries of a map of upvalues, in insertion order: each name with
/// its upvalue slot and its origin.
pub uninterp spec fn upval_entries(m: IndexMap<String, (usize, Origin)>) -> Seq<
    (Seq<char>, (usize, Origin)),
>;

/// The position of the first entry whose key is `k`.
pub open spec fn first_key<V>(es: Seq<(Seq<char>, V)>, k: Seq<char>) -> Option<int>
    decreases es.len(),
{
    if es.len() == 0 {
        None
    } else if es[0].0 == k {
        Some(0)
    } else {
        match first_key(es.drop_first(), k) {
            Some(i) => Some(i + 1),
            None => None,
        }
    }
}

/// No two entries have the same key.
pub open spec fn keys_distinct<V>(es: Seq<(Seq<char>, V)>) -> bool {
    forall|i: int, j: int| 0 <= i < j < es.len() ==> es[i].0 != es[j].0
}

/// The position of the first occurrence of `a` in `ns`.
pub open spec fn position_of(ns: Seq<Seq<char>>, a: Seq<char>) -> Option<int>
    decreases ns.len(),
{
    if ns.len() == 0 {
        None
    } else if ns[0] == a {
        Some(0)
    } else {
        match position_of(ns.drop_first(), a) {
            Some(i) => Some(i + 1),
            None => None,
        }
    }
}

pub proof fn lemma_first_key<V>(es: Seq<(Seq<char>, V)>, k: Seq<char>)
    ensures
        first_key(es, k) matches Some(i) ==> 0 <= i < es.len() && es[i].0 == k && forall|j: int|
            0 <= j < i ==> es[j].0 != k,
        first_key(es, k) is None ==> forall|j: int| 0 <= j < es.len() ==> es[j].0 != k,
    decreases es.len(),
{
    if es.len() > 0 {
        lemma_first_key(es.drop_first(), k);
        assert forall|j: int| 0 < j < es.len() implies es.drop_first()[j - 1] == es[j] by {}
    }
}

pub proof fn lemma_position_of(ns: Seq<Seq<char>>, a: Seq<char>)
    ensures
        position_of(ns, a) matches Some(i) ==> 0 <= i < ns.len() && ns[i] == a && forall|j: int|
            0 <= j < i ==> ns[j] != a,
        position_of(ns, a) is None ==> forall|j: int| 0 <= j < ns.len() ==> ns[j] != a,
        position_of(ns, a) is None ==> position_of(ns.push(a), a) == Some(ns.len() as int),
    decreases ns.len(),
{
    if ns.len() > 0 {
        lemma_position_of(ns.drop_first(), a);
        assert forall|j: int| 0 < j < ns.len() implies ns.drop_first()[j - 1] == ns[j] by {}
        assert(ns.push(a).drop_first() =~= ns.drop_first().push(a));
    }
}

/// A name given the next slot of a block is found at that slot.
pub proof fn lemma_name_found_after_create(names: Seq<Seq<char>>, a: Seq<char>)
    requires
        position_of(names, a) is None,
    ensures
        position_of(names.push(a), a) == Some(names.len() as int),
{
    lemma_position_of(names, a);
}

/// The keys of the entries, in order.
pub open spec fn keys<V>(es: Seq<(Seq<char>, V)>) -> Seq<Seq<char>> {
    es.map_values(|e: (Seq<char>, V)| e.0)
}

pub proof fn lemma_first_key_keys<V>(es: Seq<(Seq<char>, V)>, k: Seq<char>)
    ensures
        first_key(es, k) == position_of(keys(es), k),
    decreases es.len(),
{
    if es.len() > 0 {
        lemma_first_key_keys(es.drop_first(), k);
        assert(keys(es.drop_first()) =~= keys(es).drop_first());
    }
}

/// A new empty map of local slots (`IndexMap::new`).
#[verifier::external_body]
fn local_map_new() -> (m: IndexMap<String, usize>)
    ensures
        local_entries(m) == Seq::<(Seq<char>, usize)>::empty(),
{
    IndexMap::new()
}

/// The slot of `k` (`IndexMap::get`).
#[verifier::external_body]
fn local_map_get(m: &IndexMap<String, usize>, k: &str) -> (r: Option<usize>)
    ensures
        match first_key(local_entries(*m), k@) {
            Some(i) => r == Some(local_entries(*m)[i].1),
            None => r is None,
        },
{
    m.get(k).copied()
}

/// Sets the slot of `k` (`IndexMap::insert`): an existing key keeps its
/// place, a new one goes last.
#[verifier::external_body]
fn local_map_insert(m: &mut IndexMap<String, usize>, k: String, v: usize) -> (r: Option<usize>)
    ensures
        keys_distinct(local_entries(*old(m))) ==> keys_distinct(local_entries(*final(m))),
        match first_key(local_entries(*old(m)), k@) {
            Some(i) => r == Some(local_entries(*old(m))[i].1) && local_entries(*final(m))
                == local_entries(*old(m)).update(i, (k@, v)),
            None => r is None && local_entries(*final(m)) == local_entries(*old(m)).push((k@, v)),
        },
{
    m.insert(k, v)
}

/// A new empty map of upvalues (`IndexMap::new`).
#[verifier::external_body]
fn upval_map_new() -> (m: IndexMap<String, (usize, Origin)>)
    ensures
        upval_entries(m) == Seq::<(Seq<char>, (usize, Origin))>::empty(),
{
    IndexMap::new()
}

/// The slot and origin of `k` (`IndexMap::get`).
#[verifier::external_body]
fn upval_map_get(m: &IndexMap<String, (usize, Origin)>, k: &str) -> (r: Option<(usize, Origin)>)
    ensures
        match first_key(upval_entries(*m), k@) {
            Some(i) => r == Some(upval_entries(*m)[i].1),
            None => r is None,
        },
{
    m.get(k).copied()
}

/// The entry at position `i` (`IndexMap::get_index`).
#[verifier::external_body]
fn upval_map_get_index<'a>(m: &'a IndexMap<String, (usize, Origin)>, i: usize) -> (r: Option<(&'a String, &'a (usize, Origin))>)
    ensures
        r is Some <==> i < upval_entries(*m).len(),
        r matches Some(kv) ==> kv.0@ == upval_entries(*m)[i as int].0 && *kv.1 == upval_entries(
            *m,
        )[i as int].1,
{
    m.get_index(i)
}

/// Sets the slot and origin of `k` (`IndexMap::insert`): an existing key
/// keeps its place, a new one goes last.
#[verifier::external_body]
fn upval_map_insert(m: &mut IndexMap<String, (usize, Origin)>, k: String, v: (usize, Origin)) -> (r: Option<(usize, Origin)>)
    ensures
        keys_distinct(upval_entries(*old(m))) ==> keys_distinct(upval_entries(*final(m))),
        match first_key(upval_entries(*old(m)), k@) {
            Some(i) => r == Some(upval_entries(*old(m))[i].1) && upval_entries(*final(m))
                == upval_entries(*old(m)).update(i, (k@, v)),
            None => r is None && upval_entries(*final(m)) == upval_entries(*old(m)).push((k@, v)),
        },
{
    m.insert(k, v)
}

/// The local variables of a block: each name has the slot of its position.
pub struct Block {
    in_scope: IndexMap<String, usize>,
    sp: usize,
}

impl Block {
    /// The names of the locals, in slot order.
    pub closed spec fn names(&self) -> Seq<Seq<char>> {
        keys(local_entries(self.in_scope))
    }

    #[verifier::type_invariant]
    closed spec fn wf(&self) -> bool {
        let es = local_entries(self.in_scope);
        &&& self.sp == es.len()
        &&& keys_distinct(es)
        &&& forall|i: int| 0 <= i < es.len() ==> es[i].1 == i
    }

    pub fn new() -> (b: Block)
        ensures
            b.names().len() == 0,
    {
        let b = Block { in_scope: local_map_new(), sp: 0 };
        assert(b.names() =~= Seq::<Seq<char>>::empty());
        b
    }

    /// The slot of `a`.
    pub fn index_of(&self, a: &str) -> (r: Option<usize>)
        ensures
            match position_of(self.names(), a@) {
                Some(i) => r == Some(i as usize),
                None => r is None,
            },
    {
        proof {
            use_type_invariant(self);
            lemma_first_key(local_entries(self.in_scope), a@);
            lemma_first_key_keys(local_entries(self.in_scope), a@);
        }
        local_map_get(&self.in_scope, a)
    }

    /// The number of locals.
    pub fn len(&self) -> (n: usize)
        ensures
            n == self.names().len(),
    {
        proof {
            use_type_invariant(self);
        }
        self.sp
    }

    /// Gives `name` the next slot, unless it already has one.
    pub fn try_create_index(&mut self, name: String) -> (r: Option<usize>)
        requires
            old(self).names().len() < usize::MAX,
        ensures
            position_of(old(self).names(), name@) is Some ==> r is None && final(self).names()
                == old(self).names(),
            position_of(old(self).names(), name@) is None ==> r == Some(
                old(self).names().len() as usize,
            ) && final(self).names() == old(self).names().push(name@),
    {
        match self.index_of(name.as_str()) {
            Some(_) => None,
            _ => Some(self.add_name(name)),
        }
    }

    /// The slot of `a`, given the next one if it has none.
    pub fn get_or_create_index(&mut self, a: String) -> (r: usize)
        requires
            old(self).names().len() < usize::MAX,
        ensures
            position_of(old(self).names(), a@) matches Some(i) ==> r == i && final(self).names()
                == old(self).names(),
            position_of(old(self).names(), a@) is None ==> r == old(self).names().len()
                && final(self).names() == old(self).names().push(a@),
    {
        proof {
            lemma_position_of(self.names(), a@);
        }
        match self.index_of(a.as_str()) {
            Some(c) => c,
            _ => self.add_name(a),
        }
    }

    fn add_name(&mut self, name: String) -> (r: usize)
        requires
            old(self).names().len() < usize::MAX,
            position_of(old(self).names(), name@) is None,
        ensures
            r == old(self).names().len(),
            final(self).names() == old(self).names().push(name@),
    {
        proof {
            use_type_invariant(&*self);
            lemma_first_key_keys(local_entries(self.in_scope), name@);
            lemma_position_of(self.names(), name@);
            lemma_first_key(local_entries(self.in_scope), name@);
        }
        let ghost es = local_entries(self.in_scope);
        let mut blk = Block { in_scope: local_map_new(), sp: 0 };
        std::mem::swap(&mut blk, self);
        let Block { in_scope: mut m, sp: b } = blk;
        local_map_insert(&mut m, name, b);
        let ghost es2 = local_entries(m);
        assert(keys(es2) =~= keys(es).push(name@));
        *self = Block { in_scope: m, sp: b + 1 };
        b
    }
}

/// The origin recorded for an upvalue found at `orig` (block, slot): the
/// block is counted from one level further out.
pub open spec fn origin_for(orig: (usize, usize), from_upval: bool) -> Origin {
    (
        if orig.0 == 0 {
            0
        } else {
            (orig.0 - 1) as usize
        },
        orig.1,
        from_upval,
    )
}

/// The upvalues captured by a block: each name has the upvalue slot of its
/// position and records where it comes from.
pub struct UpvalBlock {
    in_scope: IndexMap<String, (usize, Origin)>,
    sp: usize,
}

impl UpvalBlock {
    /// The names of the upvalues with their origins, in slot order.
    pub closed spec fn upvals(&self) -> Seq<(Seq<char>, Origin)> {
        upval_entries(self.in_scope).map_values(|e: (Seq<char>, (usize, Origin))| (e.0, e.1.1))
    }

    /// The names of the upvalues, in slot order.
    pub open spec fn names(&self) -> Seq<Seq<char>> {
        keys(self.upvals())
    }

    #[verifier::type_invariant]
    closed spec fn wf(&self) -> bool {
        let es = upval_entries(self.in_scope);
        &&& self.sp == es.len()
        &&& keys_distinct(es)
        &&& forall|i: int| 0 <= i < es.len() ==> es[i].1.0 == i
    }

    proof fn lemma_view(&self, a: Seq<char>)
        requires
            self.wf(),
        ensures
            first_key(upval_entries(self.in_scope), a) == position_of(self.names(), a),
            first_key(upval_entries(self.in_scope), a) matches Some(i) ==> 0 <= i
                < self.upvals().len() && upval_entries(self.in_scope)[i].1 == (
                i as usize,
                self.upvals()[i].1,
            ),
            self.upvals().len() == self.sp,
    {
        let es = upval_entries(self.in_scope);
        lemma_first_key(es, a);
        lemma_first_key_keys(es, a);
        assert(keys(es) =~= keys(self.upvals()));
    }

    pub fn new() -> (b: UpvalBlock)
        ensures
            b.upvals().len() == 0,
    {
        let b = UpvalBlock { in_scope: upval_map_new(), sp: 0 };
        assert(b.upvals() =~= Seq::<(Seq<char>, Origin)>::empty());
        b
    }

    /// The upvalue slot of `a`.
    pub fn index_of(&self, a: &str) -> (r: Option<usize>)
        ensures
            match position_of(self.names(), a@) {
                Some(i) => r == Some(i as usize),
                None => r is None,
            },
    {
        proof {
            use_type_invariant(self);
            self.lemma_view(a@);
        }
        match upval_map_get(&self.in_scope, a) {
            Some((id, _)) => Some(id),
            None => None,
        }
    }

    /// The entry of upvalue slot `a`: its name, and its slot with its origin.
    pub fn all_at_index(&self, a: usize) -> (r: Option<(&String, &(usize, Origin))>)
        ensures
            r is Some <==> a < self.upvals().len(),
            r matches Some(kv) ==> kv.0@ == self.upvals()[a as int].0 && *kv.1 == (
                a,
                self.upvals()[a as int].1,
            ),
    {
        proof {
            use_type_invariant(self);
        }
        upval_map_get_index(&self.in_scope, a)
    }

    /// The origin block and slot of `a`.
    pub fn origin_of(&self, a: &str) -> (r: Option<(usize, usize)>)
        ensures
            match position_of(self.names(), a@) {
                Some(i) => r == Some((self.upvals()[i].1.0, self.upvals()[i].1.1)),
                None => r is None,
            },
    {
        proof {
            use_type_invariant(self);
            self.lemma_view(a@);
        }
        match upval_map_get(&self.in_scope, a) {
            Some((_, (b, c, _))) => Some((b, c)),
            None => None,
        }
    }

    /// The origin block and slot of `a`.
    pub fn origin_all_of(&self, a: &str) -> (r: Option<(usize, usize)>)
        ensures
            match position_of(self.names(), a@) {
                Some(i) => r == Some((self.upvals()[i].1.0, self.upvals()[i].1.1)),
                None => r is None,
            },
    {
        self.origin_of(a)
    }

    /// The origin block and slot of upvalue slot `a`.
    pub fn origin_at_index(&self, a: usize) -> (r: Option<(usize, usize)>)
        ensures
            a < self.upvals().len() ==> r == Some(
                (self.upvals()[a as int].1.0, self.upvals()[a as int].1.1),
            ),
            a >= self.upvals().len() ==> r is None,
    {
        match self.all_at_index(a) {
            Some((_, (_, (b, c, _)))) => Some((*b, *c)),
            None => None,
        }
    }

    /// The origin of upvalue slot `a`.
    pub fn origin_all_at_index(&self, a: usize) -> (r: Option<Origin>)
        ensures
            a < self.upvals().len() ==> r == Some(self.upvals()[a as int].1),
            a >= self.upvals().len() ==> r is None,
    {
        match self.all_at_index(a) {
            Some((_, (_, o))) => Some(*o),
            None => None,
        }
    }

    /// The number of upvalues.
    pub fn len(&self) -> (n: usize)
        ensures
            n == self.upvals().len(),
    {
        proof {
            use_type_invariant(self);
        }
        self.sp
    }

    fn add_upval(&mut self, name: String, origin: Origin) -> (r: usize)
        requires
            old(self).upvals().len() < usize::MAX,
            position_of(old(self).names(), name@) is None,
        ensures
            r == old(self).upvals().len(),
            final(self).upvals() == old(self).upvals().push((name@, origin)),
    {
        proof {
            use_type_invariant(&*self);
            self.lemma_view(name@);
        }
        let ghost es = upval_entries(self.in_scope);
        let mut blk = UpvalBlock { in_scope: upval_map_new(), sp: 0 };
        std::mem::swap(&mut blk, self);
        let UpvalBlock { in_scope: mut m, sp: b } = blk;
        upval_map_insert(&mut m, name, (b, origin));
        let ghost es2 = upval_entries(m);
        *self = UpvalBlock { in_scope: m, sp: b + 1 };
        assert(self.upvals() =~= old(self).upvals().push((name@, origin)));
        b
    }

    /// Gives `name` the next upvalue slot, with origin `orig`, unless it
    /// already has one.
    pub fn try_create_index(&mut self, name: String, orig: (usize, usize)) -> (r: Option<usize>)
        requires
            old(self).upvals().len() < usize::MAX,
        ensures
            position_of(old(self).names(), name@) is Some ==> r is None && final(self).upvals()
                == old(self).upvals(),
            position_of(old(self).names(), name@) is None ==> r == Some(
                old(self).upvals().len() as usize,
            ) && final(self).upvals() == old(self).upvals().push((name@, origin_for(orig, false))),
    {
        match self.index_of(name.as_str()) {
            Some(_) => None,
            _ => {
                let o0 = if orig.0 == 0 {
                    0
                } else {
                    orig.0 - 1
                };
                Some(self.add_upval(name, (o0, orig.1, false)))
            },
        }
    }

    /// Gives `name` the next upvalue slot, with origin `orig` marked as an
    /// upvalue itself, unless it already has one.
    pub fn try_create_orgin_index(&mut self, name: String, orig: (usize, usize)) -> (r: Option<
        usize,
    >)
        requires
            old(self).upvals().len() < usize::MAX,
        ensures
            position_of(old(self).names(), name@) is Some ==> r is None && final(self).upvals()
                == old(self).upvals(),
            position_of(old(self).names(), name@) is None ==> r == Some(
                old(self).upvals().len() as usize,
            ) && final(self).upvals() == old(self).upvals().push((name@, origin_for(orig, true))),
    {
        match self.index_of(name.as_str()) {
            Some(_) => None,
            _ => {
                let o0 = if orig.0 == 0 {
                    0
                } else {
                    orig.0 - 1
                };
                Some(self.add_upval(name, (o0, orig.1, true)))
            },
        }
    }

    /// The upvalue slot of `a`, given the next one (with origin `orig`) if
    /// it has none.
    pub fn get_or_create_index(&mut self, a: String, orig: (usize, usize)) -> (r: usize)
        requires
            old(self).upvals().len() < usize::MAX,
        ensures
            position_of(old(self).names(), a@) matches Some(i) ==> r == i && final(self).upvals()
                == old(self).upvals(),
            position_of(old(self).names(), a@) is None ==> r == old(self).upvals().len()
                && final(self).upvals() == old(self).upvals().push((a@, origin_for(orig, false))),
    {
        proof {
            lemma_position_of(self.names(), a@);
        }
        match self.index_of(a.as_str()) {
            Some(c) => c,
            _ => {
                let o0 = if orig.0 == 0 {
                    0
                } else {
                    orig.0 - 1
                };
                self.add_upval(a, (o0, orig.1, false))
            },
        }
    }
}

/// The locals and the upvalues of one function body being compiled.
pub struct WizardBlock {
    pub upvals: UpvalBlock,
    pub local: Block,
}

impl WizardBlock {
    pub fn new() -> (b: WizardBlock)
        ensures
            b.upvals.upvals().len() == 0,
            b.local.names().len() == 0,
    {
        WizardBlock { upvals: UpvalBlock::new(), local: Block::new() }
    }

    /// The local slot of `a`.
    pub fn index_of(&self, a: &str) -> (r: Option<usize>)
        ensures
            match position_of(self.local.names(), a@) {
                Some(i) => r == Some(i as usize),
                None => r is None,
            },
    {
        self.local.index_of(a)
    }

    /// The number of locals.
    pub fn len(&self) -> (n: usize)
        ensures
            n == self.local.names().len(),
    {
        self.local.len()
    }

    /// Gives `name` the next local slot, unless it already has one.
    pub fn try_create_index(&mut self, name: String) -> (r: Option<usize>)
        requires
            old(self).local.names().len() < usize::MAX,
        ensures
            final(self).upvals == old(self).upvals,
            position_of(old(self).local.names(), name@) is Some ==> r is None && final(self).local.names() == old(self).local.names(),
            position_of(old(self).local.names(), name@) is None ==> r == Some(
                old(self).local.names().len() as usize,
            ) && final(self).local.names() == old(self).local.names().push(name@),
    {
        self.local.try_create_index(name)
    }

    /// `(true, slot)` when `a` is an upvalue; otherwise `(false, slot)` of
    /// the local `a`, given the next local slot if it has none.
    pub fn get_or_create_index(&mut self, a: String) -> (r: (bool, usize))
        requires
            old(self).local.names().len() < usize::MAX,
        ensures
            final(self).upvals == old(self).upvals,
            position_of(old(self).upvals.names(), a@) matches Some(i) ==> r == (true, i as usize)
                && final(self).local == old(self).local,
            position_of(old(self).upvals.names(), a@) is None ==> r.0 == false && (match position_of(
                old(self).local.names(),
                a@,
            ) {
                Some(i) => r.1 == i && final(self).local.names() == old(self).local.names(),
                None => r.1 == old(self).local.names().len() && final(self).local.names() == old(self).local.names().push(a@),
            }),
    {
        match self.upvals.index_of(a.as_str()) {
            Some(i) => (true, i),
            _ => (false, self.local.get_or_create_index(a)),
        }
    }

    /// The upvalue slot of `a`.
    pub fn upval_index_of(&self, a: &str) -> (r: Option<usize>)
        ensures
            match position_of(self.upvals.names(), a@) {
                Some(i) => r == Some(i as usize),
                None => r is None,
            },
    {
        self.upvals.index_of(a)
    }

    /// The entry of upvalue slot `a`.
    pub fn upval_all_at_index(&self, a: usize) -> (r: Option<(&String, &(usize, Origin))>)
        ensures
            r is Some <==> a < self.upvals.upvals().len(),
            r matches Some(kv) ==> kv.0@ == self.upvals.upvals()[a as int].0 && *kv.1 == (
                a,
                self.upvals.upvals()[a as int].1,
            ),
    {
        self.upvals.all_at_index(a)
    }

    /// The origin block and slot of the upvalue `a`.
    pub fn upval_origin_of(&self, a: &str) -> (r: Option<(usize, usize)>)
        ensures
            match position_of(self.upvals.names(), a@) {
                Some(i) => r == Some(
                    (self.upvals.upvals()[i].1.0, self.upvals.upvals()[i].1.1),
                ),
                None => r is None,
            },
    {
        self.upvals.origin_of(a)
    }

    /// The number of upvalues.
    pub fn upval_len(&self) -> (n: usize)
        ensures
            n == self.upvals.upvals().len(),
    {
        self.upvals.len()
    }

    /// Gives `name` the next upvalue slot with origin `orig`, unless it
    /// already has one.
    pub fn upval_try_create_index(&mut self, name: String, orig: (usize, usize)) -> (r: Option<
        usize,
    >)
        requires
            old(self).upvals.upvals().len() < usize::MAX,
        ensures
            final(self).local == old(self).local,
            position_of(old(self).upvals.names(), name@) is Some ==> r is None && final(self).upvals.upvals() == old(self).upvals.upvals(),
            position_of(old(self).upvals.names(), name@) is None ==> r == Some(
                old(self).upvals.upvals().len() as usize,
            ) && final(self).upvals.upvals() == old(self).upvals.upvals().push(
                (name@, origin_for(orig, false)),
            ),
    {
        self.upvals.try_create_index(name, orig)
    }

    /// The upvalue slot of `a`, given the next one (with origin `orig`) if
    /// it has none.
    pub fn upval_get_or_create_index(&mut self, a: String, orig: (usize, usize)) -> (r: usize)
        requires
            old(self).upvals.upvals().len() < usize::MAX,
        ensures
            final(self).local == old(self).local,
            position_of(old(self).upvals.names(), a@) matches Some(i) ==> r == i && final(self).upvals.upvals() == old(self).upvals.upvals(),
            position_of(old(self).upvals.names(), a@) is None ==> r == old(self).upvals.upvals().len() && final(self).upvals.upvals() == old(self).upvals.upvals().push((a@, origin_for(orig, false))),
    {
        self.upvals.get_or_create_index(a, orig)
    }
}

/// The instruction that reads or writes a variable: a local (frame depth,
/// slot) or an upvalue (slot).
#[derive(Debug, Clone, Copy, PartialEq, Eq)]
pub enum VarInstruction {
    Ldl(usize, usize),
    Stl(usize, usize),
    Ldup(usize),
    Stup(usize),
}

impl VarInstruction {
    pub open spec fn spec_into_loaded(self) -> VarInstruction {
        match self {
            VarInstruction::Ldl(a, b) => VarInstruction::Stl(a, b),
            VarInstruction::Ldup(a) => VarInstruction::Stup(a),
            _ => self,
        }
    }

    /// The store instruction that matches a load instruction.
    pub fn into_loaded(self) -> (r: VarInstruction)
        ensures
            r == self.spec_into_loaded(),
    {
        match self {
            VarInstruction::Ldl(a, b) => VarInstruction::Stl(a, b),
            VarInstruction::Ldup(a) => VarInstruction::Stup(a),
            _ => self,
        }
    }
}

/// Where the innermost of `blocks` that knows `a` has it, looking from the
/// innermost block outwards, `depth` being the depth of the last block:
/// `(false, depth, slot)` for a local, or `(true, block, slot)`, the origin
/// recorded for an upvalue.
pub open spec fn chain_index_of(blocks: Seq<WizardBlock>, a: Seq<char>, depth: nat) -> Option<
    (bool, nat, nat),
>
    decreases blocks.len(),
{
    if blocks.len() == 0 {
        None
    } else {
        let b = blocks.last();
        match position_of(b.local.names(), a) {
            Some(i) => Some((false, depth, i as nat)),
            None => match position_of(b.upvals.names(), a) {
                Some(i) => Some(
                    (true, b.upvals.upvals()[i].1.0 as nat, b.upvals.upvals()[i].1.1 as nat),
                ),
                None => chain_index_of(blocks.drop_last(), a, depth + 1),
            },
        }
    }
}

/// The places that `chain_index_of` gives fit in a `usize` when the depths do.
pub proof fn lemma_chain_index_bounds(blocks: Seq<WizardBlock>, a: Seq<char>, depth: nat)
    ensures
        chain_index_of(blocks, a, depth) matches Some((h, b, c)) ==> (h ==> b <= usize::MAX) && (!h
            ==> depth <= b < depth + blocks.len()),
    decreases blocks.len(),
{
    if blocks.len() > 0 {
        lemma_position_of(blocks.last().local.names(), a);
        lemma_position_of(blocks.last().upvals.names(), a);
        lemma_chain_index_bounds(blocks.drop_last(), a, depth + 1);
    }
}

/// Where the innermost of `blocks` that has the local `a` has it:
/// `(depth, slot)`, `depth` being the depth of the last block.
pub open spec fn chain_local_of(blocks: Seq<WizardBlock>, a: Seq<char>, depth: nat) -> Option<
    (nat, nat),
>
    decreases blocks.len(),
{
    if blocks.len() == 0 {
        None
    } else {
        match position_of(blocks.last().local.names(), a) {
            Some(i) => Some((depth, i as nat)),
            None => chain_local_of(blocks.drop_last(), a, depth + 1),
        }
    }
}

/// A variable that was unknown and then made a local of the innermost
/// block is found there, at the slot it was given.
pub proof fn lemma_created_variable_found(
    before: Seq<WizardBlock>,
    after: Seq<WizardBlock>,
    a: Seq<char>,
)
    requires
        chain_index_of(before, a, 0) is None,
        before.len() > 0,
        after.len() == before.len(),
        after.last().upvals == before.last().upvals,
        after.last().local.names() == before.last().local.names().push(a),
    ensures
        chain_index_of(after, a, 0) == Some((false, 0nat, before.last().local.names().len())),
{
    let names = before.last().local.names();
    lemma_position_of(names, a);
    if position_of(names, a) is Some {
        assert(chain_index_of(before, a, 0) is Some);
    }
    lemma_name_found_after_create(names, a);
}

/// The scopes of the function bodies being compiled, the innermost last.
pub struct BlockChain(pub Vec<WizardBlock>);

impl BlockChain {
    pub fn new() -> (c: BlockChain)
        ensures
            c.0@.len() == 0,
    {
        BlockChain(Vec::new())
    }

    /// Where the variable `a` lives, looking from the innermost block
    /// outwards (see `chain_index_of`).
    pub fn index_of(&self, a: &str) -> (r: Option<(bool, usize, usize)>)
        ensures
            match chain_index_of(self.0@, a@, 0) {
                Some((h, b, c)) => r == Some((h, b as usize, c as usize)),
                None => r is None,
            },
    {
        let n = self.0.len();
        let mut k = n;
        let mut block: usize = 0;
        assert(self.0@.take(k as int) =~= self.0@);
        while k > 0
            invariant
                n == self.0@.len(),
                k <= n,
                block + k == n,
                chain_index_of(self.0@, a@, 0) == chain_index_of(
                    self.0@.take(k as int),
                    a@,
                    block as nat,
                ),
            decreases k,
        {
            let ghost pre = self.0@.take(k as int);
            assert(pre.drop_last() =~= self.0@.take(k - 1));
            let i = &self.0[k - 1];
            proof {
                lemma_position_of(i.local.names(), a@);
                lemma_position_of(i.upvals.names(), a@);
            }
            match i.index_of(a) {
                Some(b) => {
                    return Some((false, block, b));
                },
                _ => match i.upval_origin_of(a) {
                    Some((b, c)) => {
                        return Some((true, b, c));
                    },
                    _ => {
                        block += 1;
                    },
                },
            }
            k -= 1;
        }
        None
    }

    /// Where the innermost block that has the local `a` has it: (depth,
    /// slot).
    pub fn upval_index_of(&self, a: &str) -> (r: Option<(usize, usize)>)
        ensures
            match chain_local_of(self.0@, a@, 0) {
                Some((b, c)) => r == Some((b as usize, c as usize)),
                None => r is None,
            },
    {
        let n = self.0.len();
        let mut k = n;
        let mut block: usize = 0;
        assert(self.0@.take(k as int) =~= self.0@);
        while k > 0
            invariant
                n == self.0@.len(),
                k <= n,
                block + k == n,
                chain_local_of(self.0@, a@, 0) == chain_local_of(
                    self.0@.take(k as int),
                    a@,
                    block as nat,
                ),
            decreases k,
        {
            let ghost pre = self.0@.take(k as int);
            assert(pre.drop_last() =~= self.0@.take(k - 1));
            let i = &self.0[k - 1];
            proof {
                lemma_position_of(i.local.names(), a@);
            }
            match i.index_of(a) {
                Some(b) => {
                    return Some((block, b));
                },
                _ => {
                    block += 1;
                },
            }
            k -= 1;
        }
        None
    }

    /// The instruction that loads the variable `b`: `Ldl(0, slot)` for a
    /// local of the innermost block; otherwise `Ldup` of the innermost
    /// block's upvalue for it, created (with the origin found) when it has
    /// none. `None` for an unknown variable.
    pub fn variable(&mut self, b: &str) -> (r: Option<VarInstruction>)
        requires
            old(self).0@.len() > 0 ==> old(self).0@.last().upvals.upvals().len() < usize::MAX,
        ensures
            match chain_index_of(old(self).0@, b@, 0) {
                Some((h, a, c)) => if !h && a == 0 {
                    r == Some(VarInstruction::Ldl(0, c as usize)) && final(self).0@ == old(self).0@
                } else {
                    let last = old(self).0@.last();
                    let n = old(self).0@.len();
                    &&& n > 0
                    &&& final(self).0@.len() == n
                    &&& forall|k: int| 0 <= k < n - 1 ==> final(self).0@[k] == old(self).0@[k]
                    &&& final(self).0@.last().local == last.local
                    &&& match position_of(last.upvals.names(), b@) {
                        Some(i) => r == Some(VarInstruction::Ldup(i as usize)) && final(self).0@.last().upvals.upvals() == last.upvals.upvals(),
                        None => r == Some(VarInstruction::Ldup(last.upvals.upvals().len() as usize))
                            && final(self).0@.last().upvals.upvals() == last.upvals.upvals().push(
                            (b@, origin_for((a as usize, c as usize), false)),
                        ),
                    }
                },
                None => r is None && final(self).0@ == old(self).0@,
            },
    {
        let len = self.0.len();
        proof {
            lemma_chain_index_bounds(self.0@, b@, 0);
        }
        match self.index_of(b) {
            Some((h, a, c)) => {
                if a >= 1 || h {
                    let name = String::from_str(b);
                    let k = self.0[len - 1].upvals.get_or_create_index(name, (a, c));
                    Some(VarInstruction::Ldup(k))
                } else {
                    Some(VarInstruction::Ldl(0, c))
                }
            },
            None => {
                if len > 0 {
                    if let Some(a) = self.0[len - 1].upvals.index_of(b) {
                        return Some(VarInstruction::Ldup(a));
                    }
                }
                None
            },
        }
    }

    /// The instruction that stores into the variable `b`: the store
    /// counterpart of `variable(b)`.
    pub fn load_variable(&mut self, b: &str) -> (r: Option<VarInstruction>)
        requires
            old(self).0@.len() > 0 ==> old(self).0@.last().upvals.upvals().len() < usize::MAX,
        ensures
            match chain_index_of(old(self).0@, b@, 0) {
                Some((h, a, c)) => if !h && a == 0 {
                    r == Some(VarInstruction::Stl(0, c as usize)) && final(self).0@ == old(self).0@
                } else {
                    let last = old(self).0@.last();
                    let n = old(self).0@.len();
                    &&& n > 0
                    &&& final(self).0@.len() == n
                    &&& forall|k: int| 0 <= k < n - 1 ==> final(self).0@[k] == old(self).0@[k]
                    &&& final(self).0@.last().local == last.local
                    &&& match position_of(last.upvals.names(), b@) {
                        Some(i) => r == Some(VarInstruction::Stup(i as usize)) && final(self).0@.last().upvals.upvals() == last.upvals.upvals(),
                        None => r == Some(VarInstruction::Stup(last.upvals.upvals().len() as usize))
                            && final(self).0@.last().upvals.upvals() == last.upvals.upvals().push(
                            (b@, origin_for((a as usize, c as usize), false)),
                        ),
                    }
                },
                None => r is None && final(self).0@ == old(self).0@,
            },
    {
        match self.variable(b) {
            Some(v) => Some(v.into_loaded()),
            None => None,
        }
    }

    /// Where the variable `a` lives; an unknown one becomes the next local
    /// of the innermost block (a first block is made if there is none).
    pub fn get_or_create_index(&mut self, a: String) -> (r: (bool, usize, usize))
        requires
            old(self).0@.len() > 0 ==> old(self).0@.last().local.names().len() < usize::MAX,
        ensures
            match chain_index_of(old(self).0@, a@, 0) {
                Some((h, b, c)) => r == (h, b as usize, c as usize) && final(self).0@ == old(self).0@,
                None => if old(self).0@.len() == 0 {
                    &&& r == (false, 0usize, 0usize)
                    &&& final(self).0@.len() == 1
                    &&& final(self).0@[0].local.names() == seq![a@]
                    &&& final(self).0@[0].upvals.upvals().len() == 0
                } else {
                    let last = old(self).0@.last();
                    let n = old(self).0@.len();
                    &&& r == (false, 0usize, last.local.names().len() as usize)
                    &&& final(self).0@.len() == n
                    &&& forall|k: int| 0 <= k < n - 1 ==> final(self).0@[k] == old(self).0@[k]
                    &&& final(self).0@.last().upvals == last.upvals
                    &&& final(self).0@.last().local.names() == last.local.names().push(a@)
                },
            },
    {
        match self.index_of(a.as_str()) {
            Some(t) => t,
            None => {
                let len = self.0.len();
                let idx = if len == 0 {
                    self.0.push(WizardBlock::new());
                    proof {
                        lemma_position_of(self.0@[0].local.names(), a@);
                        lemma_position_of(self.0@[0].upvals.names(), a@);
                        assert(self.0@[0].local.names().push(a@) =~= seq![a@]);
                    }
                    self.0[0].get_or_create_index(a)
                } else {
                    self.0[len - 1].get_or_create_index(a)
                };
                (idx.0, 0, idx.1)
            },
        }
    }
}

} // verus!
