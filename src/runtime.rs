//! The runtime context: the symbol table, the function table and the table
//! of vectors with their back-indices, and the primitives that use them.
use vstd::prelude::*;
use crate::prims::{bool_val, shen_bool, shen_make_error};
use crate::token::{KlNumber, Num, copy_string};
use crate::value::{
    Binding, Clo, KlClosure, KlElement, KlError, Val, binds_of, copy_closure, copy_element,
    lemma_vals_of, res_view, vals_of,
};

verus! {

/// A vector: its identity, its elements, and the back-index list of the
/// positions at which a list or a vector has been stored.
pub struct UniqueVector {
    pub uuid: u128,
    pub vector: Vec<KlElement>,
    pub back_indices: Vec<usize>,
}

pub struct FunctionEntry {
    pub name: String,
    pub closure: KlClosure,
}

pub struct Runtime {
    pub symbols: Vec<Binding>,
    pub functions: Vec<FunctionEntry>,
    pub vectors: Vec<UniqueVector>,
}

/// What a vector record denotes.
pub struct VecV {
    pub uuid: u128,
    pub items: Seq<Val>,
    pub back: Seq<usize>,
}

/// What a runtime denotes: its symbol bindings, its function entries and
/// its vector records, each in the order they were made.
pub struct St {
    pub syms: Seq<(Seq<char>, Val)>,
    pub fns: Seq<(Seq<char>, Clo)>,
    pub vecs: Seq<VecV>,
}

pub open spec fn vec_view(v: UniqueVector) -> VecV {
    VecV { uuid: v.uuid, items: vals_of(v.vector@), back: v.back_indices@ }
}

pub open spec fn vecs_view(vs: Seq<UniqueVector>) -> Seq<VecV>
    decreases vs.len(),
{
    if vs.len() == 0 {
        Seq::empty()
    } else {
        vecs_view(vs.drop_last()).push(vec_view(vs.last()))
    }
}

pub proof fn lemma_vecs_view(vs: Seq<UniqueVector>)
    ensures
        vecs_view(vs).len() == vs.len(),
        forall|i: int| 0 <= i < vs.len() ==> #[trigger] vecs_view(vs)[i] == vec_view(vs[i]),
    decreases vs.len(),
{
    if vs.len() > 0 {
        lemma_vecs_view(vs.drop_last());
    }
}

/// The value of the latest binding of `name`.
pub open spec fn lookup(bs: Seq<(Seq<char>, Val)>, name: Seq<char>) -> Option<Val>
    decreases bs.len(),
{
    if bs.len() == 0 {
        None
    } else if bs.last().0 == name {
        Some(bs.last().1)
    } else {
        lookup(bs.drop_last(), name)
    }
}

pub open spec fn fns_of(s: Seq<FunctionEntry>) -> Seq<(Seq<char>, Clo)>
    decreases s.len(),
{
    if s.len() == 0 {
        Seq::empty()
    } else {
        fns_of(s.drop_last()).push((s.last().name@, s.last().closure@))
    }
}

/// The closure of the latest entry of `name`.
pub open spec fn lookup_fn(fs: Seq<(Seq<char>, Clo)>, name: Seq<char>) -> Option<Clo>
    decreases fs.len(),
{
    if fs.len() == 0 {
        None
    } else if fs.last().0 == name {
        Some(fs.last().1)
    } else {
        lookup_fn(fs.drop_last(), name)
    }
}

/// The position of the vector `id` in the table, or -1.
pub open spec fn slot_of(vs: Seq<VecV>, id: u128) -> int
    decreases vs.len(),
{
    if vs.len() == 0 {
        -1
    } else if vs.last().uuid == id {
        vs.len() - 1
    } else {
        slot_of(vs.drop_last(), id)
    }
}

pub open spec fn contents_of(vs: Seq<VecV>, id: u128) -> Option<Seq<Val>> {
    let k = slot_of(vs, id);
    if 0 <= k < vs.len() {
        Some(vs[k].items)
    } else {
        None
    }
}

pub open spec fn back_index_of(vs: Seq<VecV>, id: u128) -> Seq<usize> {
    let k = slot_of(vs, id);
    if 0 <= k < vs.len() {
        vs[k].back
    } else {
        Seq::empty()
    }
}

pub proof fn lemma_slot_of(vs: Seq<VecV>, id: u128)
    ensures
        -1 <= slot_of(vs, id) < vs.len(),
        0 <= slot_of(vs, id) ==> vs[slot_of(vs, id)].uuid == id,
        slot_of(vs, id) == -1 ==> forall|k: int| 0 <= k < vs.len() ==> vs[k].uuid != id,
    decreases vs.len(),
{
    if vs.len() > 0 {
        lemma_slot_of(vs.drop_last(), id);
        assert forall|k: int| 0 <= k < vs.len() - 1 implies vs.drop_last()[k] == vs[k] by {}
    }
}

/// With unique identities, the slot of the identity at `k` is `k`.
pub proof fn lemma_slot_unique(vs: Seq<VecV>, k: int)
    requires
        ids_unique(vs),
        0 <= k < vs.len(),
    ensures
        slot_of(vs, vs[k].uuid) == k,
{
    lemma_slot_of(vs, vs[k].uuid);
    let s = slot_of(vs, vs[k].uuid);
    if s != k {
        if s < k {
            assert(vs[s].uuid != vs[k].uuid);
        } else {
            assert(vs[k].uuid != vs[s].uuid);
        }
    }
}

/// Vector identities are unique.
pub open spec fn ids_unique(vs: Seq<VecV>) -> bool {
    forall|i: int, j: int| 0 <= i < j < vs.len() ==> #[trigger] vs[i].uuid != #[trigger] vs[j].uuid
}

impl View for Runtime {
    type V = St;

    open spec fn view(&self) -> St {
        St { syms: binds_of(self.symbols@), fns: fns_of(self.functions@), vecs: vecs_view(self.vectors@) }
    }
}

impl Runtime {
    pub open spec fn symbol_table(&self) -> Seq<(Seq<char>, Val)> {
        binds_of(self.symbols@)
    }

    pub open spec fn function_table(&self) -> Seq<(Seq<char>, Clo)> {
        fns_of(self.functions@)
    }

    /// Vector identities are unique in the table.
    pub open spec fn wf(&self) -> bool {
        ids_unique(self@.vecs)
    }

    /// An empty runtime: no symbols, functions or vectors.
    pub fn new() -> (r: Runtime)
        ensures
            r.wf(),
            r@.syms.len() == 0,
            r@.fns.len() == 0,
            r@.vecs.len() == 0,
    {
        Runtime { symbols: Vec::new(), functions: Vec::new(), vectors: Vec::new() }
    }
}

/// The position of the vector `id` in the table.
pub fn find_vector(rt: &Runtime, id: u128) -> (r: Option<usize>)
    ensures
        r matches Some(k) ==> k as int == slot_of(rt@.vecs, id) && k < rt.vectors@.len(),
        r is None <==> slot_of(rt@.vecs, id) == -1,
{
    let ghost vv = rt@.vecs;
    proof {
        lemma_vecs_view(rt.vectors@);
        lemma_slot_of(vv, id);
    }
    let mut k: usize = rt.vectors.len();
    assert(vv.take(k as int) == vv);
    while k > 0
        invariant
            k <= rt.vectors@.len(),
            vv == rt@.vecs,
            vv.len() == rt.vectors@.len(),
            forall|i: int| 0 <= i < rt.vectors@.len() ==> #[trigger] vv[i] == vec_view(rt.vectors@[i]),
            slot_of(vv, id) == slot_of(vv.take(k as int), id),
        decreases k,
    {
        let ghost t = vv.take(k as int);
        assert(t.drop_last() =~= vv.take(k - 1));
        assert(t.last() == vv[k - 1]);
        if rt.vectors[k - 1].uuid == id {
            return Some(k - 1);
        }
        k = k - 1;
    }
    None
}

/// What `set` does: binds a symbol and returns unit.
pub open spec fn set_fn(st: St, symbol: Val, value: Val) -> (St, Result<Val, Seq<char>>) {
    match symbol {
        Val::Symbol(n) => (St { syms: st.syms.push((n, value)), ..st }, Ok(Val::Nil)),
        _ => (st, Err("shen_set: expecting a symbol for a key."@)),
    }
}

/// `set`: binds a symbol to a value in the symbol table; returns unit.
pub fn shen_set(rt: &mut Runtime, symbol: &KlElement, value: &KlElement) -> (r: Result<KlElement, KlError>)
    requires
        old(rt).wf(),
    ensures
        final(rt).wf(),
        final(rt)@ == set_fn(old(rt)@, symbol@, value@).0,
        res_view(r) == set_fn(old(rt)@, symbol@, value@).1,
{
    match symbol {
        KlElement::Symbol(n) => {
            let b = Binding { name: copy_string(n), value: copy_element(value) };
            let ghost s0 = rt.symbols@;
            rt.symbols.push(b);
            assert(rt.symbols@.drop_last() == s0);
            Ok(KlElement::Nil)
        },
        _ => Err(shen_make_error("shen_set: expecting a symbol for a key.")),
    }
}
/// The latest binding of `name` in `bs`.
pub fn lookup_binding(bs: &Vec<Binding>, name: &String) -> (r: Option<KlElement>)
    ensures
        r matches Some(v) ==> lookup(binds_of(bs@), name@) == Some(v@),
        r is None <==> lookup(binds_of(bs@), name@) is None,
{
    let mut k: usize = bs.len();
    assert(bs@.take(k as int) == bs@);
    while k > 0
        invariant
            k <= bs@.len(),
            lookup(binds_of(bs@), name@) == lookup(binds_of(bs@.take(k as int)), name@),
        decreases k,
    {
        let ghost t = bs@.take(k as int);
        assert(t.drop_last() =~= bs@.take(k - 1));
        assert(binds_of(t).drop_last() =~= binds_of(bs@.take(k - 1)));
        assert(t.last() == bs@[k - 1]);
        if crate::text::same_string(&bs[k - 1].name, name) {
            return Some(copy_element(&bs[k - 1].value));
        }
        k = k - 1;
    }
    assert(bs@.take(bs@.len() as int) == bs@);
    None
}

/// What `value` returns.
pub open spec fn value_fn(syms: Seq<(Seq<char>, Val)>, symbol: Val) -> Result<Val, Seq<char>> {
    match symbol {
        Val::Symbol(n) => match lookup(syms, n) {
            Some(v) => Ok(v),
            None => Err("variable "@ + n + " is unbound"@),
        },
        _ => Err("shen_value: expecting a symbol for a key."@),
    }
}

/// `value`: the value a symbol is bound to.
pub fn shen_value(rt: &Runtime, symbol: &KlElement) -> (r: Result<KlElement, KlError>)
    ensures
        res_view(r) == value_fn(rt@.syms, symbol@),
{
    match symbol {
        KlElement::Symbol(n) => match lookup_binding(&rt.symbols, n) {
            Some(v) => Ok(v),
            None => {
                let mut m = String::from_str("variable ");
                m.append(n.as_str());
                m.append(" is unbound");
                Err(KlError::ErrorString(m))
            },
        },
        _ => Err(shen_make_error("shen_value: expecting a symbol for a key.")),
    }
}

/// Installs `c` under `name` in the function table.
pub fn add_to_function_table(rt: &mut Runtime, name: String, c: KlClosure)
    requires
        old(rt).wf(),
    ensures
        final(rt).wf(),
        final(rt)@ == (St { fns: old(rt)@.fns.push((name@, c@)), ..old(rt)@ }),
{
    let ghost f0 = rt.functions@;
    rt.functions.push(FunctionEntry { name, closure: c });
    assert(rt.functions@.drop_last() == f0);
}

/// The closure installed under `s`.
pub fn shen_lookup_function(rt: &Runtime, s: &String) -> (r: Option<KlClosure>)
    ensures
        r matches Some(c) ==> lookup_fn(rt@.fns, s@) == Some(c@),
        r is None <==> lookup_fn(rt@.fns, s@) is None,
{
    let fs = &rt.functions;
    let mut k: usize = fs.len();
    assert(fs@.take(k as int) == fs@);
    while k > 0
        invariant
            k <= fs@.len(),
            fs@ == rt.functions@,
            lookup_fn(fns_of(fs@), s@) == lookup_fn(fns_of(fs@.take(k as int)), s@),
        decreases k,
    {
        let ghost t = fs@.take(k as int);
        assert(t.drop_last() =~= fs@.take(k - 1));
        assert(fns_of(t).drop_last() =~= fns_of(fs@.take(k - 1)));
        assert(t.last() == fs@[k - 1]);
        assert(fns_of(t).last() == (fs@[k - 1].name@, fs@[k - 1].closure@));
        if crate::text::same_string(&fs[k - 1].name, s) {
            assert(fns_of(t).len() > 0);
            assert(lookup_fn(fns_of(t), s@) == Some(fs@[k - 1].closure@));
            assert(fs@ == rt.functions@);
            return Some(copy_closure(&fs[k - 1].closure));
        }
        k = k - 1;
    }
    None
}

/// Relies on uuid::Uuid::new_v4 and Uuid::as_u128: a random version-4
/// identifier as an integer. Nothing is known of its value.
#[verifier::external_body]
fn fresh_vector_identity() -> (r: u128) {
    uuid::Uuid::new_v4().as_u128()
}

/// `absvector`: a new, empty vector with a fresh identity, entered in the
/// vector table with an empty back-index list. Fails, changing nothing, in
/// the unlikely case that the identity drawn is already taken.
pub fn shen_absvector(rt: &mut Runtime) -> (r: Result<KlElement, KlError>)
    requires
        old(rt).wf(),
    ensures
        final(rt).wf(),
        r matches Ok(v) ==> (v@ matches Val::Vector(id) && contents_of(old(rt)@.vecs, id) is None
            && final(rt)@ == (St {
            vecs: old(rt)@.vecs.push(VecV { uuid: id, items: Seq::empty(), back: Seq::empty() }),
            ..old(rt)@
        })),
        r matches Err(e) ==> e@ == "shen_absvector: vector identity already in use."@ && final(rt)@
            == old(rt)@,
{
    let id = fresh_vector_identity();
    match find_vector(rt, id) {
        Some(_) => Err(shen_make_error("shen_absvector: vector identity already in use.")),
        None => {
            let ghost v0 = rt.vectors@;
            proof {
                lemma_slot_of(rt@.vecs, id);
                lemma_vecs_view(v0);
            }
            rt.vectors.push(UniqueVector { uuid: id, vector: Vec::new(), back_indices: Vec::new() });
            proof {
                let vs = rt.vectors@;
                assert(vs.drop_last() == v0);
                assert(vals_of(vs.last().vector@) =~= Seq::<Val>::empty());
                lemma_vecs_view(vs);
            }
            Ok(KlElement::Vector(id))
        },
    }
}

/// Records `index` in the back-index list of the vector `id`; `None` when
/// there is no such vector.
pub fn shen_with_unique_vector(rt: &mut Runtime, id: u128, index: usize) -> (r: Option<()>)
    requires
        old(rt).wf(),
    ensures
        final(rt).wf(),
        r is Some <==> contents_of(old(rt)@.vecs, id) is Some,
        r is Some ==> ({
            let k = slot_of(old(rt)@.vecs, id);
            let v = old(rt)@.vecs[k];
            final(rt)@ == (St {
                vecs: old(rt)@.vecs.update(k, VecV { back: v.back.push(index), ..v }),
                ..old(rt)@
            })
        }),
        r is None ==> final(rt)@ == old(rt)@,
{
    proof {
        lemma_slot_of(rt@.vecs, id);
    }
    match find_vector(rt, id) {
        None => None,
        Some(k) => {
            let ghost v0 = rt.vectors@;
            let mut entry = UniqueVector { uuid: id, vector: Vec::new(), back_indices: Vec::new() };
            std::mem::swap(&mut entry, &mut rt.vectors[k]);
            let ghost e0 = entry;
            entry.back_indices.push(index);
            std::mem::swap(&mut entry, &mut rt.vectors[k]);
            proof {
                let vs = rt.vectors@;
                lemma_vecs_view(v0);
                lemma_vecs_view(vs);
                assert(e0 == v0[k as int]);
                assert(vs.len() == v0.len());
                assert forall|j: int| 0 <= j < vs.len() && j != k implies vs[j] == v0[j] by {}
                let w = vecs_view(v0)[k as int];
                assert(vecs_view(vs) =~= vecs_view(v0).update(k as int, VecV { back: w.back.push(index), ..w }));
            }
            Some(())
        },
    }
}

/// A list or a vector: what the back-index table records.
pub open spec fn is_composite(v: Val) -> bool {
    v is Cons || v is Vector
}

/// What `address->` does: stores `value` at `index` of the vector (at the
/// end when `index` is its length), records the index in the back-index
/// list when `value` is a list or a vector, and returns the vector.
pub open spec fn address_fn(vs: Seq<VecV>, vector: Val, index: Val, value: Val) -> (Seq<VecV>, Result<Val, Seq<char>>) {
    match vector {
        Val::Vector(id) => {
            let k = slot_of(vs, id);
            if 0 <= k < vs.len() {
                let xs = vs[k].items;
                match index {
                    Val::Number(Num::Int(i)) => if 0 <= i <= xs.len() {
                        let items = if i < xs.len() {
                            xs.update(i as int, value)
                        } else {
                            xs.push(value)
                        };
                        let back = if is_composite(value) {
                            vs[k].back.push(i as usize)
                        } else {
                            vs[k].back
                        };
                        (vs.update(k, VecV { uuid: id, items, back }), Ok(vector))
                    } else if i < 0 {
                        (vs, Err("shen_insert_at_address: Expecting a positive number."@))
                    } else {
                        (
                            vs,
                            Err(
                                "shen_insert_at_address: Expecting a positive integer less than the vector length."@,
                            ),
                        )
                    },
                    _ => (vs, Err("shen_insert_at_address: Expecting a positive number."@)),
                }
            } else {
                (vs, Err("shen_insert_at_address: Expecting a vector."@))
            }
        },
        _ => (vs, Err("shen_insert_at_address: Expecting a vector."@)),
    }
}

fn store_at(rt: &mut Runtime, k: usize, i: usize, value: KlElement)
    requires
        old(rt).wf(),
        k < old(rt).vectors@.len(),
        i <= old(rt)@.vecs[k as int].items.len(),
    ensures
        final(rt).wf(),
        ({
            let v = old(rt)@.vecs[k as int];
            final(rt)@ == (St {
                vecs: old(rt)@.vecs.update(
                    k as int,
                    VecV {
                        items: if i < v.items.len() {
                            v.items.update(i as int, value@)
                        } else {
                            v.items.push(value@)
                        },
                        ..v
                    },
                ),
                ..old(rt)@
            })
        }),
{
    let ghost v0 = rt.vectors@;
    proof {
        lemma_vecs_view(v0);
    }
    let mut entry = UniqueVector { uuid: 0, vector: Vec::new(), back_indices: Vec::new() };
    std::mem::swap(&mut entry, &mut rt.vectors[k]);
    let ghost e0 = entry;
    assert(e0 == v0[k as int]);
    proof {
        lemma_vals_of(e0.vector@);
    }
    if i < entry.vector.len() {
        entry.vector.set(i, value);
        proof {
            lemma_vals_of(entry.vector@);
            assert(vals_of(entry.vector@) =~= vals_of(e0.vector@).update(i as int, value@));
        }
    } else {
        entry.vector.push(value);
        proof {
            assert(entry.vector@.drop_last() == e0.vector@);
        }
    }
    let ghost e1 = entry;
    std::mem::swap(&mut entry, &mut rt.vectors[k]);
    proof {
        let vs = rt.vectors@;
        lemma_vecs_view(vs);
        assert(vs.len() == v0.len());
        assert forall|j: int| 0 <= j < vs.len() && j != k implies vs[j] == v0[j] by {}
        assert(vs[k as int] == e1);
        let w = vecs_view(v0)[k as int];
        assert(vecs_view(vs) =~= vecs_view(v0).update(
            k as int,
            VecV {
                items: if i < w.items.len() {
                    w.items.update(i as int, value@)
                } else {
                    w.items.push(value@)
                },
                ..w
            },
        ));
        assert forall|a: int, b: int| 0 <= a < b < vecs_view(vs).len() implies #[trigger] vecs_view(vs)[a].uuid
            != #[trigger] vecs_view(vs)[b].uuid by {
            assert(vecs_view(v0)[a].uuid != vecs_view(v0)[b].uuid);
        }
    }
}

/// `address->`: stores a value in a vector, keeping the back-index table
/// in step.
pub fn shen_insert_at_address(rt: &mut Runtime, vector: &KlElement, index: &KlElement, value: &KlElement) -> (r: Result<KlElement, KlError>)
    requires
        old(rt).wf(),
    ensures
        final(rt).wf(),
        final(rt)@ == (St { vecs: address_fn(old(rt)@.vecs, vector@, index@, value@).0, ..old(rt)@ }),
        res_view(r) == address_fn(old(rt)@.vecs, vector@, index@, value@).1,
{
    let ghost s0 = rt@;
    match vector {
        KlElement::Vector(id) => match find_vector(rt, *id) {
            Some(k) => {
                proof {
                    lemma_slot_of(s0.vecs, *id);
                    lemma_vecs_view(rt.vectors@);
                }
                match index {
                    KlElement::Number(KlNumber::Int(i)) => {
                        if *i < 0 {
                            return Err(shen_make_error("shen_insert_at_address: Expecting a positive number."));
                        }
                        let len = rt.vectors[k].vector.len();
                        proof {
                            lemma_vals_of(rt.vectors@[k as int].vector@);
                        }
                        if (*i as u64) > (len as u64) {
                            return Err(
                                shen_make_error(
                                    "shen_insert_at_address: Expecting a positive integer less than the vector length.",
                                ),
                            );
                        }
                        let at = *i as usize;
                        let composite = match value {
                            KlElement::Cons(_) | KlElement::Vector(_) => true,
                            _ => false,
                        };
                        store_at(rt, k, at, copy_element(value));
                        let ghost s1 = rt@;
                        if composite {
                            proof {
                                lemma_slot_same(s0.vecs, s1.vecs, *id);
                            }
                            shen_with_unique_vector(rt, *id, at);
                            proof {
                                assert(rt@.vecs =~= address_fn(s0.vecs, vector@, index@, value@).0);
                            }
                        } else {
                            assert(rt@.vecs =~= address_fn(s0.vecs, vector@, index@, value@).0);
                        }
                        Ok(copy_element(vector))
                    },
                    _ => Err(shen_make_error("shen_insert_at_address: Expecting a positive number.")),
                }
            },
            None => Err(shen_make_error("shen_insert_at_address: Expecting a vector.")),
        },
        _ => Err(shen_make_error("shen_insert_at_address: Expecting a vector.")),
    }
}

proof fn lemma_slot_same(a: Seq<VecV>, b: Seq<VecV>, id: u128)
    requires
        a.len() == b.len(),
        forall|j: int| 0 <= j < a.len() ==> a[j].uuid == b[j].uuid,
    ensures
        slot_of(a, id) == slot_of(b, id),
    decreases a.len(),
{
    if a.len() > 0 {
        lemma_slot_same(a.drop_last(), b.drop_last(), id);
    }
}

/// After `address->` stores a list or a vector at index `i` of a vector, the
/// back-index list of that vector holds `i`.
pub proof fn lemma_back_index_holds_store(vs: Seq<VecV>, id: u128, i: i64, value: Val)
    requires
        ids_unique(vs),
        address_fn(vs, Val::Vector(id), Val::Number(Num::Int(i)), value).1 is Ok,
        is_composite(value),
    ensures
        back_index_of(address_fn(vs, Val::Vector(id), Val::Number(Num::Int(i)), value).0, id).contains(
            i as usize,
        ),
{
    let nv = address_fn(vs, Val::Vector(id), Val::Number(Num::Int(i)), value).0;
    let k = slot_of(vs, id);
    lemma_slot_of(vs, id);
    assert(forall|j: int| 0 <= j < vs.len() ==> nv[j].uuid == vs[j].uuid);
    lemma_slot_same(vs, nv, id);
    let b = back_index_of(nv, id);
    assert(b[b.len() - 1] == i as usize);
}

/// What `<-address` returns: the element at a positive index of a vector;
/// unit past its end.
pub open spec fn fetch_fn(vs: Seq<VecV>, vector: Val, index: Val) -> Result<Val, Seq<char>> {
    match vector {
        Val::Vector(id) => match contents_of(vs, id) {
            Some(xs) => match index {
                Val::Number(Num::Int(i)) => if i > 0 {
                    if i < xs.len() {
                        Ok(xs[i as int])
                    } else {
                        Ok(Val::Nil)
                    }
                } else {
                    Err("shen_get_at_address: Expecting a positive number."@)
                },
                _ => Err("shen_get_at_address: Expecting a positive number."@),
            },
            None => Err("shen_get_at_address: Expecting a vector."@),
        },
        _ => Err("shen_get_at_address: Expecting a vector."@),
    }
}

/// `<-address`: the element at a positive index of a vector; unit past its
/// end.
pub fn shen_get_at_address(rt: &Runtime, vector: &KlElement, index: &KlElement) -> (r: Result<KlElement, KlError>)
    ensures
        res_view(r) == fetch_fn(rt@.vecs, vector@, index@),
{
    match vector {
        KlElement::Vector(id) => match find_vector(rt, *id) {
            Some(k) => {
                proof {
                    lemma_slot_of(rt@.vecs, *id);
                    lemma_vecs_view(rt.vectors@);
                    lemma_vals_of(rt.vectors@[k as int].vector@);
                }
                match index {
                    KlElement::Number(KlNumber::Int(i)) => {
                        if *i <= 0 {
                            return Err(shen_make_error("shen_get_at_address: Expecting a positive number."));
                        }
                        if (*i as u64) < (rt.vectors[k].vector.len() as u64) {
                            Ok(copy_element(&rt.vectors[k].vector[*i as usize]))
                        } else {
                            Ok(KlElement::Nil)
                        }
                    },
                    _ => Err(shen_make_error("shen_get_at_address: Expecting a positive number.")),
                }
            },
            None => Err(shen_make_error("shen_get_at_address: Expecting a vector.")),
        },
        _ => Err(shen_make_error("shen_get_at_address: Expecting a vector.")),
    }
}

/// `=` on values, looking through at most `d` vectors on any path: atoms
/// by value, lists element by element, vectors when they are the same
/// vector or, element by element, equal. Closures and tail-call markers
/// are never equal.
pub open spec fn equal_vals(vs: Seq<VecV>, a: Val, b: Val, d: nat) -> bool
    decreases d, a,
{
    match (a, b) {
        (Val::Cons(xs), Val::Cons(ys)) => equal_seqs(vs, xs, ys, d),
        (Val::Vector(i), Val::Vector(j)) => i == j || (d > 0 && match (
            contents_of(vs, i),
            contents_of(vs, j),
        ) {
            (Some(xs), Some(ys)) => equal_seqs(vs, xs, ys, (d - 1) as nat),
            _ => false,
        }),
        (Val::Closure(_), _) => false,
        (Val::Recur(_), _) => false,
        (Val::Cons(_), _) => false,
        (Val::Vector(_), _) => false,
        _ => a == b,
    }
}

pub open spec fn equal_seqs(vs: Seq<VecV>, xs: Seq<Val>, ys: Seq<Val>, d: nat) -> bool
    decreases d, xs,
{
    if xs.len() != ys.len() {
        false
    } else if xs.len() == 0 {
        true
    } else {
        equal_vals(vs, xs[0], ys[0], d) && equal_seqs(
            vs,
            xs.subrange(1, xs.len() as int),
            ys.subrange(1, ys.len() as int),
            d,
        )
    }
}

/// A value with no closure and no tail-call marker in it, looking into
/// lists.
pub open spec fn closure_free(a: Val) -> bool
    decreases a,
{
    match a {
        Val::Closure(_) => false,
        Val::Recur(_) => false,
        Val::Cons(xs) => closures_free(xs),
        _ => true,
    }
}

pub open spec fn closures_free(xs: Seq<Val>) -> bool
    decreases xs,
{
    xs.len() == 0 || (closure_free(xs[0]) && closures_free(xs.subrange(1, xs.len() as int)))
}

/// `=` on two sequences of values (the elements of lists or vectors), one
/// pair at a time, through at most `d` vectors.
pub fn shen_vector_equal(rt: &Runtime, xs: &Vec<KlElement>, ys: &Vec<KlElement>, d: u64) -> (r: bool)
    ensures
        r == equal_seqs(rt@.vecs, vals_of(xs@), vals_of(ys@), d as nat),
    decreases d, xs,
{
    proof {
        lemma_vals_of(xs@);
        lemma_vals_of(ys@);
    }
    let ghost vx = vals_of(xs@);
    let ghost vy = vals_of(ys@);
    if xs.len() != ys.len() {
        return false;
    }
    let mut i: usize = 0;
    assert(vx.subrange(0, vx.len() as int) == vx);
    assert(vy.subrange(0, vy.len() as int) == vy);
    while i < xs.len()
        invariant
            i <= xs.len() == ys.len(),
            vx == vals_of(xs@),
            vy == vals_of(ys@),
            vx.len() == xs.len() && vy.len() == ys.len(),
            forall|k: int| 0 <= k < xs.len() ==> #[trigger] vx[k] == xs@[k]@,
            forall|k: int| 0 <= k < ys.len() ==> #[trigger] vy[k] == ys@[k]@,
            equal_seqs(rt@.vecs, vx, vy, d as nat) == equal_seqs(
                rt@.vecs,
                vx.subrange(i as int, vx.len() as int),
                vy.subrange(i as int, vy.len() as int),
                d as nat,
            ),
        decreases xs.len() - i,
    {
        let ghost sx = vx.subrange(i as int, vx.len() as int);
        let ghost sy = vy.subrange(i as int, vy.len() as int);
        assert(sx.subrange(1, sx.len() as int) =~= vx.subrange(i + 1, vx.len() as int));
        assert(sy.subrange(1, sy.len() as int) =~= vy.subrange(i + 1, vy.len() as int));
        assert(decreases_to!(xs => xs@[i as int]));
        if !shen_atoms_equal(rt, &xs[i], &ys[i], d) {
            return false;
        }
        i = i + 1;
    }
    true
}

/// `=` on two values, through at most `d` vectors.
pub fn shen_atoms_equal(rt: &Runtime, a: &KlElement, b: &KlElement, d: u64) -> (r: bool)
    ensures
        r == equal_vals(rt@.vecs, a@, b@, d as nat),
    decreases d, a,
{
    match (a, b) {
        (KlElement::Cons(xs), KlElement::Cons(ys)) => shen_vector_equal(rt, xs, ys, d),
        (KlElement::Vector(i), KlElement::Vector(j)) => {
            if *i == *j {
                return true;
            }
            if d == 0 {
                return false;
            }
            proof {
                lemma_slot_of(rt@.vecs, *i);
                lemma_slot_of(rt@.vecs, *j);
                lemma_vecs_view(rt.vectors@);
            }
            match (find_vector(rt, *i), find_vector(rt, *j)) {
                (Some(k), Some(m)) => shen_vector_equal(rt, &rt.vectors[k].vector, &rt.vectors[m].vector, d - 1),
                _ => false,
            }
        },
        (KlElement::Symbol(x), KlElement::Symbol(y)) => crate::text::same_string(x, y),
        (KlElement::String(x), KlElement::String(y)) => crate::text::same_string(x, y),
        (KlElement::Number(KlNumber::Int(x)), KlElement::Number(KlNumber::Int(y))) => *x == *y,
        (KlElement::Number(KlNumber::Float(x)), KlElement::Number(KlNumber::Float(y))) => {
            x.negative == y.negative && crate::text::same_bytes(&x.whole, &y.whole)
                && crate::text::same_bytes(&x.fraction, &y.fraction)
        },
        (KlElement::Stream(x), KlElement::Stream(y)) => *x == *y,
        (KlElement::Nil, KlElement::Nil) => true,
        _ => false,
    }
}

/// `=`: structural equality, through as many vectors as the table holds.
pub fn shen_equal(rt: &Runtime, a: &KlElement, b: &KlElement) -> (r: KlElement)
    ensures
        r@ == bool_val(equal_vals(rt@.vecs, a@, b@, rt@.vecs.len() as nat)),
{
    proof {
        lemma_vecs_view(rt.vectors@);
    }
    shen_bool(shen_atoms_equal(rt, a, b, rt.vectors.len() as u64))
}

proof fn lemma_refl(vs: Seq<VecV>, a: Val, d: nat)
    requires
        closure_free(a),
    ensures
        equal_vals(vs, a, a, d),
    decreases d, a,
{
    if let Val::Cons(xs) = a {
        lemma_refl_seqs(vs, xs, d);
    }
}

proof fn lemma_refl_seqs(vs: Seq<VecV>, xs: Seq<Val>, d: nat)
    requires
        closures_free(xs),
    ensures
        equal_seqs(vs, xs, xs, d),
    decreases d, xs,
{
    if xs.len() > 0 {
        lemma_refl(vs, xs[0], d);
        lemma_refl_seqs(vs, xs.subrange(1, xs.len() as int), d);
    }
}

proof fn lemma_sym(vs: Seq<VecV>, a: Val, b: Val, d: nat)
    ensures
        equal_vals(vs, a, b, d) == equal_vals(vs, b, a, d),
    decreases d, a,
{
    match (a, b) {
        (Val::Cons(xs), Val::Cons(ys)) => lemma_sym_seqs(vs, xs, ys, d),
        (Val::Vector(i), Val::Vector(j)) => {
            if d > 0 {
                match (contents_of(vs, i), contents_of(vs, j)) {
                    (Some(xs), Some(ys)) => lemma_sym_seqs(vs, xs, ys, (d - 1) as nat),
                    _ => {},
                }
            }
        },
        _ => {},
    }
}

proof fn lemma_sym_seqs(vs: Seq<VecV>, xs: Seq<Val>, ys: Seq<Val>, d: nat)
    ensures
        equal_seqs(vs, xs, ys, d) == equal_seqs(vs, ys, xs, d),
    decreases d, xs,
{
    if xs.len() == ys.len() && xs.len() > 0 {
        lemma_sym(vs, xs[0], ys[0], d);
        lemma_sym_seqs(vs, xs.subrange(1, xs.len() as int), ys.subrange(1, ys.len() as int), d);
    }
}

proof fn lemma_trans(vs: Seq<VecV>, a: Val, b: Val, c: Val, d: nat)
    requires
        equal_vals(vs, a, b, d),
        equal_vals(vs, b, c, d),
    ensures
        equal_vals(vs, a, c, d),
    decreases d, a,
{
    match (a, b, c) {
        (Val::Cons(xs), Val::Cons(ys), Val::Cons(zs)) => lemma_trans_seqs(vs, xs, ys, zs, d),
        (Val::Vector(i), Val::Vector(j), Val::Vector(k)) => {
            if i != j && j != k && i != k {
                let xs = contents_of(vs, i)->0;
                let ys = contents_of(vs, j)->0;
                let zs = contents_of(vs, k)->0;
                lemma_trans_seqs(vs, xs, ys, zs, (d - 1) as nat);
            }
        },
        _ => {},
    }
}

proof fn lemma_trans_seqs(vs: Seq<VecV>, xs: Seq<Val>, ys: Seq<Val>, zs: Seq<Val>, d: nat)
    requires
        equal_seqs(vs, xs, ys, d),
        equal_seqs(vs, ys, zs, d),
    ensures
        equal_seqs(vs, xs, zs, d),
    decreases d, xs,
{
    if xs.len() > 0 {
        lemma_trans(vs, xs[0], ys[0], zs[0], d);
        lemma_trans_seqs(
            vs,
            xs.subrange(1, xs.len() as int),
            ys.subrange(1, ys.len() as int),
            zs.subrange(1, zs.len() as int),
            d,
        );
    }
}

proof fn lemma_equal_seqs_pointwise(vs: Seq<VecV>, xs: Seq<Val>, ys: Seq<Val>, d: nat)
    ensures
        equal_seqs(vs, xs, ys, d) <==> (xs.len() == ys.len() && forall|k: int|
            0 <= k < xs.len() ==> #[trigger] equal_vals(vs, xs[k], ys[k], d)),
    decreases xs.len(),
{
    if xs.len() == ys.len() && xs.len() > 0 {
        let xr = xs.subrange(1, xs.len() as int);
        let yr = ys.subrange(1, ys.len() as int);
        lemma_equal_seqs_pointwise(vs, xr, yr, d);
        if forall|k: int| 0 <= k < xs.len() ==> #[trigger] equal_vals(vs, xs[k], ys[k], d) {
            assert forall|k: int| 0 <= k < xr.len() implies #[trigger] equal_vals(vs, xr[k], yr[k], d) by {
                assert(xr[k] == xs[k + 1] && yr[k] == ys[k + 1]);
                assert(equal_vals(vs, xs[k + 1], ys[k + 1], d));
            }
            assert(equal_vals(vs, xs[0], ys[0], d));
            assert(equal_seqs(vs, xs, ys, d));
        }
        if equal_seqs(vs, xs, ys, d) {
            assert forall|k: int| 0 <= k < xs.len() implies #[trigger] equal_vals(vs, xs[k], ys[k], d) by {
                if k > 0 {
                    assert(xr[k - 1] == xs[k] && yr[k - 1] == ys[k]);
                    assert(equal_vals(vs, xr[k - 1], yr[k - 1], d));
                }
            }
        }
    }
}

/// `=` is reflexive on values without closures, symmetric and transitive on
/// all values; two vectors are `=` exactly when they are the same vector, or
/// when their lengths agree and their elements are `=` one by one.
pub proof fn lemma_equal_laws(vs: Seq<VecV>, a: Val, b: Val, c: Val, d: nat)
    ensures
        closure_free(a) ==> equal_vals(vs, a, a, d),
        equal_vals(vs, a, b, d) == equal_vals(vs, b, a, d),
        equal_vals(vs, a, b, d) && equal_vals(vs, b, c, d) ==> equal_vals(vs, a, c, d),
        (a, b) matches (Val::Vector(i), Val::Vector(j)) ==> (equal_vals(vs, a, b, d) <==> (i == j
            || (d > 0 && contents_of(vs, i) is Some && contents_of(vs, j) is Some && ({
            let xs = contents_of(vs, i)->0;
            let ys = contents_of(vs, j)->0;
            xs.len() == ys.len() && forall|k: int|
                0 <= k < xs.len() ==> #[trigger] equal_vals(vs, xs[k], ys[k], (d - 1) as nat)
        })))),
{
    if closure_free(a) {
        lemma_refl(vs, a, d);
    }
    lemma_sym(vs, a, b, d);
    if equal_vals(vs, a, b, d) && equal_vals(vs, b, c, d) {
        lemma_trans(vs, a, b, c, d);
    }
    if let (Val::Vector(i), Val::Vector(j)) = (a, b) {
        if d > 0 && contents_of(vs, i) is Some && contents_of(vs, j) is Some {
            lemma_equal_seqs_pointwise(vs, contents_of(vs, i)->0, contents_of(vs, j)->0, (d - 1) as nat);
        }
    }
}

pub proof fn lemma_fns_of(s: Seq<FunctionEntry>)
    ensures
        fns_of(s).len() == s.len(),
        forall|i: int|
            0 <= i < s.len() ==> #[trigger] fns_of(s)[i] == (s[i].name@, s[i].closure@),
    decreases s.len(),
{
    if s.len() > 0 {
        lemma_fns_of(s.drop_last());
    }
}

} // verus!
