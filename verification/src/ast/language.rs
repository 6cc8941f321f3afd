use super::ast_view;
use super::clone_ast;
use super::clone_fields;
use super::clone_items;
use super::clone_pairs;
use super::fields_view;
use super::pairs_view;
use super::seq_view;
use super::AstItem;
use super::AstView;
use crate::order::chars_cmp;
use crate::order::cmp_ast;
use crate::order::cmp_str;
use crate::order::fields_insert;
use crate::order::lemma_fields_insert_at;
use crate::order::lemma_fields_insert_sorted;
use crate::order::lemma_map_insert_at;
use crate::order::lemma_map_insert_sorted;
use crate::order::lemma_set_insert_at;
use crate::order::lemma_set_insert_sorted;
use crate::order::map_insert;
use crate::order::node_cmp;
use crate::order::set_insert;
use crate::order::sorted_elems;
use crate::order::sorted_keys;
use crate::order::sorted_names;
use vstd::prelude::*;

verus! {

broadcast use
    crate::ast::lemma_seq_view_len,
    crate::ast::lemma_seq_view_index,
    crate::ast::lemma_pairs_view_len,
    crate::ast::lemma_pairs_view_index,
    crate::ast::lemma_fields_view_len,
    crate::ast::lemma_fields_view_index,
;

/// An ordered sequence of values; the element order is exactly as given by
/// the input.
#[derive(Debug, Eq, Hash, PartialEq, PartialOrd, Ord)]
pub struct ItemList(pub Vec<AstItem>);

impl View for ItemList {
    type V = Seq<AstView>;

    open spec fn view(&self) -> Seq<AstView> {
        seq_view(self.0@)
    }
}

impl Clone for ItemList {
    /// The copy is a list with the same model.
    fn clone(&self) -> (res: Self)
        ensures
            res@ == self@,
    {
        ItemList(clone_items(&self.0))
    }
}

/// A keyed mapping, canonically kept with unique keys in ascending order
/// under the total order over trees.
#[derive(Debug, Eq, Hash, PartialEq, PartialOrd, Ord)]
pub struct ItemMap(pub Vec<(AstItem, AstItem)>);

impl View for ItemMap {
    type V = Seq<(AstView, AstView)>;

    open spec fn view(&self) -> Seq<(AstView, AstView)> {
        pairs_view(self.0@)
    }
}

impl Clone for ItemMap {
    /// The copy is a mapping with the same model.
    fn clone(&self) -> (res: Self)
        ensures
            res@ == self@,
    {
        ItemMap(clone_pairs(&self.0))
    }
}

/// An optional slot, either empty or holding one value.
#[derive(Debug, Eq, Hash, PartialEq, PartialOrd, Ord)]
pub struct ItemOption(pub Option<Box<AstItem>>);

impl View for ItemOption {
    type V = Option<Box<AstView>>;

    open spec fn view(&self) -> Option<Box<AstView>> {
        match self.0 {
            Option::Some(b) => Option::Some(Box::new(ast_view(*b))),
            Option::None => Option::None,
        }
    }
}

impl Clone for ItemOption {
    /// The copy is an optional slot with the same model.
    fn clone(&self) -> (res: Self)
        ensures
            res@ == self@,
    {
        ItemOption(
            match &self.0 {
                Option::Some(b) => Option::Some(Box::new(clone_ast(b))),
                Option::None => Option::None,
            },
        )
    }
}

/// An order-independent collection, canonically kept without duplicates in
/// ascending order under the total order over trees.
#[derive(Debug, Eq, Hash, PartialEq, PartialOrd, Ord)]
pub struct ItemSet(pub Vec<AstItem>);

impl View for ItemSet {
    type V = Seq<AstView>;

    open spec fn view(&self) -> Seq<AstView> {
        seq_view(self.0@)
    }
}

impl Clone for ItemSet {
    /// The copy is a collection with the same model.
    fn clone(&self) -> (res: Self)
        ensures
            res@ == self@,
    {
        ItemSet(clone_items(&self.0))
    }
}

/// A named struct: a type name and a field-name-to-value mapping, canonically
/// kept in ascending field-name order.
#[derive(Debug, Eq, Hash, PartialEq, PartialOrd, Ord)]
pub struct ItemStruct(pub String, pub Vec<(String, AstItem)>);

impl View for ItemStruct {
    type V = (Seq<char>, Seq<(Seq<char>, AstView)>);

    open spec fn view(&self) -> (Seq<char>, Seq<(Seq<char>, AstView)>) {
        (self.0@, fields_view(self.1@))
    }
}

impl Clone for ItemStruct {
    /// The copy is a struct with the same model.
    fn clone(&self) -> (res: Self)
        ensures
            res@ == self@,
    {
        ItemStruct(self.0.clone(), clone_fields(&self.1))
    }
}

/// A fixed-shape tuple of values.
#[derive(Debug, Eq, Hash, PartialEq, PartialOrd, Ord)]
pub struct ItemTuple(pub Vec<AstItem>);

impl View for ItemTuple {
    type V = Seq<AstView>;

    open spec fn view(&self) -> Seq<AstView> {
        seq_view(self.0@)
    }
}

impl Clone for ItemTuple {
    /// The copy is a tuple with the same model.
    fn clone(&self) -> (res: Self)
        ensures
            res@ == self@,
    {
        ItemTuple(clone_items(&self.0))
    }
}

/// A named tuple struct: a type name and a sequence of elements.
#[derive(Debug, Eq, Hash, PartialEq, PartialOrd, Ord)]
pub struct ItemTupleStruct(pub String, pub Vec<AstItem>);

impl View for ItemTupleStruct {
    type V = (Seq<char>, Seq<AstView>);

    open spec fn view(&self) -> (Seq<char>, Seq<AstView>) {
        (self.0@, seq_view(self.1@))
    }
}

impl Clone for ItemTupleStruct {
    /// The copy is a tuple struct with the same model.
    fn clone(&self) -> (res: Self)
        ensures
            res@ == self@,
    {
        ItemTupleStruct(self.0.clone(), clone_items(&self.1))
    }
}

/// A bare identifier: an enum unit variant or a marker type.
#[derive(Debug, Eq, Hash, PartialEq, PartialOrd, Ord)]
pub struct ItemUnitStruct(pub String);

impl View for ItemUnitStruct {
    type V = Seq<char>;

    open spec fn view(&self) -> Seq<char> {
        self.0@
    }
}

/// Where a new element would land among canonically ordered elements: the
/// first position whose element it does not exceed.
fn elem_scan(v: &Vec<AstItem>, x: &AstItem) -> (idx: usize)
    ensures
        idx <= v@.len(),
        forall|t: int| 0 <= t < idx ==> node_cmp(x@, #[trigger] seq_view(v@)[t]) > 0,
        idx < v@.len() ==> node_cmp(x@, seq_view(v@)[idx as int]) <= 0,
{
    let mut idx: usize = 0;
    while idx < v.len()
        invariant
            idx <= v.len(),
            forall|t: int| 0 <= t < idx ==> node_cmp(x@, #[trigger] seq_view(v@)[t]) > 0,
        decreases v.len() - idx,
    {
        let c = cmp_ast(x, &v[idx]);
        if c <= 0 {
            return idx;
        }
        idx = idx + 1;
    }
    idx
}

/// Where a new key would land among canonically ordered entries: the first
/// position whose key it does not exceed.
fn key_scan(v: &Vec<(AstItem, AstItem)>, k: &AstItem) -> (idx: usize)
    ensures
        idx <= v@.len(),
        forall|t: int| 0 <= t < idx ==> node_cmp(k@, (#[trigger] pairs_view(v@)[t]).0) > 0,
        idx < v@.len() ==> node_cmp(k@, pairs_view(v@)[idx as int].0) <= 0,
{
    let mut idx: usize = 0;
    while idx < v.len()
        invariant
            idx <= v.len(),
            forall|t: int| 0 <= t < idx ==> node_cmp(k@, (#[trigger] pairs_view(v@)[t]).0) > 0,
        decreases v.len() - idx,
    {
        let c = cmp_ast(k, &v[idx].0);
        if c <= 0 {
            return idx;
        }
        idx = idx + 1;
    }
    idx
}

/// Where a new field name would land among canonically ordered fields: the
/// first position whose name it does not exceed.
fn name_scan(v: &Vec<(String, AstItem)>, n: &str) -> (idx: usize)
    ensures
        idx <= v@.len(),
        forall|t: int| 0 <= t < idx ==> chars_cmp(n@, (#[trigger] fields_view(v@)[t]).0) > 0,
        idx < v@.len() ==> chars_cmp(n@, fields_view(v@)[idx as int].0) <= 0,
{
    let mut idx: usize = 0;
    while idx < v.len()
        invariant
            idx <= v.len(),
            forall|t: int| 0 <= t < idx ==> chars_cmp(n@, (#[trigger] fields_view(v@)[t]).0) > 0,
        decreases v.len() - idx,
    {
        let c = cmp_str(n, v[idx].0.as_str());
        if c <= 0 {
            return idx;
        }
        idx = idx + 1;
    }
    idx
}

impl ItemSet {
    /// An empty collection.
    pub fn new() -> (s: ItemSet)
        ensures
            s@ == Seq::<AstView>::empty(),
    {
        ItemSet(Vec::new())
    }

    /// Puts one element into the collection at its place in the canonical
    /// ascending order; an element already present (one comparing equal)
    /// leaves the collection unchanged.
    pub fn insert(&mut self, x: AstItem)
        ensures
            final(self)@ == set_insert(old(self)@, x@),
            sorted_elems(old(self)@) ==> sorted_elems(final(self)@),
    {
        let ghost gs = seq_view(self.0@);
        let idx = elem_scan(&self.0, &x);
        proof {
            lemma_set_insert_at(gs, x@, idx as int);
            if sorted_elems(gs) {
                lemma_set_insert_sorted(gs, x@);
            }
        }
        if idx < self.0.len() {
            let c = cmp_ast(&x, &self.0[idx]);
            if c == 0 {
                return ;
            }
        }
        let ghost gx = x@;
        self.0.insert(idx, x);
        proof {
            assert(seq_view(self.0@) =~= gs.take(idx as int) + seq![gx] + gs.skip(idx as int));
        }
    }
}

impl ItemMap {
    /// An empty mapping.
    pub fn new() -> (m: ItemMap)
        ensures
            m@ == Seq::<(AstView, AstView)>::empty(),
    {
        ItemMap(Vec::new())
    }

    /// Puts one entry into the mapping at its key's place in the canonical
    /// ascending key order; an entry whose key is already present replaces
    /// that key's value.
    pub fn insert(&mut self, key: AstItem, value: AstItem)
        ensures
            final(self)@ == map_insert(old(self)@, key@, value@),
            sorted_keys(old(self)@) ==> sorted_keys(final(self)@),
    {
        let ghost gp = pairs_view(self.0@);
        let ghost gk = key@;
        let ghost gv = value@;
        let idx = key_scan(&self.0, &key);
        proof {
            lemma_map_insert_at(gp, gk, gv, idx as int);
            if sorted_keys(gp) {
                lemma_map_insert_sorted(gp, gk, gv);
            }
        }
        if idx < self.0.len() {
            let c = cmp_ast(&key, &self.0[idx].0);
            if c == 0 {
                let _ = self.0.remove(idx);
                self.0.insert(idx, (key, value));
                proof {
                    assert(pairs_view(self.0@) =~= gp.take(idx as int) + seq![(gk, gv)] + gp.skip(
                        idx as int + 1,
                    ));
                }
                return ;
            }
        }
        self.0.insert(idx, (key, value));
        proof {
            assert(pairs_view(self.0@) =~= gp.take(idx as int) + seq![(gk, gv)] + gp.skip(
                idx as int,
            ));
        }
    }
}

impl ItemStruct {
    /// A struct of the given type name with no fields yet.
    pub fn new(name: String) -> (s: ItemStruct)
        ensures
            s@.0 == name@,
            s@.1 == Seq::<(Seq<char>, AstView)>::empty(),
    {
        ItemStruct(name, Vec::new())
    }

    /// Puts one field into the struct at its name's place in the canonical
    /// ascending name order; a field whose name is already present replaces
    /// that name's value.
    pub fn insert_field(&mut self, name: String, value: AstItem)
        ensures
            final(self)@.0 == old(self)@.0,
            final(self)@.1 == fields_insert(old(self)@.1, name@, value@),
            sorted_names(old(self)@.1) ==> sorted_names(final(self)@.1),
    {
        let ghost gf = fields_view(self.1@);
        let ghost gn = name@;
        let ghost gv = value@;
        let idx = name_scan(&self.1, name.as_str());
        proof {
            lemma_fields_insert_at(gf, gn, gv, idx as int);
            if sorted_names(gf) {
                lemma_fields_insert_sorted(gf, gn, gv);
            }
        }
        if idx < self.1.len() {
            let c = cmp_str(name.as_str(), self.1[idx].0.as_str());
            if c == 0 {
                let _ = self.1.remove(idx);
                self.1.insert(idx, (name, value));
                proof {
                    assert(fields_view(self.1@) =~= gf.take(idx as int) + seq![(gn, gv)] + gf.skip(
                        idx as int + 1,
                    ));
                }
                return ;
            }
        }
        self.1.insert(idx, (name, value));
        proof {
            assert(fields_view(self.1@) =~= gf.take(idx as int) + seq![(gn, gv)] + gf.skip(
                idx as int,
            ));
        }
    }
}

impl Clone for ItemUnitStruct {
    /// The copy is an identifier with the same model.
    fn clone(&self) -> (res: Self)
        ensures
            res@ == self@,
    {
        ItemUnitStruct(self.0.clone())
    }
}

} // verus!
