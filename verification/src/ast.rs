pub use self::language::ItemList;
pub use self::language::ItemMap;
pub use self::language::ItemOption;
pub use self::language::ItemSet;
pub use self::language::ItemStruct;
pub use self::language::ItemTuple;
pub use self::language::ItemTupleStruct;
pub use self::language::ItemUnitStruct;
pub use self::primitives::ValueBool;
pub use self::primitives::ValueNum;
pub use self::primitives::ValueStr;
use vstd::prelude::*;

mod language;
mod primitives;

verus! {

/// One parsed tree: a closed sum type of exactly eleven variants, immutable
/// once constructed.
#[derive(Debug, Eq, Hash, PartialEq, PartialOrd, Ord)]
pub enum AstItem {
    ItemList(ItemList),
    ItemMap(ItemMap),
    ItemOption(ItemOption),
    ItemSet(ItemSet),
    ItemStruct(ItemStruct),
    ItemTuple(ItemTuple),
    ItemTupleStruct(ItemTupleStruct),
    ItemUnitStruct(ItemUnitStruct),
    ValueBool(ValueBool),
    ValueNum(ValueNum),
    ValueStr(ValueStr),
}

/// The mathematical model of a tree: the same sum type over `Seq` and plain
/// values. Every contract of this crate speaks about trees through this type.
#[verifier::ext_equal]
pub enum AstView {
    ItemList(Seq<AstView>),
    ItemMap(Seq<(AstView, AstView)>),
    ItemOption(Option<Box<AstView>>),
    ItemSet(Seq<AstView>),
    ItemStruct(Seq<char>, Seq<(Seq<char>, AstView)>),
    ItemTuple(Seq<AstView>),
    ItemTupleStruct(Seq<char>, Seq<AstView>),
    ItemUnitStruct(Seq<char>),
    ValueBool(bool),
    ValueNum(Seq<char>),
    ValueStr(Seq<char>),
}

/// The model of one tree value.
pub open spec fn ast_view(x: AstItem) -> AstView
    decreases x, 1int,
{
    match x {
        AstItem::ItemList(l) => AstView::ItemList(seq_view(l.0@)),
        AstItem::ItemMap(m) => AstView::ItemMap(pairs_view(m.0@)),
        AstItem::ItemOption(o) => AstView::ItemOption(
            match o.0 {
                Option::Some(b) => Option::Some(Box::new(ast_view(*b))),
                Option::None => Option::None,
            },
        ),
        AstItem::ItemSet(s) => AstView::ItemSet(seq_view(s.0@)),
        AstItem::ItemStruct(s) => AstView::ItemStruct(s.0@, fields_view(s.1@)),
        AstItem::ItemTuple(t) => AstView::ItemTuple(seq_view(t.0@)),
        AstItem::ItemTupleStruct(t) => AstView::ItemTupleStruct(t.0@, seq_view(t.1@)),
        AstItem::ItemUnitStruct(u) => AstView::ItemUnitStruct(u.0@),
        AstItem::ValueBool(b) => AstView::ValueBool(b.0),
        AstItem::ValueNum(n) => AstView::ValueNum(n.0@),
        AstItem::ValueStr(s) => AstView::ValueStr(s.0@),
    }
}

/// The models of a sequence of tree values, element by element.
pub open spec fn seq_view(s: Seq<AstItem>) -> Seq<AstView>
    decreases s, 0int,
{
    if s.len() == 0 {
        Seq::empty()
    } else {
        seq_view(s.drop_last()).push(ast_view(s.last()))
    }
}

/// The models of a sequence of key-value entries, entry by entry.
pub open spec fn pairs_view(s: Seq<(AstItem, AstItem)>) -> Seq<(AstView, AstView)>
    decreases s, 0int,
{
    if s.len() == 0 {
        Seq::empty()
    } else {
        pairs_view(s.drop_last()).push((ast_view(s.last().0), ast_view(s.last().1)))
    }
}

/// The models of a sequence of named fields, field by field.
pub open spec fn fields_view(s: Seq<(String, AstItem)>) -> Seq<(Seq<char>, AstView)>
    decreases s, 0int,
{
    if s.len() == 0 {
        Seq::empty()
    } else {
        fields_view(s.drop_last()).push((s.last().0@, ast_view(s.last().1)))
    }
}

impl View for AstItem {
    type V = AstView;

    open spec fn view(&self) -> AstView {
        ast_view(*self)
    }
}

pub broadcast proof fn lemma_seq_view_len(s: Seq<AstItem>)
    ensures
        #[trigger] seq_view(s).len() == s.len(),
    decreases s.len(),
{
    if s.len() > 0 {
        lemma_seq_view_len(s.drop_last());
    }
}

pub broadcast proof fn lemma_seq_view_index(s: Seq<AstItem>, i: int)
    requires
        0 <= i < s.len(),
    ensures
        #[trigger] seq_view(s)[i] == ast_view(s[i]),
    decreases s.len(),
{
    lemma_seq_view_len(s.drop_last());
    if i < s.len() - 1 {
        lemma_seq_view_index(s.drop_last(), i);
    }
}

pub broadcast proof fn lemma_pairs_view_len(s: Seq<(AstItem, AstItem)>)
    ensures
        #[trigger] pairs_view(s).len() == s.len(),
    decreases s.len(),
{
    if s.len() > 0 {
        lemma_pairs_view_len(s.drop_last());
    }
}

pub broadcast proof fn lemma_pairs_view_index(s: Seq<(AstItem, AstItem)>, i: int)
    requires
        0 <= i < s.len(),
    ensures
        #[trigger] pairs_view(s)[i] == (ast_view(s[i].0), ast_view(s[i].1)),
    decreases s.len(),
{
    lemma_pairs_view_len(s.drop_last());
    if i < s.len() - 1 {
        lemma_pairs_view_index(s.drop_last(), i);
    }
}

pub broadcast proof fn lemma_fields_view_len(s: Seq<(String, AstItem)>)
    ensures
        #[trigger] fields_view(s).len() == s.len(),
    decreases s.len(),
{
    if s.len() > 0 {
        lemma_fields_view_len(s.drop_last());
    }
}

pub broadcast proof fn lemma_fields_view_index(s: Seq<(String, AstItem)>, i: int)
    requires
        0 <= i < s.len(),
    ensures
        #[trigger] fields_view(s)[i] == (s[i].0@, ast_view(s[i].1)),
    decreases s.len(),
{
    lemma_fields_view_len(s.drop_last());
    if i < s.len() - 1 {
        lemma_fields_view_index(s.drop_last(), i);
    }
}

/// Deep copy of a tree; the copy has the same model.
pub(crate) fn clone_ast(x: &AstItem) -> (r: AstItem)
    ensures
        r@ == x@,
    decreases *x, 1int,
{
    match x {
        AstItem::ItemList(l) => AstItem::ItemList(ItemList(clone_items(&l.0))),
        AstItem::ItemMap(m) => AstItem::ItemMap(ItemMap(clone_pairs(&m.0))),
        AstItem::ItemOption(o) => AstItem::ItemOption(
            ItemOption(
                match &o.0 {
                    Option::Some(b) => Option::Some(Box::new(clone_ast(b))),
                    Option::None => Option::None,
                },
            ),
        ),
        AstItem::ItemSet(s) => AstItem::ItemSet(ItemSet(clone_items(&s.0))),
        AstItem::ItemStruct(s) => AstItem::ItemStruct(ItemStruct(s.0.clone(), clone_fields(&s.1))),
        AstItem::ItemTuple(t) => AstItem::ItemTuple(ItemTuple(clone_items(&t.0))),
        AstItem::ItemTupleStruct(t) => AstItem::ItemTupleStruct(
            ItemTupleStruct(t.0.clone(), clone_items(&t.1)),
        ),
        AstItem::ItemUnitStruct(u) => AstItem::ItemUnitStruct(ItemUnitStruct(u.0.clone())),
        AstItem::ValueBool(b) => AstItem::ValueBool(ValueBool(b.0)),
        AstItem::ValueNum(n) => AstItem::ValueNum(ValueNum(n.0.clone())),
        AstItem::ValueStr(s) => AstItem::ValueStr(ValueStr(s.0.clone())),
    }
}

/// Deep copy of a vector of trees, element by element.
pub(crate) fn clone_items(v: &Vec<AstItem>) -> (r: Vec<AstItem>)
    ensures
        seq_view(r@) == seq_view(v@),
    decreases v@, 0int,
{
    let mut out: Vec<AstItem> = Vec::new();
    let mut i: usize = 0;
    while i < v.len()
        invariant
            i <= v.len(),
            out@.len() == i,
            forall|k: int| 0 <= k < i ==> ast_view(out@[k]) == ast_view(v@[k]),
        decreases v.len() - i,
    {
        out.push(clone_ast(&v[i]));
        i = i + 1;
    }
    proof {
        lemma_seq_view_len(out@);
        lemma_seq_view_len(v@);
        assert forall|k: int| 0 <= k < v@.len() implies seq_view(out@)[k] == seq_view(v@)[k] by {
            lemma_seq_view_index(out@, k);
            lemma_seq_view_index(v@, k);
        }
        assert(seq_view(out@) =~= seq_view(v@));
    }
    out
}

/// Deep copy of a vector of key-value entries, entry by entry.
pub(crate) fn clone_pairs(v: &Vec<(AstItem, AstItem)>) -> (r: Vec<(AstItem, AstItem)>)
    ensures
        pairs_view(r@) == pairs_view(v@),
    decreases v@, 0int,
{
    let mut out: Vec<(AstItem, AstItem)> = Vec::new();
    let mut i: usize = 0;
    while i < v.len()
        invariant
            i <= v.len(),
            out@.len() == i,
            forall|k: int|
                0 <= k < i ==> ast_view(#[trigger] out@[k].0) == ast_view(v@[k].0) && ast_view(
                    out@[k].1,
                ) == ast_view(v@[k].1),
        decreases v.len() - i,
    {
        let entry = &v[i];
        out.push((clone_ast(&entry.0), clone_ast(&entry.1)));
        i = i + 1;
    }
    proof {
        lemma_pairs_view_len(out@);
        lemma_pairs_view_len(v@);
        assert forall|k: int| 0 <= k < v@.len() implies pairs_view(out@)[k] == pairs_view(v@)[k] by {
            lemma_pairs_view_index(out@, k);
            lemma_pairs_view_index(v@, k);
        }
        assert(pairs_view(out@) =~= pairs_view(v@));
    }
    out
}

/// Deep copy of a vector of named fields, field by field.
pub(crate) fn clone_fields(v: &Vec<(String, AstItem)>) -> (r: Vec<(String, AstItem)>)
    ensures
        fields_view(r@) == fields_view(v@),
    decreases v@, 0int,
{
    let mut out: Vec<(String, AstItem)> = Vec::new();
    let mut i: usize = 0;
    while i < v.len()
        invariant
            i <= v.len(),
            out@.len() == i,
            forall|k: int|
                0 <= k < i ==> (#[trigger] out@[k].0)@ == v@[k].0@ && ast_view(out@[k].1)
                    == ast_view(v@[k].1),
        decreases v.len() - i,
    {
        let entry = &v[i];
        out.push((entry.0.clone(), clone_ast(&entry.1)));
        i = i + 1;
    }
    proof {
        lemma_fields_view_len(out@);
        lemma_fields_view_len(v@);
        assert forall|k: int|
            0 <= k < v@.len() implies fields_view(out@)[k] == fields_view(v@)[k] by {
            lemma_fields_view_index(out@, k);
            lemma_fields_view_index(v@, k);
        }
        assert(fields_view(out@) =~= fields_view(v@));
    }
    out
}

impl Clone for AstItem {
    /// The copy is a tree with the same model.
    fn clone(&self) -> (res: Self)
        ensures
            res@ == self@,
    {
        clone_ast(self)
    }
}

impl From<ItemList> for AstItem {
    fn from(value: ItemList) -> Self {
        AstItem::ItemList(value)
    }
}

impl vstd::std_specs::convert::FromSpecImpl<ItemList> for AstItem {
    open spec fn obeys_from_spec() -> bool {
        true
    }

    open spec fn from_spec(v: ItemList) -> AstItem {
        AstItem::ItemList(v)
    }
}

impl From<ItemMap> for AstItem {
    fn from(value: ItemMap) -> Self {
        AstItem::ItemMap(value)
    }
}

impl vstd::std_specs::convert::FromSpecImpl<ItemMap> for AstItem {
    open spec fn obeys_from_spec() -> bool {
        true
    }

    open spec fn from_spec(v: ItemMap) -> AstItem {
        AstItem::ItemMap(v)
    }
}

impl From<ItemOption> for AstItem {
    fn from(value: ItemOption) -> Self {
        AstItem::ItemOption(value)
    }
}

impl vstd::std_specs::convert::FromSpecImpl<ItemOption> for AstItem {
    open spec fn obeys_from_spec() -> bool {
        true
    }

    open spec fn from_spec(v: ItemOption) -> AstItem {
        AstItem::ItemOption(v)
    }
}

impl From<ItemSet> for AstItem {
    fn from(value: ItemSet) -> Self {
        AstItem::ItemSet(value)
    }
}

impl vstd::std_specs::convert::FromSpecImpl<ItemSet> for AstItem {
    open spec fn obeys_from_spec() -> bool {
        true
    }

    open spec fn from_spec(v: ItemSet) -> AstItem {
        AstItem::ItemSet(v)
    }
}

impl From<ItemStruct> for AstItem {
    fn from(value: ItemStruct) -> Self {
        AstItem::ItemStruct(value)
    }
}

impl vstd::std_specs::convert::FromSpecImpl<ItemStruct> for AstItem {
    open spec fn obeys_from_spec() -> bool {
        true
    }

    open spec fn from_spec(v: ItemStruct) -> AstItem {
        AstItem::ItemStruct(v)
    }
}

impl From<ItemTuple> for AstItem {
    fn from(value: ItemTuple) -> Self {
        AstItem::ItemTuple(value)
    }
}

impl vstd::std_specs::convert::FromSpecImpl<ItemTuple> for AstItem {
    open spec fn obeys_from_spec() -> bool {
        true
    }

    open spec fn from_spec(v: ItemTuple) -> AstItem {
        AstItem::ItemTuple(v)
    }
}

impl From<ItemTupleStruct> for AstItem {
    fn from(value: ItemTupleStruct) -> Self {
        AstItem::ItemTupleStruct(value)
    }
}

impl vstd::std_specs::convert::FromSpecImpl<ItemTupleStruct> for AstItem {
    open spec fn obeys_from_spec() -> bool {
        true
    }

    open spec fn from_spec(v: ItemTupleStruct) -> AstItem {
        AstItem::ItemTupleStruct(v)
    }
}

impl From<ItemUnitStruct> for AstItem {
    fn from(value: ItemUnitStruct) -> Self {
        AstItem::ItemUnitStruct(value)
    }
}

impl vstd::std_specs::convert::FromSpecImpl<ItemUnitStruct> for AstItem {
    open spec fn obeys_from_spec() -> bool {
        true
    }

    open spec fn from_spec(v: ItemUnitStruct) -> AstItem {
        AstItem::ItemUnitStruct(v)
    }
}

impl From<ValueBool> for AstItem {
    fn from(value: ValueBool) -> Self {
        AstItem::ValueBool(value)
    }
}

impl vstd::std_specs::convert::FromSpecImpl<ValueBool> for AstItem {
    open spec fn obeys_from_spec() -> bool {
        true
    }

    open spec fn from_spec(v: ValueBool) -> AstItem {
        AstItem::ValueBool(v)
    }
}

impl From<ValueNum> for AstItem {
    fn from(value: ValueNum) -> Self {
        AstItem::ValueNum(value)
    }
}

impl vstd::std_specs::convert::FromSpecImpl<ValueNum> for AstItem {
    open spec fn obeys_from_spec() -> bool {
        true
    }

    open spec fn from_spec(v: ValueNum) -> AstItem {
        AstItem::ValueNum(v)
    }
}

impl From<ValueStr> for AstItem {
    fn from(value: ValueStr) -> Self {
        AstItem::ValueStr(value)
    }
}

impl vstd::std_specs::convert::FromSpecImpl<ValueStr> for AstItem {
    open spec fn obeys_from_spec() -> bool {
        true
    }

    open spec fn from_spec(v: ValueStr) -> AstItem {
        AstItem::ValueStr(v)
    }
}

} // verus!
