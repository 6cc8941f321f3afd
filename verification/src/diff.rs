use crate::ast::ast_view;
use crate::ast::fields_view;
use crate::ast::pairs_view;
use crate::ast::seq_view;
use crate::ast::AstItem;
use crate::ast::AstView;
use crate::ast::ItemList;
use crate::ast::ItemMap;
use crate::ast::ItemOption;
use crate::ast::ItemSet;
use crate::ast::ItemStruct;
use crate::ast::ItemTuple;
use crate::ast::ItemTupleStruct;
use crate::ast::ItemUnitStruct;
use crate::ast::ValueBool;
use crate::ast::ValueNum;
use crate::ast::ValueStr;
use crate::order::cmp_ast;
use crate::order::cmp_str;
use crate::order::lemma_chars_cmp_zero;
use crate::order::node_cmp;
use vstd::prelude::*;

pub mod laws;

verus! {

broadcast use
    crate::ast::lemma_seq_view_len,
    crate::ast::lemma_seq_view_index,
    crate::ast::lemma_pairs_view_len,
    crate::ast::lemma_pairs_view_index,
    crate::ast::lemma_fields_view_len,
    crate::ast::lemma_fields_view_index,
;

/// One reported difference: the path at which it occurs, and what differs
/// there. Records hold copies of the leaves they mention, so they outlive
/// the compared trees.
#[derive(Debug, Eq, Hash, PartialEq)]
pub struct DiffItem {
    pub path: DiffPath,
    pub diff: DiffPayload,
}

/// One step of a path into a nested tree: a struct field, a positional index
/// on both sides, or a map key.
#[derive(Debug, Eq, Hash, PartialEq)]
pub enum DiffPathSegment {
    Field(String),
    Index(usize, usize),
    Key(AstItem),
}

/// A path from the root of both trees to the place where a difference lies.
pub type DiffPath = Vec<DiffPathSegment>;

/// What differs at the reported path: a whole-subtree variant mismatch, a
/// shape mismatch of a fixed-shape aggregate, a leaf mismatch, or an element
/// or entry present on one side only.
#[derive(Debug, Eq, Hash, PartialEq)]
pub enum DiffPayload {
    AstItem(AstItem, AstItem),
    ItemStruct(ItemStruct, ItemStruct),
    ItemTuple(ItemTuple, ItemTuple),
    ItemTupleStruct(ItemTupleStruct, ItemTupleStruct),
    ItemUnitStruct(ItemUnitStruct, ItemUnitStruct),
    ValueBool(ValueBool, ValueBool),
    ValueNum(ValueNum, ValueNum),
    ValueStr(ValueStr, ValueStr),
    /// An element of a list, set or optional slot that only the left side
    /// has, reported at the merge step at which it was seen.
    RemovedAt(usize, AstItem),
    /// An element of a list, set or optional slot that only the right side
    /// has, reported at the merge step at which it was seen.
    InsertedAt(usize, AstItem),
    /// A map entry that only the left side has: its key and its value.
    RemovedPair(AstItem, AstItem),
    /// A map entry that only the right side has: its key and its value.
    InsertedPair(AstItem, AstItem),
}

/// The model of one path step.
#[verifier::ext_equal]
pub enum PathSegView {
    Field(Seq<char>),
    Index(int, int),
    Key(AstView),
}

impl View for DiffPathSegment {
    type V = PathSegView;

    open spec fn view(&self) -> PathSegView {
        match self {
            DiffPathSegment::Field(s) => PathSegView::Field(s@),
            DiffPathSegment::Index(i, j) => PathSegView::Index(*i as int, *j as int),
            DiffPathSegment::Key(k) => PathSegView::Key(ast_view(*k)),
        }
    }
}

/// The model of one payload.
#[verifier::ext_equal]
pub enum DiffPayloadView {
    AstItem(AstView, AstView),
    ItemStruct((Seq<char>, Seq<(Seq<char>, AstView)>), (Seq<char>, Seq<(Seq<char>, AstView)>)),
    ItemTuple(Seq<AstView>, Seq<AstView>),
    ItemTupleStruct((Seq<char>, Seq<AstView>), (Seq<char>, Seq<AstView>)),
    ItemUnitStruct(Seq<char>, Seq<char>),
    ValueBool(bool, bool),
    ValueNum(Seq<char>, Seq<char>),
    ValueStr(Seq<char>, Seq<char>),
    RemovedAt(int, AstView),
    InsertedAt(int, AstView),
    RemovedPair(AstView, AstView),
    InsertedPair(AstView, AstView),
}

impl View for DiffPayload {
    type V = DiffPayloadView;

    open spec fn view(&self) -> DiffPayloadView {
        match self {
            DiffPayload::AstItem(l, r) => DiffPayloadView::AstItem(ast_view(*l), ast_view(*r)),
            DiffPayload::ItemStruct(l, r) => DiffPayloadView::ItemStruct(l@, r@),
            DiffPayload::ItemTuple(l, r) => DiffPayloadView::ItemTuple(l@, r@),
            DiffPayload::ItemTupleStruct(l, r) => DiffPayloadView::ItemTupleStruct(l@, r@),
            DiffPayload::ItemUnitStruct(l, r) => DiffPayloadView::ItemUnitStruct(l@, r@),
            DiffPayload::ValueBool(l, r) => DiffPayloadView::ValueBool(l@, r@),
            DiffPayload::ValueNum(l, r) => DiffPayloadView::ValueNum(l@, r@),
            DiffPayload::ValueStr(l, r) => DiffPayloadView::ValueStr(l@, r@),
            DiffPayload::RemovedAt(i, v) => DiffPayloadView::RemovedAt(*i as int, ast_view(*v)),
            DiffPayload::InsertedAt(i, v) => DiffPayloadView::InsertedAt(*i as int, ast_view(*v)),
            DiffPayload::RemovedPair(k, v) => DiffPayloadView::RemovedPair(
                ast_view(*k),
                ast_view(*v),
            ),
            DiffPayload::InsertedPair(k, v) => DiffPayloadView::InsertedPair(
                ast_view(*k),
                ast_view(*v),
            ),
        }
    }
}

/// The model of one difference record.
#[verifier::ext_equal]
pub struct DiffItemView {
    pub path: Seq<PathSegView>,
    pub diff: DiffPayloadView,
}

/// The models of a path, step by step.
pub open spec fn path_view(s: Seq<DiffPathSegment>) -> Seq<PathSegView> {
    s.map_values(|seg: DiffPathSegment| seg@)
}

impl View for DiffItem {
    type V = DiffItemView;

    open spec fn view(&self) -> DiffItemView {
        DiffItemView { path: path_view(self.path@), diff: self.diff@ }
    }
}

/// The models of a sequence of difference records.
pub open spec fn records_view(s: Seq<DiffItem>) -> Seq<DiffItemView> {
    s.map_values(|d: DiffItem| d@)
}

pub broadcast proof fn lemma_records_view_push(s: Seq<DiffItem>, d: DiffItem)
    ensures
        #[trigger] records_view(s.push(d)) == records_view(s) + seq![d@],
{
    assert(records_view(s.push(d)) =~= records_view(s) + seq![d@]);
}

pub broadcast proof fn lemma_path_view_push(s: Seq<DiffPathSegment>, seg: DiffPathSegment)
    ensures
        #[trigger] path_view(s.push(seg)) == path_view(s).push(seg@),
{
    assert(path_view(s.push(seg)) =~= path_view(s).push(seg@));
}

/// The differences the engine reports between two trees at a given path.
/// Trees of different variants yield one whole-subtree mismatch record;
/// trees of the same variant are compared by that variant's rule.
pub open spec fn spec_diff(a: AstView, b: AstView, path: Seq<PathSegView>) -> Seq<DiffItemView>
    decreases a, b, 1int,
{
    match (a, b) {
        (AstView::ItemList(x), AstView::ItemList(y)) => spec_diff_walk(x, y, path, 0, false),
        (AstView::ItemMap(x), AstView::ItemMap(y)) => spec_diff_map(x, y, path),
        (AstView::ItemOption(x), AstView::ItemOption(y)) => spec_diff_option(x, y, path),
        (AstView::ItemSet(x), AstView::ItemSet(y)) => spec_diff_walk(x, y, path, 0, true),
        (AstView::ItemStruct(nx, fx), AstView::ItemStruct(ny, fy)) => spec_diff_struct(
            nx,
            fx,
            ny,
            fy,
            path,
        ),
        (AstView::ItemTuple(x), AstView::ItemTuple(y)) => spec_diff_tuple(x, y, path),
        (AstView::ItemTupleStruct(nx, ex), AstView::ItemTupleStruct(ny, ey)) => spec_diff_tuple_struct(
            nx,
            ex,
            ny,
            ey,
            path,
        ),
        (AstView::ItemUnitStruct(x), AstView::ItemUnitStruct(y)) => spec_diff_unit(x, y, path),
        (AstView::ValueBool(x), AstView::ValueBool(y)) => spec_diff_bool(x, y, path),
        (AstView::ValueNum(x), AstView::ValueNum(y)) => spec_diff_num(x, y, path),
        (AstView::ValueStr(x), AstView::ValueStr(y)) => spec_diff_str(x, y, path),
        _ => seq![(DiffItemView { path, diff: DiffPayloadView::AstItem(a, b) })],
    }
}

/// The payload reported for an element that only the right side has: sets
/// report it as an insertion; lists keep their documented behaviour of
/// reporting every one-sided element as a removal. The flag is the single
/// policy point that selects between the two labellings.
pub open spec fn right_only_payload(count: int, v: AstView, right_is_insertion: bool) -> DiffPayloadView {
    if right_is_insertion {
        DiffPayloadView::InsertedAt(count, v)
    } else {
        DiffPayloadView::RemovedAt(count, v)
    }
}

/// The two-cursor merge walk over two element sequences, which are expected
/// (but not checked) to be sorted ascending under the total order. Equal
/// heads advance both cursors and report nothing; otherwise the smaller head
/// is reported as present on one side only and its cursor advances. The
/// merge-step counter advances once per step, whichever side moved.
pub open spec fn spec_diff_walk(
    l: Seq<AstView>,
    r: Seq<AstView>,
    path: Seq<PathSegView>,
    count: int,
    right_is_insertion: bool,
) -> Seq<DiffItemView>
    decreases l, r, 0int,
{
    if l.len() == 0 && r.len() == 0 {
        Seq::empty()
    } else if r.len() == 0 {
        seq![(DiffItemView { path, diff: DiffPayloadView::RemovedAt(count, l[0]) })]
            + spec_diff_walk(l.drop_first(), r, path, count + 1, right_is_insertion)
    } else if l.len() == 0 {
        seq![(DiffItemView { path, diff: right_only_payload(count, r[0], right_is_insertion) })]
            + spec_diff_walk(l, r.drop_first(), path, count + 1, right_is_insertion)
    } else {
        let c = node_cmp(l[0], r[0]);
        if c == 0 {
            spec_diff_walk(l.drop_first(), r.drop_first(), path, count + 1, right_is_insertion)
        } else if c < 0 {
            seq![(DiffItemView { path, diff: DiffPayloadView::RemovedAt(count, l[0]) })]
                + spec_diff_walk(l.drop_first(), r, path, count + 1, right_is_insertion)
        } else {
            seq![(DiffItemView { path, diff: right_only_payload(count, r[0], right_is_insertion) })]
                + spec_diff_walk(l, r.drop_first(), path, count + 1, right_is_insertion)
        }
    }
}

/// The merge walk over two entry sequences, keyed by each entry's key under
/// the total order: on equal keys the two values are compared under a key
/// path step; an entry whose key only one side has is reported whole, as a
/// key-value pair.
pub open spec fn spec_diff_map(
    l: Seq<(AstView, AstView)>,
    r: Seq<(AstView, AstView)>,
    path: Seq<PathSegView>,
) -> Seq<DiffItemView>
    decreases l, r, 0int,
{
    if l.len() == 0 && r.len() == 0 {
        Seq::empty()
    } else if r.len() == 0 {
        seq![(DiffItemView { path, diff: DiffPayloadView::RemovedPair(l[0].0, l[0].1) })]
            + spec_diff_map(l.drop_first(), r, path)
    } else if l.len() == 0 {
        seq![(DiffItemView { path, diff: DiffPayloadView::InsertedPair(r[0].0, r[0].1) })]
            + spec_diff_map(l, r.drop_first(), path)
    } else {
        let c = node_cmp(l[0].0, r[0].0);
        if c == 0 {
            spec_diff(l[0].1, r[0].1, path.push(PathSegView::Key(l[0].0))) + spec_diff_map(
                l.drop_first(),
                r.drop_first(),
                path,
            )
        } else if c < 0 {
            seq![(DiffItemView { path, diff: DiffPayloadView::RemovedPair(l[0].0, l[0].1) })]
                + spec_diff_map(l.drop_first(), r, path)
        } else {
            seq![(DiffItemView { path, diff: DiffPayloadView::InsertedPair(r[0].0, r[0].1) })]
                + spec_diff_map(l, r.drop_first(), path)
        }
    }
}

/// Two optional slots: both empty is no difference, both filled compares
/// the contents at the same path, and a slot filled on one side only is one
/// removal or insertion at position zero.
pub open spec fn spec_diff_option(
    l: Option<Box<AstView>>,
    r: Option<Box<AstView>>,
    path: Seq<PathSegView>,
) -> Seq<DiffItemView>
    decreases l, r, 0int,
{
    match (l, r) {
        (Option::Some(x), Option::Some(y)) => spec_diff(*x, *y, path),
        (Option::Some(x), Option::None) => seq![
            (DiffItemView { path, diff: DiffPayloadView::RemovedAt(0, *x) }),
        ],
        (Option::None, Option::Some(y)) => seq![
            (DiffItemView { path, diff: DiffPayloadView::InsertedAt(0, *y) }),
        ],
        (Option::None, Option::None) => Seq::empty(),
    }
}

/// Whether two structs clash in shape: the type name differs, or a field
/// name differs at some ordinal position that both field sequences have.
/// Positions beyond the shorter sequence are not examined, so a struct whose
/// field sequence extends the other's does not clash.
pub open spec fn struct_shape_clash(
    ln: Seq<char>,
    lf: Seq<(Seq<char>, AstView)>,
    rn: Seq<char>,
    rf: Seq<(Seq<char>, AstView)>,
) -> bool {
    ln != rn || exists|i: int| 0 <= i < lf.len() && i < rf.len() && lf[i].0 != rf[i].0
}

/// Two structs: a shape clash is one record carrying both structs whole;
/// otherwise the paired fields are compared one by one.
pub open spec fn spec_diff_struct(
    ln: Seq<char>,
    lf: Seq<(Seq<char>, AstView)>,
    rn: Seq<char>,
    rf: Seq<(Seq<char>, AstView)>,
    path: Seq<PathSegView>,
) -> Seq<DiffItemView>
    decreases lf, rf, 1int,
{
    if struct_shape_clash(ln, lf, rn, rf) {
        seq![(DiffItemView { path, diff: DiffPayloadView::ItemStruct((ln, lf), (rn, rf)) })]
    } else {
        spec_diff_fields(lf, rf, path)
    }
}

/// Field-by-field comparison by ordinal position, paired up to the shorter
/// field sequence, each pair under a field-name path step taken from the
/// left side.
pub open spec fn spec_diff_fields(
    lf: Seq<(Seq<char>, AstView)>,
    rf: Seq<(Seq<char>, AstView)>,
    path: Seq<PathSegView>,
) -> Seq<DiffItemView>
    decreases lf, rf, 0int,
{
    if lf.len() == 0 || rf.len() == 0 {
        Seq::empty()
    } else {
        spec_diff(lf[0].1, rf[0].1, path.push(PathSegView::Field(lf[0].0))) + spec_diff_fields(
            lf.drop_first(),
            rf.drop_first(),
            path,
        )
    }
}

/// Two tuples: unequal arity is one record carrying both tuples whole;
/// otherwise the elements are compared index by index.
pub open spec fn spec_diff_tuple(
    l: Seq<AstView>,
    r: Seq<AstView>,
    path: Seq<PathSegView>,
) -> Seq<DiffItemView>
    decreases l, r, 1int,
{
    if l.len() != r.len() {
        seq![(DiffItemView { path, diff: DiffPayloadView::ItemTuple(l, r) })]
    } else {
        spec_diff_elems(l, r, path, 0)
    }
}

/// Two tuple structs: a differing name or unequal arity is one record
/// carrying both whole; otherwise the elements are compared index by index.
pub open spec fn spec_diff_tuple_struct(
    ln: Seq<char>,
    le: Seq<AstView>,
    rn: Seq<char>,
    re: Seq<AstView>,
    path: Seq<PathSegView>,
) -> Seq<DiffItemView>
    decreases le, re, 1int,
{
    if ln != rn || le.len() != re.len() {
        seq![(DiffItemView { path, diff: DiffPayloadView::ItemTupleStruct((ln, le), (rn, re)) })]
    } else {
        spec_diff_elems(le, re, path, 0)
    }
}

/// Element-by-element comparison of two equally long sequences, each pair
/// under an index path step that is the same on both sides.
pub open spec fn spec_diff_elems(
    l: Seq<AstView>,
    r: Seq<AstView>,
    path: Seq<PathSegView>,
    idx: int,
) -> Seq<DiffItemView>
    decreases l, r, 0int,
{
    if l.len() == 0 || r.len() == 0 {
        Seq::empty()
    } else {
        spec_diff(l[0], r[0], path.push(PathSegView::Index(idx, idx))) + spec_diff_elems(
            l.drop_first(),
            r.drop_first(),
            path,
            idx + 1,
        )
    }
}

/// Two bare identifiers: equal names are no difference, unequal names one
/// shape-mismatch record.
pub open spec fn spec_diff_unit(x: Seq<char>, y: Seq<char>, path: Seq<PathSegView>) -> Seq<
    DiffItemView,
> {
    if x != y {
        seq![(DiffItemView { path, diff: DiffPayloadView::ItemUnitStruct(x, y) })]
    } else {
        Seq::empty()
    }
}

/// Two boolean leaves: equal is no difference, unequal one leaf-mismatch
/// record carrying both values.
pub open spec fn spec_diff_bool(x: bool, y: bool, path: Seq<PathSegView>) -> Seq<DiffItemView> {
    if x != y {
        seq![(DiffItemView { path, diff: DiffPayloadView::ValueBool(x, y) })]
    } else {
        Seq::empty()
    }
}

/// Two number leaves, compared as raw literal text.
pub open spec fn spec_diff_num(x: Seq<char>, y: Seq<char>, path: Seq<PathSegView>) -> Seq<
    DiffItemView,
> {
    if x != y {
        seq![(DiffItemView { path, diff: DiffPayloadView::ValueNum(x, y) })]
    } else {
        Seq::empty()
    }
}

/// Two string leaves, compared by their unescaped content.
pub open spec fn spec_diff_str(x: Seq<char>, y: Seq<char>, path: Seq<PathSegView>) -> Seq<
    DiffItemView,
> {
    if x != y {
        seq![(DiffItemView { path, diff: DiffPayloadView::ValueStr(x, y) })]
    } else {
        Seq::empty()
    }
}

impl Clone for DiffPathSegment {
    /// The copy is a path step with the same model.
    fn clone(&self) -> (res: Self)
        ensures
            res@ == self@,
    {
        match self {
            DiffPathSegment::Field(s) => DiffPathSegment::Field(s.clone()),
            DiffPathSegment::Index(i, j) => DiffPathSegment::Index(*i, *j),
            DiffPathSegment::Key(k) => DiffPathSegment::Key(k.clone()),
        }
    }
}

impl Clone for DiffPayload {
    /// The copy is a payload with the same model.
    fn clone(&self) -> (res: Self)
        ensures
            res@ == self@,
    {
        match self {
            DiffPayload::AstItem(l, r) => DiffPayload::AstItem(l.clone(), r.clone()),
            DiffPayload::ItemStruct(l, r) => DiffPayload::ItemStruct(l.clone(), r.clone()),
            DiffPayload::ItemTuple(l, r) => DiffPayload::ItemTuple(l.clone(), r.clone()),
            DiffPayload::ItemTupleStruct(l, r) => DiffPayload::ItemTupleStruct(
                l.clone(),
                r.clone(),
            ),
            DiffPayload::ItemUnitStruct(l, r) => DiffPayload::ItemUnitStruct(l.clone(), r.clone()),
            DiffPayload::ValueBool(l, r) => DiffPayload::ValueBool(l.clone(), r.clone()),
            DiffPayload::ValueNum(l, r) => DiffPayload::ValueNum(l.clone(), r.clone()),
            DiffPayload::ValueStr(l, r) => DiffPayload::ValueStr(l.clone(), r.clone()),
            DiffPayload::RemovedAt(i, v) => DiffPayload::RemovedAt(*i, v.clone()),
            DiffPayload::InsertedAt(i, v) => DiffPayload::InsertedAt(*i, v.clone()),
            DiffPayload::RemovedPair(k, v) => DiffPayload::RemovedPair(k.clone(), v.clone()),
            DiffPayload::InsertedPair(k, v) => DiffPayload::InsertedPair(k.clone(), v.clone()),
        }
    }
}

/// Copy of a path; the copy has the same model, step by step.
fn clone_path(v: &Vec<DiffPathSegment>) -> (r: Vec<DiffPathSegment>)
    ensures
        path_view(r@) == path_view(v@),
{
    let mut out: Vec<DiffPathSegment> = Vec::new();
    let mut i: usize = 0;
    while i < v.len()
        invariant
            i <= v.len(),
            out@.len() == i,
            forall|k: int| 0 <= k < i ==> (#[trigger] out@[k])@ == v@[k]@,
        decreases v.len() - i,
    {
        out.push(v[i].clone());
        i = i + 1;
    }
    proof {
        assert(path_view(out@) =~= path_view(v@));
    }
    out
}

impl Clone for DiffItem {
    /// The copy is a record with the same model.
    fn clone(&self) -> (res: Self)
        ensures
            res@ == self@,
    {
        DiffItem { path: clone_path(&self.path), diff: self.diff.clone() }
    }
}

/// Machine-limit side condition on a pair of trees: every pair of element
/// sequences that the merge walk steps through together is short enough for
/// the merge-step counter to fit in `usize`. Any pair of trees that fits in
/// memory satisfies it; the bound concerns the counter's type, not the
/// algorithm.
pub open spec fn fits(a: AstView, b: AstView) -> bool
    decreases a, b, 1int,
{
    match (a, b) {
        (AstView::ItemList(x), AstView::ItemList(y)) => x.len() + y.len() <= usize::MAX,
        (AstView::ItemMap(x), AstView::ItemMap(y)) => fits_pairs(x, y),
        (AstView::ItemOption(x), AstView::ItemOption(y)) => fits_option(x, y),
        (AstView::ItemSet(x), AstView::ItemSet(y)) => x.len() + y.len() <= usize::MAX,
        (AstView::ItemStruct(nx, fx), AstView::ItemStruct(ny, fy)) => !struct_shape_clash(
            nx,
            fx,
            ny,
            fy,
        ) ==> fits_fields(fx, fy),
        (AstView::ItemTuple(x), AstView::ItemTuple(y)) => x.len() == y.len() ==> fits_elems(x, y),
        (AstView::ItemTupleStruct(nx, ex), AstView::ItemTupleStruct(ny, ey)) => (nx == ny
            && ex.len() == ey.len()) ==> fits_elems(ex, ey),
        _ => true,
    }
}

/// The machine-limit side condition along the merge walk of two entry
/// sequences: it must hold of the two values wherever the walk compares
/// them.
pub open spec fn fits_pairs(l: Seq<(AstView, AstView)>, r: Seq<(AstView, AstView)>) -> bool
    decreases l, r, 0int,
{
    if l.len() == 0 || r.len() == 0 {
        true
    } else {
        let c = node_cmp(l[0].0, r[0].0);
        if c == 0 {
            fits(l[0].1, r[0].1) && fits_pairs(l.drop_first(), r.drop_first())
        } else if c < 0 {
            fits_pairs(l.drop_first(), r)
        } else {
            fits_pairs(l, r.drop_first())
        }
    }
}

/// The machine-limit side condition for two optional slots: it must hold of
/// the two contents when both slots are filled.
pub open spec fn fits_option(l: Option<Box<AstView>>, r: Option<Box<AstView>>) -> bool
    decreases l, r, 0int,
{
    match (l, r) {
        (Option::Some(x), Option::Some(y)) => fits(*x, *y),
        _ => true,
    }
}

/// The machine-limit side condition for paired struct fields.
pub open spec fn fits_fields(
    lf: Seq<(Seq<char>, AstView)>,
    rf: Seq<(Seq<char>, AstView)>,
) -> bool
    decreases lf, rf, 0int,
{
    if lf.len() == 0 || rf.len() == 0 {
        true
    } else {
        fits(lf[0].1, rf[0].1) && fits_fields(lf.drop_first(), rf.drop_first())
    }
}

/// The machine-limit side condition for paired tuple elements.
pub open spec fn fits_elems(l: Seq<AstView>, r: Seq<AstView>) -> bool
    decreases l, r, 0int,
{
    if l.len() == 0 || r.len() == 0 {
        true
    } else {
        fits(l[0], r[0]) && fits_elems(l.drop_first(), r.drop_first())
    }
}

/// Compares two boolean leaves; a difference is one leaf-mismatch record at
/// the current path, carrying both values.
pub fn diff_value_bool(
    target: &mut Vec<DiffItem>,
    stack: &mut Vec<DiffPathSegment>,
    lhs: &ValueBool,
    rhs: &ValueBool,
)
    ensures
        final(stack)@ == old(stack)@,
        records_view(final(target)@) == records_view(old(target)@) + spec_diff_bool(
            lhs@,
            rhs@,
            path_view(old(stack)@),
        ),
{
    if lhs.0 != rhs.0 {
        let rec = DiffItem {
            path: clone_path(stack),
            diff: DiffPayload::ValueBool(lhs.clone(), rhs.clone()),
        };
        target.push(rec);
        proof {
            broadcast use lemma_records_view_push;

            assert(records_view(target@) =~= records_view(old(target)@) + spec_diff_bool(
                lhs@,
                rhs@,
                path_view(old(stack)@),
            ));
        }
    } else {
        proof {
            assert(records_view(target@) + spec_diff_bool(lhs@, rhs@, path_view(old(stack)@))
                =~= records_view(target@));
        }
    }
}

/// Compares two number leaves by their literal text; a difference is one
/// leaf-mismatch record at the current path, carrying both literals.
pub fn diff_value_num(
    target: &mut Vec<DiffItem>,
    stack: &mut Vec<DiffPathSegment>,
    lhs: &ValueNum,
    rhs: &ValueNum,
)
    ensures
        final(stack)@ == old(stack)@,
        records_view(final(target)@) == records_view(old(target)@) + spec_diff_num(
            lhs@,
            rhs@,
            path_view(old(stack)@),
        ),
{
    let c = cmp_str(lhs.0.as_str(), rhs.0.as_str());
    proof {
        lemma_chars_cmp_zero(lhs@, rhs@);
    }
    if c != 0 {
        let rec = DiffItem {
            path: clone_path(stack),
            diff: DiffPayload::ValueNum(lhs.clone(), rhs.clone()),
        };
        target.push(rec);
        proof {
            broadcast use lemma_records_view_push;

            assert(records_view(target@) =~= records_view(old(target)@) + spec_diff_num(
                lhs@,
                rhs@,
                path_view(old(stack)@),
            ));
        }
    } else {
        proof {
            assert(records_view(target@) + spec_diff_num(lhs@, rhs@, path_view(old(stack)@))
                =~= records_view(target@));
        }
    }
}

/// Compares two string leaves by their content; a difference is one
/// leaf-mismatch record at the current path, carrying both strings.
pub fn diff_value_str(
    target: &mut Vec<DiffItem>,
    stack: &mut Vec<DiffPathSegment>,
    lhs: &ValueStr,
    rhs: &ValueStr,
)
    ensures
        final(stack)@ == old(stack)@,
        records_view(final(target)@) == records_view(old(target)@) + spec_diff_str(
            lhs@,
            rhs@,
            path_view(old(stack)@),
        ),
{
    let c = cmp_str(lhs.0.as_str(), rhs.0.as_str());
    proof {
        lemma_chars_cmp_zero(lhs@, rhs@);
    }
    if c != 0 {
        let rec = DiffItem {
            path: clone_path(stack),
            diff: DiffPayload::ValueStr(lhs.clone(), rhs.clone()),
        };
        target.push(rec);
        proof {
            broadcast use lemma_records_view_push;

            assert(records_view(target@) =~= records_view(old(target)@) + spec_diff_str(
                lhs@,
                rhs@,
                path_view(old(stack)@),
            ));
        }
    } else {
        proof {
            assert(records_view(target@) + spec_diff_str(lhs@, rhs@, path_view(old(stack)@))
                =~= records_view(target@));
        }
    }
}

/// Compares two bare identifiers by name; a difference is one
/// shape-mismatch record at the current path, carrying both identifiers.
pub fn diff_item_unit_struct(
    target: &mut Vec<DiffItem>,
    stack: &mut Vec<DiffPathSegment>,
    lhs: &ItemUnitStruct,
    rhs: &ItemUnitStruct,
)
    ensures
        final(stack)@ == old(stack)@,
        records_view(final(target)@) == records_view(old(target)@) + spec_diff_unit(
            lhs@,
            rhs@,
            path_view(old(stack)@),
        ),
{
    let c = cmp_str(lhs.0.as_str(), rhs.0.as_str());
    proof {
        lemma_chars_cmp_zero(lhs@, rhs@);
    }
    if c != 0 {
        let rec = DiffItem {
            path: clone_path(stack),
            diff: DiffPayload::ItemUnitStruct(lhs.clone(), rhs.clone()),
        };
        target.push(rec);
        proof {
            broadcast use lemma_records_view_push;

            assert(records_view(target@) =~= records_view(old(target)@) + spec_diff_unit(
                lhs@,
                rhs@,
                path_view(old(stack)@),
            ));
        }
    } else {
        proof {
            assert(records_view(target@) + spec_diff_unit(lhs@, rhs@, path_view(old(stack)@))
                =~= records_view(target@));
        }
    }
}

/// The two-cursor merge walk shared by lists and sets. The
/// `right_is_insertion` argument is the policy point of `right_only_payload`:
/// sets pass `true`, lists pass `false` to keep their documented labelling.
#[verifier::loop_isolation(false)]
fn diff_merge_walk(
    target: &mut Vec<DiffItem>,
    stack: &Vec<DiffPathSegment>,
    lhs: &Vec<AstItem>,
    rhs: &Vec<AstItem>,
    right_is_insertion: bool,
)
    requires
        lhs@.len() + rhs@.len() <= usize::MAX,
    ensures
        records_view(final(target)@) == records_view(old(target)@) + spec_diff_walk(
            seq_view(lhs@),
            seq_view(rhs@),
            path_view(stack@),
            0,
            right_is_insertion,
        ),
{
    let ghost gl = seq_view(lhs@);
    let ghost gr = seq_view(rhs@);
    let ghost p = path_view(stack@);
    let ghost base = records_view(target@);
    let mut i: usize = 0;
    let mut j: usize = 0;
    let mut count: usize = 0;
    proof {
        assert(gl.skip(0) =~= gl);
        assert(gr.skip(0) =~= gr);
    }
    while i < lhs.len() || j < rhs.len()
        invariant
            i <= lhs.len(),
            j <= rhs.len(),
            count <= i + j,
            base + spec_diff_walk(gl, gr, p, 0, right_is_insertion) == records_view(target@)
                + spec_diff_walk(gl.skip(i as int), gr.skip(j as int), p, count as int, right_is_insertion),
        decreases (lhs.len() - i) + (rhs.len() - j),
    {
        let ghost pre = records_view(target@);
        let ghost wl = gl.skip(i as int);
        let ghost wr = gr.skip(j as int);
        proof {
            if i < lhs.len() {
                assert(wl[0] == gl[i as int]);
                assert(wl.drop_first() =~= gl.skip(i as int + 1));
            }
            if j < rhs.len() {
                assert(wr[0] == gr[j as int]);
                assert(wr.drop_first() =~= gr.skip(j as int + 1));
            }
        }
        if i < lhs.len() && j < rhs.len() {
            let c = cmp_ast(&lhs[i], &rhs[j]);
            if c == 0 {
                i = i + 1;
                j = j + 1;
            } else if c < 0 {
                let rec = DiffItem {
                    path: clone_path(stack),
                    diff: DiffPayload::RemovedAt(count, lhs[i].clone()),
                };
                target.push(rec);
                proof {
                    broadcast use lemma_records_view_push;

                    assert(spec_diff_walk(wl, wr, p, count as int, right_is_insertion) == seq![rec@]
                        + spec_diff_walk(wl.drop_first(), wr, p, count as int + 1, right_is_insertion));
                    assert((pre + seq![rec@]) + spec_diff_walk(
                        wl.drop_first(),
                        wr,
                        p,
                        count as int + 1,
                        right_is_insertion,
                    ) =~= pre + (seq![rec@] + spec_diff_walk(
                        wl.drop_first(),
                        wr,
                        p,
                        count as int + 1,
                        right_is_insertion,
                    )));
                }
                i = i + 1;
            } else {
                let rec = DiffItem {
                    path: clone_path(stack),
                    diff: if right_is_insertion {
                        DiffPayload::InsertedAt(count, rhs[j].clone())
                    } else {
                        DiffPayload::RemovedAt(count, rhs[j].clone())
                    },
                };
                target.push(rec);
                proof {
                    broadcast use lemma_records_view_push;

                    assert(spec_diff_walk(wl, wr, p, count as int, right_is_insertion) == seq![rec@]
                        + spec_diff_walk(wl, wr.drop_first(), p, count as int + 1, right_is_insertion));
                    assert((pre + seq![rec@]) + spec_diff_walk(
                        wl,
                        wr.drop_first(),
                        p,
                        count as int + 1,
                        right_is_insertion,
                    ) =~= pre + (seq![rec@] + spec_diff_walk(
                        wl,
                        wr.drop_first(),
                        p,
                        count as int + 1,
                        right_is_insertion,
                    )));
                }
                j = j + 1;
            }
        } else if j == rhs.len() {
            let rec = DiffItem {
                path: clone_path(stack),
                diff: DiffPayload::RemovedAt(count, lhs[i].clone()),
            };
            target.push(rec);
            proof {
                broadcast use lemma_records_view_push;

                assert(wr =~= Seq::<AstView>::empty());
                assert(spec_diff_walk(wl, wr, p, count as int, right_is_insertion) == seq![rec@]
                    + spec_diff_walk(wl.drop_first(), wr, p, count as int + 1, right_is_insertion));
                assert((pre + seq![rec@]) + spec_diff_walk(
                    wl.drop_first(),
                    wr,
                    p,
                    count as int + 1,
                    right_is_insertion,
                ) =~= pre + (seq![rec@] + spec_diff_walk(
                    wl.drop_first(),
                    wr,
                    p,
                    count as int + 1,
                    right_is_insertion,
                )));
            }
            i = i + 1;
        } else {
            let rec = DiffItem {
                path: clone_path(stack),
                diff: if right_is_insertion {
                    DiffPayload::InsertedAt(count, rhs[j].clone())
                } else {
                    DiffPayload::RemovedAt(count, rhs[j].clone())
                },
            };
            target.push(rec);
            proof {
                broadcast use lemma_records_view_push;

                assert(wl =~= Seq::<AstView>::empty());
                assert(spec_diff_walk(wl, wr, p, count as int, right_is_insertion) == seq![rec@]
                    + spec_diff_walk(wl, wr.drop_first(), p, count as int + 1, right_is_insertion));
                assert((pre + seq![rec@]) + spec_diff_walk(
                    wl,
                    wr.drop_first(),
                    p,
                    count as int + 1,
                    right_is_insertion,
                ) =~= pre + (seq![rec@] + spec_diff_walk(
                    wl,
                    wr.drop_first(),
                    p,
                    count as int + 1,
                    right_is_insertion,
                )));
            }
            j = j + 1;
        }
        count = count + 1;
    }
    proof {
        assert(gl.skip(i as int) =~= Seq::<AstView>::empty());
        assert(gr.skip(j as int) =~= Seq::<AstView>::empty());
        assert(base + spec_diff_walk(gl, gr, p, 0, right_is_insertion) =~= records_view(target@));
    }
}

/// Compares two lists with the merge walk over the sequences as given. The
/// walk assumes, but does not verify, that both are sorted ascending under
/// the total order; per the documented behaviour, every one-sided element is
/// reported as a removal, whichever side has it.
pub fn diff_item_list(
    target: &mut Vec<DiffItem>,
    stack: &mut Vec<DiffPathSegment>,
    lhs: &ItemList,
    rhs: &ItemList,
)
    requires
        lhs@.len() + rhs@.len() <= usize::MAX,
    ensures
        final(stack)@ == old(stack)@,
        records_view(final(target)@) == records_view(old(target)@) + spec_diff_walk(
            lhs@,
            rhs@,
            path_view(old(stack)@),
            0,
            false,
        ),
{
    diff_merge_walk(target, &*stack, &lhs.0, &rhs.0, false)
}

/// Compares two sets with the merge walk; an element only the left side has
/// is a removal, one only the right side has is an insertion, each at the
/// merge step at which it was seen.
pub fn diff_item_set(
    target: &mut Vec<DiffItem>,
    stack: &mut Vec<DiffPathSegment>,
    lhs: &ItemSet,
    rhs: &ItemSet,
)
    requires
        lhs@.len() + rhs@.len() <= usize::MAX,
    ensures
        final(stack)@ == old(stack)@,
        records_view(final(target)@) == records_view(old(target)@) + spec_diff_walk(
            lhs@,
            rhs@,
            path_view(old(stack)@),
            0,
            true,
        ),
{
    diff_merge_walk(target, &*stack, &lhs.0, &rhs.0, true)
}

/// Compares two optional slots: both filled compares the contents at the
/// same path, a slot filled on one side only is one removal or insertion at
/// position zero, both empty is no difference.
pub fn diff_item_option(
    target: &mut Vec<DiffItem>,
    stack: &mut Vec<DiffPathSegment>,
    lhs: &ItemOption,
    rhs: &ItemOption,
)
    requires
        fits_option(lhs@, rhs@),
    ensures
        final(stack)@ == old(stack)@,
        records_view(final(target)@) == records_view(old(target)@) + spec_diff_option(
            lhs@,
            rhs@,
            path_view(old(stack)@),
        ),
    decreases *lhs, *rhs, 0int,
{
    match (&lhs.0, &rhs.0) {
        (Option::Some(x), Option::Some(y)) => {
            diff_ast(target, stack, x, y);
        },
        (Option::Some(x), Option::None) => {
            let rec = DiffItem {
                path: clone_path(stack),
                diff: DiffPayload::RemovedAt(0, (**x).clone()),
            };
            target.push(rec);
            proof {
                broadcast use lemma_records_view_push;

                assert(records_view(target@) =~= records_view(old(target)@) + spec_diff_option(
                    lhs@,
                    rhs@,
                    path_view(old(stack)@),
                ));
            }
        },
        (Option::None, Option::Some(y)) => {
            let rec = DiffItem {
                path: clone_path(stack),
                diff: DiffPayload::InsertedAt(0, (**y).clone()),
            };
            target.push(rec);
            proof {
                broadcast use lemma_records_view_push;

                assert(records_view(target@) =~= records_view(old(target)@) + spec_diff_option(
                    lhs@,
                    rhs@,
                    path_view(old(stack)@),
                ));
            }
        },
        (Option::None, Option::None) => {
            proof {
                assert(records_view(target@) + spec_diff_option(lhs@, rhs@, path_view(old(stack)@))
                    =~= records_view(target@));
            }
        },
    }
}

/// Compares two tuples: unequal arity is one shape-mismatch record carrying
/// both tuples whole; equal arity compares the elements index by index.
#[verifier::loop_isolation(false)]
pub fn diff_item_tuple(
    target: &mut Vec<DiffItem>,
    stack: &mut Vec<DiffPathSegment>,
    lhs: &ItemTuple,
    rhs: &ItemTuple,
)
    requires
        lhs@.len() == rhs@.len() ==> fits_elems(lhs@, rhs@),
    ensures
        final(stack)@ == old(stack)@,
        records_view(final(target)@) == records_view(old(target)@) + spec_diff_tuple(
            lhs@,
            rhs@,
            path_view(old(stack)@),
        ),
    decreases *lhs, *rhs, 0int,
{
    if lhs.0.len() != rhs.0.len() {
        let rec = DiffItem {
            path: clone_path(stack),
            diff: DiffPayload::ItemTuple(lhs.clone(), rhs.clone()),
        };
        target.push(rec);
        proof {
            broadcast use lemma_records_view_push;

            assert(records_view(target@) =~= records_view(old(target)@) + spec_diff_tuple(
                lhs@,
                rhs@,
                path_view(old(stack)@),
            ));
        }
    } else {
        diff_paired_elems(target, stack, &lhs.0, &rhs.0);
    }
}

/// Compares two tuple structs: a differing name or unequal arity is one
/// shape-mismatch record carrying both whole; otherwise the elements are
/// compared index by index.
#[verifier::loop_isolation(false)]
pub fn diff_item_tuple_struct(
    target: &mut Vec<DiffItem>,
    stack: &mut Vec<DiffPathSegment>,
    lhs: &ItemTupleStruct,
    rhs: &ItemTupleStruct,
)
    requires
        (lhs@.0 == rhs@.0 && lhs@.1.len() == rhs@.1.len()) ==> fits_elems(lhs@.1, rhs@.1),
    ensures
        final(stack)@ == old(stack)@,
        records_view(final(target)@) == records_view(old(target)@) + spec_diff_tuple_struct(
            lhs@.0,
            lhs@.1,
            rhs@.0,
            rhs@.1,
            path_view(old(stack)@),
        ),
    decreases *lhs, *rhs, 0int,
{
    let c = cmp_str(lhs.0.as_str(), rhs.0.as_str());
    proof {
        lemma_chars_cmp_zero(lhs.0@, rhs.0@);
    }
    if c != 0 || lhs.1.len() != rhs.1.len() {
        let rec = DiffItem {
            path: clone_path(stack),
            diff: DiffPayload::ItemTupleStruct(lhs.clone(), rhs.clone()),
        };
        target.push(rec);
        proof {
            broadcast use lemma_records_view_push;

            assert(records_view(target@) =~= records_view(old(target)@) + spec_diff_tuple_struct(
                lhs@.0,
                lhs@.1,
                rhs@.0,
                rhs@.1,
                path_view(old(stack)@),
            ));
        }
    } else {
        diff_paired_elems(target, stack, &lhs.1, &rhs.1);
    }
}

/// Compares two equally long element vectors index by index, each pair
/// under an index path step.
#[verifier::loop_isolation(false)]
fn diff_paired_elems(
    target: &mut Vec<DiffItem>,
    stack: &mut Vec<DiffPathSegment>,
    lhs: &Vec<AstItem>,
    rhs: &Vec<AstItem>,
)
    requires
        lhs@.len() == rhs@.len(),
        fits_elems(seq_view(lhs@), seq_view(rhs@)),
    ensures
        final(stack)@ == old(stack)@,
        records_view(final(target)@) == records_view(old(target)@) + spec_diff_elems(
            seq_view(lhs@),
            seq_view(rhs@),
            path_view(old(stack)@),
            0,
        ),
    decreases lhs@, rhs@, 0int,
{
    let ghost gl = seq_view(lhs@);
    let ghost gr = seq_view(rhs@);
    let ghost p = path_view(old(stack)@);
    let ghost base = records_view(target@);
    let ghost stack0 = stack@;
    let mut k: usize = 0;
    proof {
        assert(gl.skip(0) =~= gl);
        assert(gr.skip(0) =~= gr);
    }
    while k < lhs.len()
        invariant
            k <= lhs.len(),
            stack@ == stack0,
            fits_elems(gl.skip(k as int), gr.skip(k as int)),
            base + spec_diff_elems(gl, gr, p, 0) == records_view(target@) + spec_diff_elems(
                gl.skip(k as int),
                gr.skip(k as int),
                p,
                k as int,
            ),
        decreases lhs.len() - k,
    {
        let ghost pre = records_view(target@);
        let ghost wl = gl.skip(k as int);
        let ghost wr = gr.skip(k as int);
        proof {
            assert(wl[0] == gl[k as int]);
            assert(wr[0] == gr[k as int]);
            assert(wl.drop_first() =~= gl.skip(k as int + 1));
            assert(wr.drop_first() =~= gr.skip(k as int + 1));
        }
        let seg = DiffPathSegment::Index(k, k);
        stack.push(seg);
        diff_ast(target, stack, &lhs[k], &rhs[k]);
        let _ = stack.pop();
        proof {
            broadcast use lemma_path_view_push;

            assert(stack@ =~= stack0);
            let ghost d = spec_diff(wl[0], wr[0], p.push(PathSegView::Index(k as int, k as int)));
            assert(spec_diff_elems(wl, wr, p, k as int) == d + spec_diff_elems(
                wl.drop_first(),
                wr.drop_first(),
                p,
                k as int + 1,
            ));
            assert((pre + d) + spec_diff_elems(wl.drop_first(), wr.drop_first(), p, k as int + 1)
                =~= pre + (d + spec_diff_elems(wl.drop_first(), wr.drop_first(), p, k as int + 1)));
        }
        k = k + 1;
    }
    proof {
        assert(gl.skip(k as int) =~= Seq::<AstView>::empty());
        assert(gr.skip(k as int) =~= Seq::<AstView>::empty());
        assert(base + spec_diff_elems(gl, gr, p, 0) =~= records_view(target@));
    }
}

/// Compares two structs: a shape clash (differing type name, or a field
/// name that differs at a shared position) is one shape-mismatch record
/// carrying both structs whole; otherwise the paired fields are compared
/// one by one under their field name.
#[verifier::loop_isolation(false)]
pub fn diff_item_struct(
    target: &mut Vec<DiffItem>,
    stack: &mut Vec<DiffPathSegment>,
    lhs: &ItemStruct,
    rhs: &ItemStruct,
)
    requires
        !struct_shape_clash(lhs@.0, lhs@.1, rhs@.0, rhs@.1) ==> fits_fields(lhs@.1, rhs@.1),
    ensures
        final(stack)@ == old(stack)@,
        records_view(final(target)@) == records_view(old(target)@) + spec_diff_struct(
            lhs@.0,
            lhs@.1,
            rhs@.0,
            rhs@.1,
            path_view(old(stack)@),
        ),
    decreases *lhs, *rhs, 0int,
{
    let ghost lf = fields_view(lhs.1@);
    let ghost rf = fields_view(rhs.1@);
    let name_c = cmp_str(lhs.0.as_str(), rhs.0.as_str());
    proof {
        lemma_chars_cmp_zero(lhs.0@, rhs.0@);
    }
    let mut clash = name_c != 0;
    let min = if lhs.1.len() < rhs.1.len() {
        lhs.1.len()
    } else {
        rhs.1.len()
    };
    let mut k: usize = 0;
    while k < min
        invariant
            k <= min,
            clash ==> struct_shape_clash(lhs@.0, lhs@.1, rhs@.0, rhs@.1),
            !clash ==> lhs@.0 == rhs@.0 && forall|t: int|
                0 <= t < k ==> (#[trigger] lf[t]).0 == rf[t].0,
        decreases min - k,
    {
        let c = cmp_str(lhs.1[k].0.as_str(), rhs.1[k].0.as_str());
        proof {
            lemma_chars_cmp_zero(lhs.1@[k as int].0@, rhs.1@[k as int].0@);
        }
        if c != 0 {
            clash = true;
            proof {
                assert((k as int) < lf.len() && (k as int) < rf.len() && lf[k as int].0
                    != rf[k as int].0);
            }
        }
        k = k + 1;
    }
    if clash {
        let rec = DiffItem {
            path: clone_path(stack),
            diff: DiffPayload::ItemStruct(lhs.clone(), rhs.clone()),
        };
        target.push(rec);
        proof {
            broadcast use lemma_records_view_push;

            assert(records_view(target@) =~= records_view(old(target)@) + spec_diff_struct(
                lhs@.0,
                lhs@.1,
                rhs@.0,
                rhs@.1,
                path_view(old(stack)@),
            ));
        }
    } else {
        proof {
            assert forall|i: int|
                0 <= i < lf.len() && i < rf.len() implies lf[i].0 == rf[i].0 by {
                assert(i < min as int);
            }
            assert(!struct_shape_clash(lhs@.0, lhs@.1, rhs@.0, rhs@.1));
        }
        let ghost p = path_view(old(stack)@);
        let ghost base = records_view(target@);
        let ghost stack0 = stack@;
        let mut k: usize = 0;
        proof {
            assert(lf.skip(0) =~= lf);
            assert(rf.skip(0) =~= rf);
        }
        while k < min
            invariant
                k <= min,
                stack@ == stack0,
                fits_fields(lf.skip(k as int), rf.skip(k as int)),
                base + spec_diff_fields(lf, rf, p) == records_view(target@) + spec_diff_fields(
                    lf.skip(k as int),
                    rf.skip(k as int),
                    p,
                ),
            decreases min - k,
        {
            let ghost pre = records_view(target@);
            let ghost wl = lf.skip(k as int);
            let ghost wr = rf.skip(k as int);
            proof {
                assert(wl[0] == lf[k as int]);
                assert(wr[0] == rf[k as int]);
                assert(wl.drop_first() =~= lf.skip(k as int + 1));
                assert(wr.drop_first() =~= rf.skip(k as int + 1));
            }
            let entry = &lhs.1[k];
            let other = &rhs.1[k];
            let seg = DiffPathSegment::Field(entry.0.clone());
            stack.push(seg);
            diff_ast(target, stack, &entry.1, &other.1);
            let _ = stack.pop();
            proof {
                broadcast use lemma_path_view_push;

                assert(stack@ =~= stack0);
                let ghost d = spec_diff(wl[0].1, wr[0].1, p.push(PathSegView::Field(wl[0].0)));
                assert(spec_diff_fields(wl, wr, p) == d + spec_diff_fields(
                    wl.drop_first(),
                    wr.drop_first(),
                    p,
                ));
                assert((pre + d) + spec_diff_fields(wl.drop_first(), wr.drop_first(), p) =~= pre + (
                d + spec_diff_fields(wl.drop_first(), wr.drop_first(), p)));
            }
            k = k + 1;
        }
        proof {
            assert(lf.skip(k as int).len() == 0 || rf.skip(k as int).len() == 0);
            assert(base + spec_diff_fields(lf, rf, p) =~= records_view(target@));
        }
    }
}

/// Compares two maps with the keyed merge walk: on equal keys the two
/// values are compared under a key path step; an entry whose key only one
/// side has is reported whole, as a key-value pair.
#[verifier::loop_isolation(false)]
pub fn diff_item_map(
    target: &mut Vec<DiffItem>,
    stack: &mut Vec<DiffPathSegment>,
    lhs: &ItemMap,
    rhs: &ItemMap,
)
    requires
        fits_pairs(lhs@, rhs@),
    ensures
        final(stack)@ == old(stack)@,
        records_view(final(target)@) == records_view(old(target)@) + spec_diff_map(
            lhs@,
            rhs@,
            path_view(old(stack)@),
        ),
    decreases *lhs, *rhs, 0int,
{
    let ghost gl = pairs_view(lhs.0@);
    let ghost gr = pairs_view(rhs.0@);
    let ghost p = path_view(old(stack)@);
    let ghost base = records_view(target@);
    let ghost stack0 = stack@;
    let mut i: usize = 0;
    let mut j: usize = 0;
    proof {
        assert(gl.skip(0) =~= gl);
        assert(gr.skip(0) =~= gr);
    }
    while i < lhs.0.len() || j < rhs.0.len()
        invariant
            i <= lhs.0.len(),
            j <= rhs.0.len(),
            stack@ == stack0,
            fits_pairs(gl.skip(i as int), gr.skip(j as int)),
            base + spec_diff_map(gl, gr, p) == records_view(target@) + spec_diff_map(
                gl.skip(i as int),
                gr.skip(j as int),
                p,
            ),
        decreases (lhs.0.len() - i) + (rhs.0.len() - j),
    {
        let ghost pre = records_view(target@);
        let ghost wl = gl.skip(i as int);
        let ghost wr = gr.skip(j as int);
        proof {
            if i < lhs.0.len() {
                assert(wl[0] == gl[i as int]);
                assert(wl.drop_first() =~= gl.skip(i as int + 1));
            }
            if j < rhs.0.len() {
                assert(wr[0] == gr[j as int]);
                assert(wr.drop_first() =~= gr.skip(j as int + 1));
            }
        }
        if i < lhs.0.len() && j < rhs.0.len() {
            let le = &lhs.0[i];
            let re = &rhs.0[j];
            let c = cmp_ast(&le.0, &re.0);
            if c == 0 {
                let seg = DiffPathSegment::Key(le.0.clone());
                stack.push(seg);
                diff_ast(target, stack, &le.1, &re.1);
                let _ = stack.pop();
                proof {
                    broadcast use lemma_path_view_push;

                    assert(stack@ =~= stack0);
                    let ghost d = spec_diff(wl[0].1, wr[0].1, p.push(PathSegView::Key(wl[0].0)));
                    assert(spec_diff_map(wl, wr, p) == d + spec_diff_map(
                        wl.drop_first(),
                        wr.drop_first(),
                        p,
                    ));
                    assert((pre + d) + spec_diff_map(wl.drop_first(), wr.drop_first(), p) =~= pre
                        + (d + spec_diff_map(wl.drop_first(), wr.drop_first(), p)));
                }
                i = i + 1;
                j = j + 1;
            } else if c < 0 {
                let rec = DiffItem {
                    path: clone_path(stack),
                    diff: DiffPayload::RemovedPair(le.0.clone(), le.1.clone()),
                };
                target.push(rec);
                proof {
                    broadcast use lemma_records_view_push;

                    assert(spec_diff_map(wl, wr, p) == seq![rec@] + spec_diff_map(
                        wl.drop_first(),
                        wr,
                        p,
                    ));
                    assert((pre + seq![rec@]) + spec_diff_map(wl.drop_first(), wr, p) =~= pre + (
                    seq![rec@] + spec_diff_map(wl.drop_first(), wr, p)));
                }
                i = i + 1;
            } else {
                let rec = DiffItem {
                    path: clone_path(stack),
                    diff: DiffPayload::InsertedPair(re.0.clone(), re.1.clone()),
                };
                target.push(rec);
                proof {
                    broadcast use lemma_records_view_push;

                    assert(spec_diff_map(wl, wr, p) == seq![rec@] + spec_diff_map(
                        wl,
                        wr.drop_first(),
                        p,
                    ));
                    assert((pre + seq![rec@]) + spec_diff_map(wl, wr.drop_first(), p) =~= pre + (
                    seq![rec@] + spec_diff_map(wl, wr.drop_first(), p)));
                }
                j = j + 1;
            }
        } else if j == rhs.0.len() {
            let le = &lhs.0[i];
            let rec = DiffItem {
                path: clone_path(stack),
                diff: DiffPayload::RemovedPair(le.0.clone(), le.1.clone()),
            };
            target.push(rec);
            proof {
                broadcast use lemma_records_view_push;

                assert(wr =~= Seq::<(AstView, AstView)>::empty());
                assert(spec_diff_map(wl, wr, p) == seq![rec@] + spec_diff_map(
                    wl.drop_first(),
                    wr,
                    p,
                ));
                assert((pre + seq![rec@]) + spec_diff_map(wl.drop_first(), wr, p) =~= pre + (
                seq![rec@] + spec_diff_map(wl.drop_first(), wr, p)));
            }
            i = i + 1;
        } else {
            let re = &rhs.0[j];
            let rec = DiffItem {
                path: clone_path(stack),
                diff: DiffPayload::InsertedPair(re.0.clone(), re.1.clone()),
            };
            target.push(rec);
            proof {
                broadcast use lemma_records_view_push;

                assert(wl =~= Seq::<(AstView, AstView)>::empty());
                assert(spec_diff_map(wl, wr, p) == seq![rec@] + spec_diff_map(
                    wl,
                    wr.drop_first(),
                    p,
                ));
                assert((pre + seq![rec@]) + spec_diff_map(wl, wr.drop_first(), p) =~= pre + (
                seq![rec@] + spec_diff_map(wl, wr.drop_first(), p)));
            }
            j = j + 1;
        }
    }
    proof {
        assert(gl.skip(i as int) =~= Seq::<(AstView, AstView)>::empty());
        assert(gr.skip(j as int) =~= Seq::<(AstView, AstView)>::empty());
        assert(base + spec_diff_map(gl, gr, p) =~= records_view(target@));
    }
}

/// Dispatches on the variants of two trees: same-variant pairs are compared
/// by that variant's rule, and a pair of different variants is one
/// whole-subtree mismatch record at the current path.
pub fn diff_ast(
    target: &mut Vec<DiffItem>,
    stack: &mut Vec<DiffPathSegment>,
    lhs: &AstItem,
    rhs: &AstItem,
)
    requires
        fits(lhs@, rhs@),
    ensures
        final(stack)@ == old(stack)@,
        records_view(final(target)@) == records_view(old(target)@) + spec_diff(
            lhs@,
            rhs@,
            path_view(old(stack)@),
        ),
    decreases *lhs, *rhs, 1int,
{
    match (lhs, rhs) {
        (AstItem::ItemList(x), AstItem::ItemList(y)) => diff_item_list(target, stack, x, y),
        (AstItem::ItemMap(x), AstItem::ItemMap(y)) => diff_item_map(target, stack, x, y),
        (AstItem::ItemOption(x), AstItem::ItemOption(y)) => diff_item_option(target, stack, x, y),
        (AstItem::ItemSet(x), AstItem::ItemSet(y)) => diff_item_set(target, stack, x, y),
        (AstItem::ItemStruct(x), AstItem::ItemStruct(y)) => diff_item_struct(target, stack, x, y),
        (AstItem::ItemTuple(x), AstItem::ItemTuple(y)) => diff_item_tuple(target, stack, x, y),
        (AstItem::ItemTupleStruct(x), AstItem::ItemTupleStruct(y)) => diff_item_tuple_struct(
            target,
            stack,
            x,
            y,
        ),
        (AstItem::ItemUnitStruct(x), AstItem::ItemUnitStruct(y)) => diff_item_unit_struct(
            target,
            stack,
            x,
            y,
        ),
        (AstItem::ValueBool(x), AstItem::ValueBool(y)) => diff_value_bool(target, stack, x, y),
        (AstItem::ValueNum(x), AstItem::ValueNum(y)) => diff_value_num(target, stack, x, y),
        (AstItem::ValueStr(x), AstItem::ValueStr(y)) => diff_value_str(target, stack, x, y),
        _ => {
            let rec = DiffItem {
                path: clone_path(stack),
                diff: DiffPayload::AstItem(lhs.clone(), rhs.clone()),
            };
            target.push(rec);
            proof {
                broadcast use lemma_records_view_push;

                assert(spec_diff(lhs@, rhs@, path_view(old(stack)@)) =~= seq![rec@]);
                assert(records_view(target@) =~= records_view(old(target)@) + spec_diff(
                    lhs@,
                    rhs@,
                    path_view(old(stack)@),
                ));
            }
        },
    }
}

/// Compares two trees and reports every structural difference between them,
/// each difference tagged with the path at which it occurs. The engine is
/// deterministic: the result is exactly the record sequence that
/// `spec_diff` gives for the two trees at the empty path.
pub fn find_diff(lhs: &AstItem, rhs: &AstItem) -> (r: Vec<DiffItem>)
    requires
        fits(lhs@, rhs@),
    ensures
        records_view(r@) == spec_diff(lhs@, rhs@, Seq::<PathSegView>::empty()),
{
    let mut target: Vec<DiffItem> = Vec::new();
    let mut stack: Vec<DiffPathSegment> = Vec::new();
    diff_ast(&mut target, &mut stack, lhs, rhs);
    proof {
        assert(path_view(Seq::<DiffPathSegment>::empty()) =~= Seq::<PathSegView>::empty());
        assert(records_view(Seq::<DiffItem>::empty()) =~= Seq::<DiffItemView>::empty());
        assert(Seq::<DiffItemView>::empty() + spec_diff(lhs@, rhs@, Seq::<PathSegView>::empty())
            =~= spec_diff(lhs@, rhs@, Seq::<PathSegView>::empty()));
    }
    target
}

} // verus!
