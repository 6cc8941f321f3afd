use super::spec_diff;
use super::spec_diff_elems;
use super::spec_diff_fields;
use super::spec_diff_map;
use super::spec_diff_struct;
use super::spec_diff_tuple;
use super::spec_diff_tuple_struct;
use super::spec_diff_walk;
use super::struct_shape_clash;
use super::DiffItemView;
use super::DiffPayloadView;
use super::PathSegView;
use crate::ast::AstView;
use crate::order::lemma_node_cmp_zero;
use crate::order::node_cmp;
use vstd::prelude::*;

verus! {

/// Reflexivity: comparing any tree with itself reports no differences.
pub proof fn lemma_diff_reflexive(a: AstView, path: Seq<PathSegView>)
    ensures
        spec_diff(a, a, path) == Seq::<DiffItemView>::empty(),
    decreases a, 1int,
{
    match a {
        AstView::ItemList(x) => {
            lemma_walk_reflexive(x, path, 0, false);
        },
        AstView::ItemMap(x) => {
            lemma_map_reflexive(x, path);
        },
        AstView::ItemOption(x) => {
            match x {
                Option::Some(bx) => {
                    lemma_diff_reflexive(*bx, path);
                },
                Option::None => {},
            }
        },
        AstView::ItemSet(x) => {
            lemma_walk_reflexive(x, path, 0, true);
        },
        AstView::ItemStruct(nx, fx) => {
            assert(!struct_shape_clash(nx, fx, nx, fx));
            lemma_fields_reflexive(fx, path);
        },
        AstView::ItemTuple(x) => {
            lemma_elems_reflexive(x, path, 0);
        },
        AstView::ItemTupleStruct(nx, ex) => {
            lemma_elems_reflexive(ex, path, 0);
        },
        AstView::ItemUnitStruct(_) => {},
        AstView::ValueBool(_) => {},
        AstView::ValueNum(_) => {},
        AstView::ValueStr(_) => {},
    }
}

/// The merge walk of a sequence against itself reports nothing.
proof fn lemma_walk_reflexive(l: Seq<AstView>, path: Seq<PathSegView>, count: int, flag: bool)
    ensures
        spec_diff_walk(l, l, path, count, flag) == Seq::<DiffItemView>::empty(),
    decreases l, 0int,
{
    if l.len() > 0 {
        lemma_node_cmp_zero(l[0], l[0]);
        lemma_walk_reflexive(l.drop_first(), path, count + 1, flag);
    }
}

/// The keyed merge walk of an entry sequence against itself reports
/// nothing.
proof fn lemma_map_reflexive(l: Seq<(AstView, AstView)>, path: Seq<PathSegView>)
    ensures
        spec_diff_map(l, l, path) == Seq::<DiffItemView>::empty(),
    decreases l, 0int,
{
    if l.len() > 0 {
        lemma_node_cmp_zero(l[0].0, l[0].0);
        lemma_diff_reflexive(l[0].1, path.push(PathSegView::Key(l[0].0)));
        lemma_map_reflexive(l.drop_first(), path);
        assert(Seq::<DiffItemView>::empty() + Seq::<DiffItemView>::empty() =~= Seq::<
            DiffItemView,
        >::empty());
    }
}

/// Field-by-field comparison of a field sequence against itself reports
/// nothing.
proof fn lemma_fields_reflexive(lf: Seq<(Seq<char>, AstView)>, path: Seq<PathSegView>)
    ensures
        spec_diff_fields(lf, lf, path) == Seq::<DiffItemView>::empty(),
    decreases lf, 0int,
{
    if lf.len() > 0 {
        lemma_diff_reflexive(lf[0].1, path.push(PathSegView::Field(lf[0].0)));
        lemma_fields_reflexive(lf.drop_first(), path);
        assert(Seq::<DiffItemView>::empty() + Seq::<DiffItemView>::empty() =~= Seq::<
            DiffItemView,
        >::empty());
    }
}

/// Element-by-element comparison of a sequence against itself reports
/// nothing.
proof fn lemma_elems_reflexive(l: Seq<AstView>, path: Seq<PathSegView>, idx: int)
    ensures
        spec_diff_elems(l, l, path, idx) == Seq::<DiffItemView>::empty(),
    decreases l, 0int,
{
    if l.len() > 0 {
        lemma_diff_reflexive(l[0], path.push(PathSegView::Index(idx, idx)));
        lemma_elems_reflexive(l.drop_first(), path, idx + 1);
        assert(Seq::<DiffItemView>::empty() + Seq::<DiffItemView>::empty() =~= Seq::<
            DiffItemView,
        >::empty());
    }
}

/// Determinism: the engine's contract pins the reported records to a
/// function of the two trees alone, so any two runs over the same trees
/// report the same differences in the same order.
pub proof fn lemma_diff_deterministic(
    first: Seq<super::DiffItem>,
    second: Seq<super::DiffItem>,
    a: AstView,
    b: AstView,
)
    requires
        super::records_view(first) == spec_diff(a, b, Seq::<PathSegView>::empty()),
        super::records_view(second) == spec_diff(a, b, Seq::<PathSegView>::empty()),
    ensures
        super::records_view(first) == super::records_view(second),
{
}

/// Whether a pair of trees is free of the documented struct field-superset
/// gap: wherever the traversal compares two structs whose type name and
/// shared field-name positions agree, their field counts are equal. The
/// engine silently ignores the extra fields of such a superset struct, so
/// equality coincidence is stated under this condition.
pub open spec fn no_hidden_fields(a: AstView, b: AstView) -> bool
    decreases a, b, 1int,
{
    match (a, b) {
        (AstView::ItemMap(x), AstView::ItemMap(y)) => no_hidden_fields_pairs(x, y),
        (AstView::ItemOption(x), AstView::ItemOption(y)) => match (x, y) {
            (Option::Some(bx), Option::Some(by)) => no_hidden_fields(*bx, *by),
            _ => true,
        },
        (AstView::ItemStruct(nx, fx), AstView::ItemStruct(ny, fy)) => !struct_shape_clash(
            nx,
            fx,
            ny,
            fy,
        ) ==> (fx.len() == fy.len() && no_hidden_fields_fields(fx, fy)),
        (AstView::ItemTuple(x), AstView::ItemTuple(y)) => x.len() == y.len()
            ==> no_hidden_fields_elems(x, y),
        (AstView::ItemTupleStruct(nx, ex), AstView::ItemTupleStruct(ny, ey)) => (nx == ny
            && ex.len() == ey.len()) ==> no_hidden_fields_elems(ex, ey),
        _ => true,
    }
}

/// The superset-gap condition along the keyed merge walk of two entry
/// sequences: it must hold of the two values wherever the walk compares
/// them.
pub open spec fn no_hidden_fields_pairs(
    l: Seq<(AstView, AstView)>,
    r: Seq<(AstView, AstView)>,
) -> bool
    decreases l, r, 0int,
{
    if l.len() == 0 || r.len() == 0 {
        true
    } else {
        let c = node_cmp(l[0].0, r[0].0);
        if c == 0 {
            no_hidden_fields(l[0].1, r[0].1) && no_hidden_fields_pairs(
                l.drop_first(),
                r.drop_first(),
            )
        } else if c < 0 {
            no_hidden_fields_pairs(l.drop_first(), r)
        } else {
            no_hidden_fields_pairs(l, r.drop_first())
        }
    }
}

/// The superset-gap condition for paired struct fields.
pub open spec fn no_hidden_fields_fields(
    lf: Seq<(Seq<char>, AstView)>,
    rf: Seq<(Seq<char>, AstView)>,
) -> bool
    decreases lf, rf, 0int,
{
    if lf.len() == 0 || rf.len() == 0 {
        true
    } else {
        no_hidden_fields(lf[0].1, rf[0].1) && no_hidden_fields_fields(
            lf.drop_first(),
            rf.drop_first(),
        )
    }
}

/// The superset-gap condition for paired tuple elements.
pub open spec fn no_hidden_fields_elems(l: Seq<AstView>, r: Seq<AstView>) -> bool
    decreases l, r, 0int,
{
    if l.len() == 0 || r.len() == 0 {
        true
    } else {
        no_hidden_fields(l[0], r[0]) && no_hidden_fields_elems(l.drop_first(), r.drop_first())
    }
}

/// Equality coincidence: the engine reports no differences exactly when the
/// two trees are structurally equal. The precondition excludes pairs with
/// the documented struct field-superset gap, on which the left-to-right
/// direction fails: two structs of the same name whose field sequences are
/// one a strict prefix extension of the other diff to nothing yet differ.
pub proof fn lemma_diff_empty_iff_equal(a: AstView, b: AstView, path: Seq<PathSegView>)
    requires
        no_hidden_fields(a, b),
    ensures
        spec_diff(a, b, path).len() == 0 <==> a == b,
    decreases a, b, 1int,
{
    match (a, b) {
        (AstView::ItemList(x), AstView::ItemList(y)) => {
            lemma_walk_empty_iff(x, y, path, 0, false);
        },
        (AstView::ItemMap(x), AstView::ItemMap(y)) => {
            lemma_map_empty_iff(x, y, path);
        },
        (AstView::ItemOption(x), AstView::ItemOption(y)) => {
            match (x, y) {
                (Option::Some(bx), Option::Some(by)) => {
                    lemma_diff_empty_iff_equal(*bx, *by, path);
                },
                _ => {},
            }
        },
        (AstView::ItemSet(x), AstView::ItemSet(y)) => {
            lemma_walk_empty_iff(x, y, path, 0, true);
        },
        (AstView::ItemStruct(nx, fx), AstView::ItemStruct(ny, fy)) => {
            if struct_shape_clash(nx, fx, ny, fy) {
                if a == b {
                    assert forall|i: int|
                        0 <= i < fx.len() && i < fy.len() implies fx[i].0 == fy[i].0 by {
                        assert(fx[i] == fy[i]);
                    }
                    assert(false);
                }
            } else {
                assert forall|i: int| 0 <= i < fx.len() implies fx[i].0 == fy[i].0 by {
                    assert(!(0 <= i < fx.len() && i < fy.len() && fx[i].0 != fy[i].0));
                }
                lemma_fields_empty_iff(fx, fy, path);
            }
        },
        (AstView::ItemTuple(x), AstView::ItemTuple(y)) => {
            if x.len() == y.len() {
                lemma_elems_empty_iff(x, y, path, 0);
            }
        },
        (AstView::ItemTupleStruct(nx, ex), AstView::ItemTupleStruct(ny, ey)) => {
            if nx == ny && ex.len() == ey.len() {
                lemma_elems_empty_iff(ex, ey, path, 0);
            }
        },
        _ => {},
    }
}

/// The merge walk reports nothing exactly when the two sequences are equal.
proof fn lemma_walk_empty_iff(
    l: Seq<AstView>,
    r: Seq<AstView>,
    path: Seq<PathSegView>,
    count: int,
    flag: bool,
)
    ensures
        spec_diff_walk(l, r, path, count, flag).len() == 0 <==> l == r,
    decreases l, r, 0int,
{
    if l.len() == 0 && r.len() == 0 {
        assert(l =~= r);
    } else if l.len() > 0 && r.len() > 0 {
        lemma_node_cmp_zero(l[0], r[0]);
        if node_cmp(l[0], r[0]) == 0 {
            lemma_walk_empty_iff(l.drop_first(), r.drop_first(), path, count + 1, flag);
            if spec_diff_walk(l, r, path, count, flag).len() == 0 {
                assert forall|i: int| 0 <= i < l.len() implies l[i] == r[i] by {
                    if i > 0 {
                        assert(l[i] == l.drop_first()[i - 1]);
                        assert(r[i] == r.drop_first()[i - 1]);
                    }
                }
                assert(l =~= r);
            }
            if l == r {
                assert(l.drop_first() == r.drop_first());
            }
        }
    }
}

/// The keyed merge walk reports nothing exactly when the two entry
/// sequences are equal.
proof fn lemma_map_empty_iff(
    l: Seq<(AstView, AstView)>,
    r: Seq<(AstView, AstView)>,
    path: Seq<PathSegView>,
)
    requires
        no_hidden_fields_pairs(l, r),
    ensures
        spec_diff_map(l, r, path).len() == 0 <==> l == r,
    decreases l, r, 0int,
{
    if l.len() == 0 && r.len() == 0 {
        assert(l =~= r);
    } else if l.len() > 0 && r.len() > 0 {
        lemma_node_cmp_zero(l[0].0, r[0].0);
        if node_cmp(l[0].0, r[0].0) == 0 {
            lemma_diff_empty_iff_equal(l[0].1, r[0].1, path.push(PathSegView::Key(l[0].0)));
            lemma_map_empty_iff(l.drop_first(), r.drop_first(), path);
            if spec_diff_map(l, r, path).len() == 0 {
                assert(l[0] == r[0]);
                assert forall|i: int| 0 <= i < l.len() implies l[i] == r[i] by {
                    if i > 0 {
                        assert(l[i] == l.drop_first()[i - 1]);
                        assert(r[i] == r.drop_first()[i - 1]);
                    }
                }
                assert(l =~= r);
            }
            if l == r {
                assert(l[0] == r[0]);
                assert(l.drop_first() == r.drop_first());
            }
        } else {
            if l == r {
                assert(l[0] == r[0]);
            }
        }
    }
}

/// Field-by-field comparison of two field sequences of equal length and
/// equal names reports nothing exactly when the sequences are equal.
proof fn lemma_fields_empty_iff(
    lf: Seq<(Seq<char>, AstView)>,
    rf: Seq<(Seq<char>, AstView)>,
    path: Seq<PathSegView>,
)
    requires
        lf.len() == rf.len(),
        forall|i: int| 0 <= i < lf.len() ==> (#[trigger] lf[i]).0 == rf[i].0,
        no_hidden_fields_fields(lf, rf),
    ensures
        spec_diff_fields(lf, rf, path).len() == 0 <==> lf == rf,
    decreases lf, rf, 0int,
{
    if lf.len() == 0 {
        assert(lf =~= rf);
    } else {
        lemma_diff_empty_iff_equal(lf[0].1, rf[0].1, path.push(PathSegView::Field(lf[0].0)));
        assert forall|i: int|
            0 <= i < lf.drop_first().len() implies (#[trigger] lf.drop_first()[i]).0
            == rf.drop_first()[i].0 by {
            assert(lf.drop_first()[i] == lf[i + 1]);
            assert(rf.drop_first()[i] == rf[i + 1]);
        }
        lemma_fields_empty_iff(lf.drop_first(), rf.drop_first(), path);
        if spec_diff_fields(lf, rf, path).len() == 0 {
            assert(lf[0] == rf[0]);
            assert forall|i: int| 0 <= i < lf.len() implies lf[i] == rf[i] by {
                if i > 0 {
                    assert(lf[i] == lf.drop_first()[i - 1]);
                    assert(rf[i] == rf.drop_first()[i - 1]);
                }
            }
            assert(lf =~= rf);
        }
        if lf == rf {
            assert(lf[0] == rf[0]);
            assert(lf.drop_first() == rf.drop_first());
        }
    }
}

/// Element-by-element comparison of two sequences of equal length reports
/// nothing exactly when the sequences are equal.
proof fn lemma_elems_empty_iff(l: Seq<AstView>, r: Seq<AstView>, path: Seq<PathSegView>, idx: int)
    requires
        l.len() == r.len(),
        no_hidden_fields_elems(l, r),
    ensures
        spec_diff_elems(l, r, path, idx).len() == 0 <==> l == r,
    decreases l, r, 0int,
{
    if l.len() == 0 {
        assert(l =~= r);
    } else {
        lemma_diff_empty_iff_equal(l[0], r[0], path.push(PathSegView::Index(idx, idx)));
        lemma_elems_empty_iff(l.drop_first(), r.drop_first(), path, idx + 1);
        if spec_diff_elems(l, r, path, idx).len() == 0 {
            assert forall|i: int| 0 <= i < l.len() implies l[i] == r[i] by {
                if i > 0 {
                    assert(l[i] == l.drop_first()[i - 1]);
                    assert(r[i] == r.drop_first()[i - 1]);
                }
            }
            assert(l =~= r);
        }
        if l == r {
            assert(l.drop_first() == r.drop_first());
        }
    }
}

/// Whether one path starts with another: the shorter is exactly the head of
/// the longer.
pub open spec fn path_extends(q: Seq<PathSegView>, p: Seq<PathSegView>) -> bool {
    p.len() <= q.len() && q.subrange(0, p.len() as int) == p
}

/// A path that starts with a path one step longer than `p` also starts
/// with `p`.
proof fn lemma_path_extends_step(q: Seq<PathSegView>, p: Seq<PathSegView>, s: PathSegView)
    requires
        path_extends(q, p.push(s)),
    ensures
        path_extends(q, p),
{
    assert forall|i: int| 0 <= i < p.len() implies q.subrange(0, p.len() as int)[i] == p[i] by {
        assert(q.subrange(0, p.len() as int + 1)[i] == p.push(s)[i]);
        assert(q[i] == p[i]);
    }
    assert(q.subrange(0, p.len() as int) =~= p);
}

/// Path discipline: every record that comparing two trees at a path
/// reports carries a path that starts with that path; a step pushed while
/// descending into one child never leaks into a sibling's records.
pub proof fn lemma_paths_extend(a: AstView, b: AstView, path: Seq<PathSegView>)
    ensures
        forall|i: int|
            0 <= i < spec_diff(a, b, path).len() ==> path_extends(
                (#[trigger] spec_diff(a, b, path)[i]).path,
                path,
            ),
    decreases a, b, 1int,
{
    assert(path.subrange(0, path.len() as int) =~= path);
    match (a, b) {
        (AstView::ItemList(x), AstView::ItemList(y)) => {
            lemma_walk_paths(x, y, path, 0, false);
        },
        (AstView::ItemMap(x), AstView::ItemMap(y)) => {
            lemma_map_paths(x, y, path);
        },
        (AstView::ItemOption(x), AstView::ItemOption(y)) => {
            match (x, y) {
                (Option::Some(bx), Option::Some(by)) => {
                    lemma_paths_extend(*bx, *by, path);
                },
                _ => {},
            }
        },
        (AstView::ItemSet(x), AstView::ItemSet(y)) => {
            lemma_walk_paths(x, y, path, 0, true);
        },
        (AstView::ItemStruct(nx, fx), AstView::ItemStruct(ny, fy)) => {
            if !struct_shape_clash(nx, fx, ny, fy) {
                lemma_fields_paths(fx, fy, path);
            }
        },
        (AstView::ItemTuple(x), AstView::ItemTuple(y)) => {
            if x.len() == y.len() {
                lemma_elems_paths(x, y, path, 0);
            }
        },
        (AstView::ItemTupleStruct(nx, ex), AstView::ItemTupleStruct(ny, ey)) => {
            if nx == ny && ex.len() == ey.len() {
                lemma_elems_paths(ex, ey, path, 0);
            }
        },
        _ => {},
    }
}

/// The merge walk reports every record at exactly the entered path.
proof fn lemma_walk_paths(
    l: Seq<AstView>,
    r: Seq<AstView>,
    path: Seq<PathSegView>,
    count: int,
    flag: bool,
)
    ensures
        forall|i: int|
            0 <= i < spec_diff_walk(l, r, path, count, flag).len() ==> (#[trigger] spec_diff_walk(
                l,
                r,
                path,
                count,
                flag,
            )[i]).path == path,
    decreases l, r, 0int,
{
    if l.len() == 0 && r.len() == 0 {
    } else if r.len() == 0 {
        lemma_walk_paths(l.drop_first(), r, path, count + 1, flag);
    } else if l.len() == 0 {
        lemma_walk_paths(l, r.drop_first(), path, count + 1, flag);
    } else {
        let c = node_cmp(l[0], r[0]);
        if c == 0 {
            lemma_walk_paths(l.drop_first(), r.drop_first(), path, count + 1, flag);
        } else if c < 0 {
            lemma_walk_paths(l.drop_first(), r, path, count + 1, flag);
        } else {
            lemma_walk_paths(l, r.drop_first(), path, count + 1, flag);
        }
    }
}

/// Every record of the keyed merge walk carries a path that starts with the
/// entered path.
proof fn lemma_map_paths(
    l: Seq<(AstView, AstView)>,
    r: Seq<(AstView, AstView)>,
    path: Seq<PathSegView>,
)
    ensures
        forall|i: int|
            0 <= i < spec_diff_map(l, r, path).len() ==> path_extends(
                (#[trigger] spec_diff_map(l, r, path)[i]).path,
                path,
            ),
    decreases l, r, 0int,
{
    assert(path.subrange(0, path.len() as int) =~= path);
    if l.len() == 0 && r.len() == 0 {
    } else if r.len() == 0 {
        lemma_map_paths(l.drop_first(), r, path);
    } else if l.len() == 0 {
        lemma_map_paths(l, r.drop_first(), path);
    } else {
        let c = node_cmp(l[0].0, r[0].0);
        if c == 0 {
            let seg = PathSegView::Key(l[0].0);
            let d = spec_diff(l[0].1, r[0].1, path.push(seg));
            lemma_paths_extend(l[0].1, r[0].1, path.push(seg));
            lemma_map_paths(l.drop_first(), r.drop_first(), path);
            assert forall|i: int| 0 <= i < d.len() implies path_extends(
                (#[trigger] d[i]).path,
                path,
            ) by {
                lemma_path_extends_step(d[i].path, path, seg);
            }
        } else if c < 0 {
            lemma_map_paths(l.drop_first(), r, path);
        } else {
            lemma_map_paths(l, r.drop_first(), path);
        }
    }
}

/// Every record of the field-by-field comparison carries a path that starts
/// with the entered path.
proof fn lemma_fields_paths(
    lf: Seq<(Seq<char>, AstView)>,
    rf: Seq<(Seq<char>, AstView)>,
    path: Seq<PathSegView>,
)
    ensures
        forall|i: int|
            0 <= i < spec_diff_fields(lf, rf, path).len() ==> path_extends(
                (#[trigger] spec_diff_fields(lf, rf, path)[i]).path,
                path,
            ),
    decreases lf, rf, 0int,
{
    if lf.len() > 0 && rf.len() > 0 {
        let seg = PathSegView::Field(lf[0].0);
        let d = spec_diff(lf[0].1, rf[0].1, path.push(seg));
        lemma_paths_extend(lf[0].1, rf[0].1, path.push(seg));
        lemma_fields_paths(lf.drop_first(), rf.drop_first(), path);
        assert forall|i: int| 0 <= i < d.len() implies path_extends(
            (#[trigger] d[i]).path,
            path,
        ) by {
            lemma_path_extends_step(d[i].path, path, seg);
        }
    }
}

/// Every record of the element-by-element comparison carries a path that
/// starts with the entered path.
proof fn lemma_elems_paths(l: Seq<AstView>, r: Seq<AstView>, path: Seq<PathSegView>, idx: int)
    ensures
        forall|i: int|
            0 <= i < spec_diff_elems(l, r, path, idx).len() ==> path_extends(
                (#[trigger] spec_diff_elems(l, r, path, idx)[i]).path,
                path,
            ),
    decreases l, r, 0int,
{
    if l.len() > 0 && r.len() > 0 {
        let seg = PathSegView::Index(idx, idx);
        let d = spec_diff(l[0], r[0], path.push(seg));
        lemma_paths_extend(l[0], r[0], path.push(seg));
        lemma_elems_paths(l.drop_first(), r.drop_first(), path, idx + 1);
        assert forall|i: int| 0 <= i < d.len() implies path_extends(
            (#[trigger] d[i]).path,
            path,
        ) by {
            lemma_path_extends_step(d[i].path, path, seg);
        }
    }
}

/// Struct pass-through: two structs that share a type name and the same
/// field-name sequence produce no shape-mismatch record; what the engine
/// reports for them is exactly the field-by-field comparison of their
/// paired fields, each under its field-name path step.
pub proof fn lemma_struct_passthrough(
    ln: Seq<char>,
    lf: Seq<(Seq<char>, AstView)>,
    rn: Seq<char>,
    rf: Seq<(Seq<char>, AstView)>,
    path: Seq<PathSegView>,
)
    requires
        ln == rn,
        lf.map_values(|f: (Seq<char>, AstView)| f.0) == rf.map_values(
            |f: (Seq<char>, AstView)| f.0,
        ),
    ensures
        spec_diff_struct(ln, lf, rn, rf, path) == spec_diff_fields(lf, rf, path),
{
    assert forall|i: int| 0 <= i < lf.len() && i < rf.len() implies lf[i].0 == rf[i].0 by {
        assert(lf.map_values(|f: (Seq<char>, AstView)| f.0)[i] == lf[i].0);
        assert(rf.map_values(|f: (Seq<char>, AstView)| f.0)[i] == rf[i].0);
    }
    assert(!struct_shape_clash(ln, lf, rn, rf));
}

/// Arity gate for tuples: whenever the element counts differ, the engine
/// reports exactly one shape-mismatch record at the current path, carrying
/// both tuples whole, and descends into no element.
pub proof fn lemma_tuple_arity_gate(l: Seq<AstView>, r: Seq<AstView>, path: Seq<PathSegView>)
    requires
        l.len() != r.len(),
    ensures
        spec_diff_tuple(l, r, path) == seq![
            (DiffItemView { path, diff: DiffPayloadView::ItemTuple(l, r) }),
        ],
{
}

/// Arity gate for tuple structs: whenever the element counts differ, the
/// engine reports exactly one shape-mismatch record at the current path,
/// carrying both tuple structs whole, and descends into no element.
pub proof fn lemma_tuple_struct_arity_gate(
    ln: Seq<char>,
    le: Seq<AstView>,
    rn: Seq<char>,
    re: Seq<AstView>,
    path: Seq<PathSegView>,
)
    requires
        le.len() != re.len(),
    ensures
        spec_diff_tuple_struct(ln, le, rn, re, path) == seq![
            (DiffItemView { path, diff: DiffPayloadView::ItemTupleStruct((ln, le), (rn, re)) }),
        ],
{
}

} // verus!
