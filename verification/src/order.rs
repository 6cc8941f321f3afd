use crate::ast::ast_view;
use crate::ast::fields_view;
use crate::ast::pairs_view;
use crate::ast::seq_view;
use crate::ast::AstItem;
use crate::ast::AstView;
use vstd::prelude::*;
use vstd::string::StrSliceExecFns;

verus! {

broadcast use
    crate::ast::lemma_seq_view_len,
    crate::ast::lemma_seq_view_index,
    crate::ast::lemma_pairs_view_len,
    crate::ast::lemma_pairs_view_index,
    crate::ast::lemma_fields_view_len,
    crate::ast::lemma_fields_view_index,
;

/// Rank of a variant in the total order over trees: values of different
/// variants compare by this rank alone.
pub open spec fn variant_rank(a: AstView) -> int {
    match a {
        AstView::ItemList(_) => 0,
        AstView::ItemMap(_) => 1,
        AstView::ItemOption(_) => 2,
        AstView::ItemSet(_) => 3,
        AstView::ItemStruct(_, _) => 4,
        AstView::ItemTuple(_) => 5,
        AstView::ItemTupleStruct(_, _) => 6,
        AstView::ItemUnitStruct(_) => 7,
        AstView::ValueBool(_) => 8,
        AstView::ValueNum(_) => 9,
        AstView::ValueStr(_) => 10,
    }
}

/// Three-way comparison of two character sequences, code point by code
/// point, a strict prefix ordering before what extends it.
pub open spec fn chars_cmp(a: Seq<char>, b: Seq<char>) -> int
    decreases a.len(),
{
    if a.len() == 0 && b.len() == 0 {
        0
    } else if a.len() == 0 {
        -1
    } else if b.len() == 0 {
        1
    } else if a[0] != b[0] {
        if (a[0] as u32) < (b[0] as u32) {
            -1
        } else {
            1
        }
    } else {
        chars_cmp(a.drop_first(), b.drop_first())
    }
}

/// Three-way comparison of two booleans: `false` before `true`.
pub open spec fn bool_cmp(a: bool, b: bool) -> int {
    if a == b {
        0
    } else if !a {
        -1
    } else {
        1
    }
}

/// Three-way comparison of two trees under the total order: first by variant
/// rank, then structurally within the variant. Lists and tuples compare
/// lexicographically by element, maps and sets by their entry sequences,
/// structs and tuple structs by name and then by contents, leaves by their
/// raw value.
pub open spec fn node_cmp(a: AstView, b: AstView) -> int
    decreases a, b, 1int,
{
    match (a, b) {
        (AstView::ItemList(x), AstView::ItemList(y)) => seq_cmp(x, y),
        (AstView::ItemMap(x), AstView::ItemMap(y)) => pairs_cmp(x, y),
        (AstView::ItemOption(x), AstView::ItemOption(y)) => match (x, y) {
            (Option::None, Option::None) => 0,
            (Option::None, Option::Some(_)) => -1,
            (Option::Some(_), Option::None) => 1,
            (Option::Some(bx), Option::Some(by)) => node_cmp(*bx, *by),
        },
        (AstView::ItemSet(x), AstView::ItemSet(y)) => seq_cmp(x, y),
        (AstView::ItemStruct(nx, fx), AstView::ItemStruct(ny, fy)) => if chars_cmp(nx, ny)
            != 0 {
            chars_cmp(nx, ny)
        } else {
            fields_cmp(fx, fy)
        },
        (AstView::ItemTuple(x), AstView::ItemTuple(y)) => seq_cmp(x, y),
        (AstView::ItemTupleStruct(nx, ex), AstView::ItemTupleStruct(ny, ey)) => if chars_cmp(
            nx,
            ny,
        ) != 0 {
            chars_cmp(nx, ny)
        } else {
            seq_cmp(ex, ey)
        },
        (AstView::ItemUnitStruct(x), AstView::ItemUnitStruct(y)) => chars_cmp(x, y),
        (AstView::ValueBool(x), AstView::ValueBool(y)) => bool_cmp(x, y),
        (AstView::ValueNum(x), AstView::ValueNum(y)) => chars_cmp(x, y),
        (AstView::ValueStr(x), AstView::ValueStr(y)) => chars_cmp(x, y),
        _ => if variant_rank(a) < variant_rank(b) {
            -1
        } else {
            1
        },
    }
}

/// Lexicographic three-way comparison of two tree sequences.
pub open spec fn seq_cmp(a: Seq<AstView>, b: Seq<AstView>) -> int
    decreases a, b, 0int,
{
    if a.len() == 0 && b.len() == 0 {
        0
    } else if a.len() == 0 {
        -1
    } else if b.len() == 0 {
        1
    } else if node_cmp(a[0], b[0]) != 0 {
        node_cmp(a[0], b[0])
    } else {
        seq_cmp(a.drop_first(), b.drop_first())
    }
}

/// Lexicographic three-way comparison of two entry sequences, each entry by
/// key and then by value.
pub open spec fn pairs_cmp(a: Seq<(AstView, AstView)>, b: Seq<(AstView, AstView)>) -> int
    decreases a, b, 0int,
{
    if a.len() == 0 && b.len() == 0 {
        0
    } else if a.len() == 0 {
        -1
    } else if b.len() == 0 {
        1
    } else if node_cmp(a[0].0, b[0].0) != 0 {
        node_cmp(a[0].0, b[0].0)
    } else if node_cmp(a[0].1, b[0].1) != 0 {
        node_cmp(a[0].1, b[0].1)
    } else {
        pairs_cmp(a.drop_first(), b.drop_first())
    }
}

/// Lexicographic three-way comparison of two field sequences, each field by
/// name and then by value.
pub open spec fn fields_cmp(a: Seq<(Seq<char>, AstView)>, b: Seq<(Seq<char>, AstView)>) -> int
    decreases a, b, 0int,
{
    if a.len() == 0 && b.len() == 0 {
        0
    } else if a.len() == 0 {
        -1
    } else if b.len() == 0 {
        1
    } else if chars_cmp(a[0].0, b[0].0) != 0 {
        chars_cmp(a[0].0, b[0].0)
    } else if node_cmp(a[0].1, b[0].1) != 0 {
        node_cmp(a[0].1, b[0].1)
    } else {
        fields_cmp(a.drop_first(), b.drop_first())
    }
}

/// Comparison coincides with equality on texts: two character sequences
/// compare as equal exactly when they are the same sequence.
pub proof fn lemma_chars_cmp_zero(a: Seq<char>, b: Seq<char>)
    ensures
        (chars_cmp(a, b) == 0) <==> (a == b),
    decreases a.len(),
{
    if a.len() > 0 && b.len() > 0 && a[0] == b[0] {
        lemma_chars_cmp_zero(a.drop_first(), b.drop_first());
        if chars_cmp(a, b) == 0 {
            assert forall|i: int| 0 <= i < a.len() implies a[i] == b[i] by {
                if i > 0 {
                    assert(a[i] == a.drop_first()[i - 1]);
                    assert(b[i] == b.drop_first()[i - 1]);
                }
            }
            assert(a =~= b);
        }
        if a == b {
            assert(a.drop_first() == b.drop_first());
        }
    } else if a.len() == 0 && b.len() == 0 {
        assert(a =~= b);
    }
}

/// Comparison coincides with structural equality: two trees compare as equal
/// exactly when they are the same tree. In particular the order is reflexive.
pub proof fn lemma_node_cmp_zero(a: AstView, b: AstView)
    ensures
        (node_cmp(a, b) == 0) <==> (a == b),
    decreases a, b, 1int,
{
    match (a, b) {
        (AstView::ItemList(x), AstView::ItemList(y)) => {
            lemma_seq_cmp_zero(x, y);
        },
        (AstView::ItemMap(x), AstView::ItemMap(y)) => {
            lemma_pairs_cmp_zero(x, y);
        },
        (AstView::ItemOption(x), AstView::ItemOption(y)) => {
            match (x, y) {
                (Option::Some(bx), Option::Some(by)) => {
                    lemma_node_cmp_zero(*bx, *by);
                },
                _ => {},
            }
        },
        (AstView::ItemSet(x), AstView::ItemSet(y)) => {
            lemma_seq_cmp_zero(x, y);
        },
        (AstView::ItemStruct(nx, fx), AstView::ItemStruct(ny, fy)) => {
            lemma_chars_cmp_zero(nx, ny);
            lemma_fields_cmp_zero(fx, fy);
        },
        (AstView::ItemTuple(x), AstView::ItemTuple(y)) => {
            lemma_seq_cmp_zero(x, y);
        },
        (AstView::ItemTupleStruct(nx, ex), AstView::ItemTupleStruct(ny, ey)) => {
            lemma_chars_cmp_zero(nx, ny);
            lemma_seq_cmp_zero(ex, ey);
        },
        (AstView::ItemUnitStruct(x), AstView::ItemUnitStruct(y)) => {
            lemma_chars_cmp_zero(x, y);
        },
        (AstView::ValueNum(x), AstView::ValueNum(y)) => {
            lemma_chars_cmp_zero(x, y);
        },
        (AstView::ValueStr(x), AstView::ValueStr(y)) => {
            lemma_chars_cmp_zero(x, y);
        },
        _ => {},
    }
}

/// Comparison coincides with equality on tree sequences.
pub proof fn lemma_seq_cmp_zero(a: Seq<AstView>, b: Seq<AstView>)
    ensures
        (seq_cmp(a, b) == 0) <==> (a == b),
    decreases a, b, 0int,
{
    if a.len() == 0 && b.len() == 0 {
        assert(a =~= b);
    } else if a.len() > 0 && b.len() > 0 {
        lemma_node_cmp_zero(a[0], b[0]);
        if node_cmp(a[0], b[0]) == 0 {
            lemma_seq_cmp_zero(a.drop_first(), b.drop_first());
            if seq_cmp(a, b) == 0 {
                assert forall|i: int| 0 <= i < a.len() implies a[i] == b[i] by {
                    if i > 0 {
                        assert(a[i] == a.drop_first()[i - 1]);
                        assert(b[i] == b.drop_first()[i - 1]);
                    }
                }
                assert(a =~= b);
            }
            if a == b {
                assert(a.drop_first() == b.drop_first());
            }
        }
    }
}

/// Comparison coincides with equality on entry sequences.
pub proof fn lemma_pairs_cmp_zero(a: Seq<(AstView, AstView)>, b: Seq<(AstView, AstView)>)
    ensures
        (pairs_cmp(a, b) == 0) <==> (a == b),
    decreases a, b, 0int,
{
    if a.len() == 0 && b.len() == 0 {
        assert(a =~= b);
    } else if a.len() > 0 && b.len() > 0 {
        lemma_node_cmp_zero(a[0].0, b[0].0);
        lemma_node_cmp_zero(a[0].1, b[0].1);
        if node_cmp(a[0].0, b[0].0) == 0 && node_cmp(a[0].1, b[0].1) == 0 {
            lemma_pairs_cmp_zero(a.drop_first(), b.drop_first());
            if pairs_cmp(a, b) == 0 {
                assert(a[0] == b[0]);
                assert forall|i: int| 0 <= i < a.len() implies a[i] == b[i] by {
                    if i > 0 {
                        assert(a[i] == a.drop_first()[i - 1]);
                        assert(b[i] == b.drop_first()[i - 1]);
                    }
                }
                assert(a =~= b);
            }
            if a == b {
                assert(a.drop_first() == b.drop_first());
            }
        } else {
            if a == b {
                assert(a[0] == b[0]);
            }
        }
    }
}

/// Comparison coincides with equality on field sequences.
pub proof fn lemma_fields_cmp_zero(a: Seq<(Seq<char>, AstView)>, b: Seq<(Seq<char>, AstView)>)
    ensures
        (fields_cmp(a, b) == 0) <==> (a == b),
    decreases a, b, 0int,
{
    if a.len() == 0 && b.len() == 0 {
        assert(a =~= b);
    } else if a.len() > 0 && b.len() > 0 {
        lemma_chars_cmp_zero(a[0].0, b[0].0);
        lemma_node_cmp_zero(a[0].1, b[0].1);
        if chars_cmp(a[0].0, b[0].0) == 0 && node_cmp(a[0].1, b[0].1) == 0 {
            lemma_fields_cmp_zero(a.drop_first(), b.drop_first());
            if fields_cmp(a, b) == 0 {
                assert(a[0] == b[0]);
                assert forall|i: int| 0 <= i < a.len() implies a[i] == b[i] by {
                    if i > 0 {
                        assert(a[i] == a.drop_first()[i - 1]);
                        assert(b[i] == b.drop_first()[i - 1]);
                    }
                }
                assert(a =~= b);
            }
            if a == b {
                assert(a.drop_first() == b.drop_first());
            }
        } else {
            if a == b {
                assert(a[0] == b[0]);
            }
        }
    }
}

/// Canonical element order of a set: ascending under the total order and
/// free of duplicates, each element strictly preceding the next.
pub open spec fn sorted_elems(s: Seq<AstView>) -> bool {
    forall|i: int| 0 <= i && i + 1 < s.len() ==> node_cmp(#[trigger] s[i], s[i + 1]) < 0
}

/// Canonical entry order of a map: keys ascending and unique.
pub open spec fn sorted_keys(s: Seq<(AstView, AstView)>) -> bool {
    forall|i: int| 0 <= i && i + 1 < s.len() ==> node_cmp((#[trigger] s[i]).0, s[i + 1].0) < 0
}

/// Canonical field order of a struct: names ascending and unique.
pub open spec fn sorted_names(s: Seq<(Seq<char>, AstView)>) -> bool {
    forall|i: int| 0 <= i && i + 1 < s.len() ==> chars_cmp((#[trigger] s[i]).0, s[i + 1].0) < 0
}

/// Where a new element lands in a canonically ordered sequence: before the
/// first element it does not exceed. An element already present (comparing
/// equal) leaves the sequence unchanged.
pub open spec fn set_insert(s: Seq<AstView>, x: AstView) -> Seq<AstView>
    decreases s.len(),
{
    if s.len() == 0 {
        seq![x]
    } else {
        let c = node_cmp(x, s[0]);
        if c < 0 {
            seq![x] + s
        } else if c == 0 {
            s
        } else {
            seq![s[0]] + set_insert(s.drop_first(), x)
        }
    }
}

/// Entry insertion into a canonically ordered entry sequence; an entry
/// whose key is already present replaces that key's value.
pub open spec fn map_insert(s: Seq<(AstView, AstView)>, k: AstView, v: AstView) -> Seq<
    (AstView, AstView),
>
    decreases s.len(),
{
    if s.len() == 0 {
        seq![(k, v)]
    } else {
        let c = node_cmp(k, s[0].0);
        if c < 0 {
            seq![(k, v)] + s
        } else if c == 0 {
            seq![(k, v)] + s.drop_first()
        } else {
            seq![s[0]] + map_insert(s.drop_first(), k, v)
        }
    }
}

/// Field insertion into a canonically ordered field sequence; a field whose
/// name is already present replaces that name's value.
pub open spec fn fields_insert(s: Seq<(Seq<char>, AstView)>, n: Seq<char>, v: AstView) -> Seq<
    (Seq<char>, AstView),
>
    decreases s.len(),
{
    if s.len() == 0 {
        seq![(n, v)]
    } else {
        let c = chars_cmp(n, s[0].0);
        if c < 0 {
            seq![(n, v)] + s
        } else if c == 0 {
            seq![(n, v)] + s.drop_first()
        } else {
            seq![s[0]] + fields_insert(s.drop_first(), n, v)
        }
    }
}

/// Comparison of texts is transitive in its strict part. Together with
/// antisymmetry and the coincidence of equality with comparing as equal,
/// this makes the comparison a total order.
pub proof fn lemma_chars_cmp_trans(a: Seq<char>, b: Seq<char>, c: Seq<char>)
    requires
        chars_cmp(a, b) < 0,
        chars_cmp(b, c) < 0,
    ensures
        chars_cmp(a, c) < 0,
    decreases a.len(),
{
    if a.len() > 0 && b.len() > 0 && c.len() > 0 && a[0] == b[0] && b[0] == c[0] {
        lemma_chars_cmp_trans(a.drop_first(), b.drop_first(), c.drop_first());
    }
}

/// Comparison of trees is transitive in its strict part.
pub proof fn lemma_node_cmp_trans(a: AstView, b: AstView, c: AstView)
    requires
        node_cmp(a, b) < 0,
        node_cmp(b, c) < 0,
    ensures
        node_cmp(a, c) < 0,
    decreases a, b, 1int,
{
    match (a, b, c) {
        (AstView::ItemList(x), AstView::ItemList(y), AstView::ItemList(z)) => {
            lemma_seq_cmp_trans(x, y, z);
        },
        (AstView::ItemMap(x), AstView::ItemMap(y), AstView::ItemMap(z)) => {
            lemma_pairs_cmp_trans(x, y, z);
        },
        (AstView::ItemOption(x), AstView::ItemOption(y), AstView::ItemOption(z)) => {
            match (x, y, z) {
                (Option::Some(bx), Option::Some(by), Option::Some(bz)) => {
                    lemma_node_cmp_trans(*bx, *by, *bz);
                },
                _ => {},
            }
        },
        (AstView::ItemSet(x), AstView::ItemSet(y), AstView::ItemSet(z)) => {
            lemma_seq_cmp_trans(x, y, z);
        },
        (
            AstView::ItemStruct(nx, fx),
            AstView::ItemStruct(ny, fy),
            AstView::ItemStruct(nz, fz),
        ) => {
            lemma_chars_cmp_zero(nx, ny);
            lemma_chars_cmp_zero(ny, nz);
            if chars_cmp(nx, ny) < 0 && chars_cmp(ny, nz) < 0 {
                lemma_chars_cmp_trans(nx, ny, nz);
            }
            if chars_cmp(nx, ny) == 0 && chars_cmp(ny, nz) == 0 {
                lemma_fields_cmp_trans(fx, fy, fz);
            }
        },
        (AstView::ItemTuple(x), AstView::ItemTuple(y), AstView::ItemTuple(z)) => {
            lemma_seq_cmp_trans(x, y, z);
        },
        (
            AstView::ItemTupleStruct(nx, ex),
            AstView::ItemTupleStruct(ny, ey),
            AstView::ItemTupleStruct(nz, ez),
        ) => {
            lemma_chars_cmp_zero(nx, ny);
            lemma_chars_cmp_zero(ny, nz);
            if chars_cmp(nx, ny) < 0 && chars_cmp(ny, nz) < 0 {
                lemma_chars_cmp_trans(nx, ny, nz);
            }
            if chars_cmp(nx, ny) == 0 && chars_cmp(ny, nz) == 0 {
                lemma_seq_cmp_trans(ex, ey, ez);
            }
        },
        (
            AstView::ItemUnitStruct(x),
            AstView::ItemUnitStruct(y),
            AstView::ItemUnitStruct(z),
        ) => {
            lemma_chars_cmp_trans(x, y, z);
        },
        (AstView::ValueNum(x), AstView::ValueNum(y), AstView::ValueNum(z)) => {
            lemma_chars_cmp_trans(x, y, z);
        },
        (AstView::ValueStr(x), AstView::ValueStr(y), AstView::ValueStr(z)) => {
            lemma_chars_cmp_trans(x, y, z);
        },
        _ => {},
    }
}

/// Transitivity of the strict part for tree sequences.
pub proof fn lemma_seq_cmp_trans(a: Seq<AstView>, b: Seq<AstView>, c: Seq<AstView>)
    requires
        seq_cmp(a, b) < 0,
        seq_cmp(b, c) < 0,
    ensures
        seq_cmp(a, c) < 0,
    decreases a, b, 0int,
{
    if a.len() > 0 && b.len() > 0 && c.len() > 0 {
        let hab = node_cmp(a[0], b[0]);
        let hbc = node_cmp(b[0], c[0]);
        lemma_node_cmp_zero(a[0], b[0]);
        lemma_node_cmp_zero(b[0], c[0]);
        if hab < 0 && hbc < 0 {
            lemma_node_cmp_trans(a[0], b[0], c[0]);
        }
        if hab == 0 && hbc == 0 {
            lemma_seq_cmp_trans(a.drop_first(), b.drop_first(), c.drop_first());
        }
    }
}

/// Transitivity of the strict part for entry sequences.
pub proof fn lemma_pairs_cmp_trans(
    a: Seq<(AstView, AstView)>,
    b: Seq<(AstView, AstView)>,
    c: Seq<(AstView, AstView)>,
)
    requires
        pairs_cmp(a, b) < 0,
        pairs_cmp(b, c) < 0,
    ensures
        pairs_cmp(a, c) < 0,
    decreases a, b, 0int,
{
    if a.len() > 0 && b.len() > 0 && c.len() > 0 {
        lemma_node_cmp_zero(a[0].0, b[0].0);
        lemma_node_cmp_zero(b[0].0, c[0].0);
        lemma_node_cmp_zero(a[0].1, b[0].1);
        lemma_node_cmp_zero(b[0].1, c[0].1);
        if node_cmp(a[0].0, b[0].0) < 0 && node_cmp(b[0].0, c[0].0) < 0 {
            lemma_node_cmp_trans(a[0].0, b[0].0, c[0].0);
        }
        if node_cmp(a[0].0, b[0].0) == 0 && node_cmp(b[0].0, c[0].0) == 0 {
            if node_cmp(a[0].1, b[0].1) < 0 && node_cmp(b[0].1, c[0].1) < 0 {
                lemma_node_cmp_trans(a[0].1, b[0].1, c[0].1);
            }
            if node_cmp(a[0].1, b[0].1) == 0 && node_cmp(b[0].1, c[0].1) == 0 {
                lemma_pairs_cmp_trans(a.drop_first(), b.drop_first(), c.drop_first());
            }
        }
    }
}

/// Transitivity of the strict part for field sequences.
pub proof fn lemma_fields_cmp_trans(
    a: Seq<(Seq<char>, AstView)>,
    b: Seq<(Seq<char>, AstView)>,
    c: Seq<(Seq<char>, AstView)>,
)
    requires
        fields_cmp(a, b) < 0,
        fields_cmp(b, c) < 0,
    ensures
        fields_cmp(a, c) < 0,
    decreases a, b, 0int,
{
    if a.len() > 0 && b.len() > 0 && c.len() > 0 {
        lemma_chars_cmp_zero(a[0].0, b[0].0);
        lemma_chars_cmp_zero(b[0].0, c[0].0);
        lemma_node_cmp_zero(a[0].1, b[0].1);
        lemma_node_cmp_zero(b[0].1, c[0].1);
        if chars_cmp(a[0].0, b[0].0) < 0 && chars_cmp(b[0].0, c[0].0) < 0 {
            lemma_chars_cmp_trans(a[0].0, b[0].0, c[0].0);
        }
        if chars_cmp(a[0].0, b[0].0) == 0 && chars_cmp(b[0].0, c[0].0) == 0 {
            if node_cmp(a[0].1, b[0].1) < 0 && node_cmp(b[0].1, c[0].1) < 0 {
                lemma_node_cmp_trans(a[0].1, b[0].1, c[0].1);
            }
            if node_cmp(a[0].1, b[0].1) == 0 && node_cmp(b[0].1, c[0].1) == 0 {
                lemma_fields_cmp_trans(a.drop_first(), b.drop_first(), c.drop_first());
            }
        }
    }
}

/// Comparison of texts is antisymmetric: swapping the sides flips the sign.
pub proof fn lemma_chars_cmp_antisym(a: Seq<char>, b: Seq<char>)
    ensures
        chars_cmp(a, b) == -chars_cmp(b, a),
    decreases a.len(),
{
    if a.len() > 0 && b.len() > 0 {
        if a[0] == b[0] {
            lemma_chars_cmp_antisym(a.drop_first(), b.drop_first());
        } else {
            vstd::utf8::char_u32_cast(a[0], a[0] as u32);
            vstd::utf8::char_u32_cast(b[0], b[0] as u32);
        }
    }
}

/// Comparison of trees is antisymmetric: swapping the sides flips the sign.
pub proof fn lemma_node_cmp_antisym(a: AstView, b: AstView)
    ensures
        node_cmp(a, b) == -node_cmp(b, a),
    decreases a, b, 1int,
{
    match (a, b) {
        (AstView::ItemList(x), AstView::ItemList(y)) => {
            lemma_seq_cmp_antisym(x, y);
        },
        (AstView::ItemMap(x), AstView::ItemMap(y)) => {
            lemma_pairs_cmp_antisym(x, y);
        },
        (AstView::ItemOption(x), AstView::ItemOption(y)) => {
            match (x, y) {
                (Option::Some(bx), Option::Some(by)) => {
                    lemma_node_cmp_antisym(*bx, *by);
                },
                _ => {},
            }
        },
        (AstView::ItemSet(x), AstView::ItemSet(y)) => {
            lemma_seq_cmp_antisym(x, y);
        },
        (AstView::ItemStruct(nx, fx), AstView::ItemStruct(ny, fy)) => {
            lemma_chars_cmp_antisym(nx, ny);
            lemma_fields_cmp_antisym(fx, fy);
        },
        (AstView::ItemTuple(x), AstView::ItemTuple(y)) => {
            lemma_seq_cmp_antisym(x, y);
        },
        (AstView::ItemTupleStruct(nx, ex), AstView::ItemTupleStruct(ny, ey)) => {
            lemma_chars_cmp_antisym(nx, ny);
            lemma_seq_cmp_antisym(ex, ey);
        },
        (AstView::ItemUnitStruct(x), AstView::ItemUnitStruct(y)) => {
            lemma_chars_cmp_antisym(x, y);
        },
        (AstView::ValueNum(x), AstView::ValueNum(y)) => {
            lemma_chars_cmp_antisym(x, y);
        },
        (AstView::ValueStr(x), AstView::ValueStr(y)) => {
            lemma_chars_cmp_antisym(x, y);
        },
        _ => {},
    }
}

/// Antisymmetry for tree sequences.
pub proof fn lemma_seq_cmp_antisym(a: Seq<AstView>, b: Seq<AstView>)
    ensures
        seq_cmp(a, b) == -seq_cmp(b, a),
    decreases a, b, 0int,
{
    if a.len() > 0 && b.len() > 0 {
        lemma_node_cmp_antisym(a[0], b[0]);
        if node_cmp(a[0], b[0]) == 0 {
            lemma_seq_cmp_antisym(a.drop_first(), b.drop_first());
        }
    }
}

/// Antisymmetry for entry sequences.
pub proof fn lemma_pairs_cmp_antisym(a: Seq<(AstView, AstView)>, b: Seq<(AstView, AstView)>)
    ensures
        pairs_cmp(a, b) == -pairs_cmp(b, a),
    decreases a, b, 0int,
{
    if a.len() > 0 && b.len() > 0 {
        lemma_node_cmp_antisym(a[0].0, b[0].0);
        lemma_node_cmp_antisym(a[0].1, b[0].1);
        if node_cmp(a[0].0, b[0].0) == 0 && node_cmp(a[0].1, b[0].1) == 0 {
            lemma_pairs_cmp_antisym(a.drop_first(), b.drop_first());
        }
    }
}

/// Antisymmetry for field sequences.
pub proof fn lemma_fields_cmp_antisym(a: Seq<(Seq<char>, AstView)>, b: Seq<(Seq<char>, AstView)>)
    ensures
        fields_cmp(a, b) == -fields_cmp(b, a),
    decreases a, b, 0int,
{
    if a.len() > 0 && b.len() > 0 {
        lemma_chars_cmp_antisym(a[0].0, b[0].0);
        lemma_node_cmp_antisym(a[0].1, b[0].1);
        if chars_cmp(a[0].0, b[0].0) == 0 && node_cmp(a[0].1, b[0].1) == 0 {
            lemma_fields_cmp_antisym(a.drop_first(), b.drop_first());
        }
    }
}

/// Insertion keeps the canonical order: putting an element into an
/// ascending duplicate-free sequence yields an ascending duplicate-free
/// sequence.
pub proof fn lemma_set_insert_sorted(s: Seq<AstView>, x: AstView)
    requires
        sorted_elems(s),
    ensures
        sorted_elems(set_insert(s, x)),
    decreases s.len(),
{
    if s.len() > 0 {
        let c = node_cmp(x, s[0]);
        if c < 0 {
            let r = seq![x] + s;
            assert forall|i: int| 0 <= i && i + 1 < r.len() implies #[trigger] node_cmp(
                r[i],
                r[i + 1],
            ) < 0 by {
                if i > 0 {
                    assert(r[i] == s[i - 1]);
                    assert(r[i + 1] == s[i]);
                    assert(node_cmp(s[i - 1], s[i]) < 0);
                }
            }
        } else if c > 0 {
            assert forall|i: int|
                0 <= i && i + 1 < s.drop_first().len() implies node_cmp(
                #[trigger] s.drop_first()[i],
                s.drop_first()[i + 1],
            ) < 0 by {
                assert(s.drop_first()[i] == s[i + 1]);
                assert(s.drop_first()[i + 1] == s[i + 2]);
                assert(node_cmp(s[i + 1], s[i + 2]) < 0);
            }
            lemma_set_insert_sorted(s.drop_first(), x);
            let d = s.drop_first();
            let tail = set_insert(d, x);
            let r = seq![s[0]] + tail;
            lemma_node_cmp_antisym(x, s[0]);
            assert(node_cmp(s[0], tail[0]) < 0) by {
                if d.len() == 0 {
                    assert(tail[0] == x);
                } else {
                    let c2 = node_cmp(x, d[0]);
                    if c2 < 0 {
                        assert(tail[0] == x);
                    } else {
                        assert(tail[0] == d[0]);
                        assert(d[0] == s[1]);
                        assert(node_cmp(s[0], s[1]) < 0);
                    }
                }
            }
            assert forall|i: int| 0 <= i && i + 1 < r.len() implies #[trigger] node_cmp(
                r[i],
                r[i + 1],
            ) < 0 by {
                if i > 0 {
                    assert(r[i] == tail[i - 1]);
                    assert(r[i + 1] == tail[i]);
                    assert(node_cmp(tail[i - 1], tail[i]) < 0);
                }
            }
        }
    }
}

/// Entry insertion keeps the canonical key order.
pub proof fn lemma_map_insert_sorted(s: Seq<(AstView, AstView)>, k: AstView, v: AstView)
    requires
        sorted_keys(s),
    ensures
        sorted_keys(map_insert(s, k, v)),
    decreases s.len(),
{
    if s.len() > 0 {
        let c = node_cmp(k, s[0].0);
        if c < 0 {
            let r = seq![(k, v)] + s;
            assert forall|i: int| 0 <= i && i + 1 < r.len() implies node_cmp(
                (#[trigger] r[i]).0,
                r[i + 1].0,
            ) < 0 by {
                if i > 0 {
                    assert(r[i] == s[i - 1]);
                    assert(r[i + 1] == s[i]);
                }
            }
        } else if c == 0 {
            lemma_node_cmp_zero(k, s[0].0);
            let r = seq![(k, v)] + s.drop_first();
            assert forall|i: int| 0 <= i && i + 1 < r.len() implies node_cmp(
                (#[trigger] r[i]).0,
                r[i + 1].0,
            ) < 0 by {
                if i == 0 {
                    assert(r[1] == s.drop_first()[0]);
                    assert(s.drop_first()[0] == s[1]);
                    assert(node_cmp(s[0].0, s[1].0) < 0);
                } else {
                    assert(r[i] == s.drop_first()[i - 1]);
                    assert(r[i + 1] == s.drop_first()[i]);
                    assert(s.drop_first()[i - 1] == s[i]);
                    assert(s.drop_first()[i] == s[i + 1]);
                    assert(node_cmp(s[i].0, s[i + 1].0) < 0);
                }
            }
        } else {
            assert forall|i: int|
                0 <= i && i + 1 < s.drop_first().len() implies node_cmp(
                (#[trigger] s.drop_first()[i]).0,
                s.drop_first()[i + 1].0,
            ) < 0 by {
                assert(s.drop_first()[i] == s[i + 1]);
                assert(s.drop_first()[i + 1] == s[i + 2]);
                assert(node_cmp(s[i + 1].0, s[i + 2].0) < 0);
            }
            lemma_map_insert_sorted(s.drop_first(), k, v);
            let d = s.drop_first();
            let tail = map_insert(d, k, v);
            let r = seq![s[0]] + tail;
            lemma_node_cmp_antisym(k, s[0].0);
            assert(node_cmp(s[0].0, tail[0].0) < 0) by {
                if d.len() == 0 {
                    assert(tail[0] == (k, v));
                } else {
                    let c2 = node_cmp(k, d[0].0);
                    if c2 > 0 {
                        assert(tail[0] == d[0]);
                        assert(d[0] == s[1]);
                        assert(node_cmp(s[0].0, s[1].0) < 0);
                    } else {
                        assert(tail[0] == (k, v));
                    }
                }
            }
            assert forall|i: int| 0 <= i && i + 1 < r.len() implies node_cmp(
                (#[trigger] r[i]).0,
                r[i + 1].0,
            ) < 0 by {
                if i > 0 {
                    assert(r[i] == tail[i - 1]);
                    assert(r[i + 1] == tail[i]);
                    assert(node_cmp(tail[i - 1].0, tail[i].0) < 0);
                }
            }
        }
    }
}

/// Field insertion keeps the canonical name order.
pub proof fn lemma_fields_insert_sorted(s: Seq<(Seq<char>, AstView)>, n: Seq<char>, v: AstView)
    requires
        sorted_names(s),
    ensures
        sorted_names(fields_insert(s, n, v)),
    decreases s.len(),
{
    if s.len() > 0 {
        let c = chars_cmp(n, s[0].0);
        if c < 0 {
            let r = seq![(n, v)] + s;
            assert forall|i: int| 0 <= i && i + 1 < r.len() implies chars_cmp(
                (#[trigger] r[i]).0,
                r[i + 1].0,
            ) < 0 by {
                if i > 0 {
                    assert(r[i] == s[i - 1]);
                    assert(r[i + 1] == s[i]);
                }
            }
        } else if c == 0 {
            lemma_chars_cmp_zero(n, s[0].0);
            let r = seq![(n, v)] + s.drop_first();
            assert forall|i: int| 0 <= i && i + 1 < r.len() implies chars_cmp(
                (#[trigger] r[i]).0,
                r[i + 1].0,
            ) < 0 by {
                if i == 0 {
                    assert(r[1] == s.drop_first()[0]);
                    assert(s.drop_first()[0] == s[1]);
                    assert(chars_cmp(s[0].0, s[1].0) < 0);
                } else {
                    assert(r[i] == s.drop_first()[i - 1]);
                    assert(r[i + 1] == s.drop_first()[i]);
                    assert(s.drop_first()[i - 1] == s[i]);
                    assert(s.drop_first()[i] == s[i + 1]);
                    assert(chars_cmp(s[i].0, s[i + 1].0) < 0);
                }
            }
        } else {
            assert forall|i: int|
                0 <= i && i + 1 < s.drop_first().len() implies chars_cmp(
                (#[trigger] s.drop_first()[i]).0,
                s.drop_first()[i + 1].0,
            ) < 0 by {
                assert(s.drop_first()[i] == s[i + 1]);
                assert(s.drop_first()[i + 1] == s[i + 2]);
                assert(chars_cmp(s[i + 1].0, s[i + 2].0) < 0);
            }
            lemma_fields_insert_sorted(s.drop_first(), n, v);
            let d = s.drop_first();
            let tail = fields_insert(d, n, v);
            let r = seq![s[0]] + tail;
            lemma_chars_cmp_antisym(n, s[0].0);
            assert(chars_cmp(s[0].0, tail[0].0) < 0) by {
                if d.len() == 0 {
                    assert(tail[0] == (n, v));
                } else {
                    let c2 = chars_cmp(n, d[0].0);
                    if c2 > 0 {
                        assert(tail[0] == d[0]);
                        assert(d[0] == s[1]);
                        assert(chars_cmp(s[0].0, s[1].0) < 0);
                    } else {
                        assert(tail[0] == (n, v));
                    }
                }
            }
            assert forall|i: int| 0 <= i && i + 1 < r.len() implies chars_cmp(
                (#[trigger] r[i]).0,
                r[i + 1].0,
            ) < 0 by {
                if i > 0 {
                    assert(r[i] == tail[i - 1]);
                    assert(r[i + 1] == tail[i]);
                    assert(chars_cmp(tail[i - 1].0, tail[i].0) < 0);
                }
            }
        }
    }
}

/// Where the scan for an element's place stops, the recursive insertion
/// does its work: an equal element at that place leaves the sequence as it
/// was, and otherwise the element is placed exactly there.
pub proof fn lemma_set_insert_at(s: Seq<AstView>, x: AstView, idx: int)
    requires
        0 <= idx <= s.len(),
        forall|t: int| 0 <= t < idx ==> node_cmp(x, #[trigger] s[t]) > 0,
        idx < s.len() ==> node_cmp(x, s[idx]) <= 0,
    ensures
        (idx < s.len() && node_cmp(x, s[idx]) == 0) ==> set_insert(s, x) == s,
        (idx == s.len() || node_cmp(x, s[idx]) < 0) ==> set_insert(s, x) == s.take(idx)
            + seq![x] + s.skip(idx),
    decreases idx,
{
    if idx == 0 {
        if s.len() == 0 || node_cmp(x, s[0]) < 0 {
            assert(s.take(0) + seq![x] + s.skip(0) =~= seq![x] + s);
            if s.len() == 0 {
                assert(seq![x] + s =~= seq![x]);
            }
        }
    } else {
        assert(node_cmp(x, s[0]) > 0);
        let d = s.drop_first();
        assert forall|t: int| 0 <= t < idx - 1 implies node_cmp(x, #[trigger] d[t]) > 0 by {
            assert(d[t] == s[t + 1]);
        }
        assert(idx - 1 < d.len() ==> d[idx - 1] == s[idx]);
        lemma_set_insert_at(d, x, idx - 1);
        if idx < s.len() && node_cmp(x, s[idx]) == 0 {
            assert(seq![s[0]] + d =~= s);
        } else {
            assert(seq![s[0]] + (d.take(idx - 1) + seq![x] + d.skip(idx - 1)) =~= s.take(idx)
                + seq![x] + s.skip(idx));
        }
    }
}

/// The same placement fact for entry sequences, with replacement on an
/// equal key.
pub proof fn lemma_map_insert_at(s: Seq<(AstView, AstView)>, k: AstView, v: AstView, idx: int)
    requires
        0 <= idx <= s.len(),
        forall|t: int| 0 <= t < idx ==> node_cmp(k, (#[trigger] s[t]).0) > 0,
        idx < s.len() ==> node_cmp(k, s[idx].0) <= 0,
    ensures
        (idx < s.len() && node_cmp(k, s[idx].0) == 0) ==> map_insert(s, k, v) == s.take(idx)
            + seq![(k, v)] + s.skip(idx + 1),
        (idx == s.len() || node_cmp(k, s[idx].0) < 0) ==> map_insert(s, k, v) == s.take(idx)
            + seq![(k, v)] + s.skip(idx),
    decreases idx,
{
    if idx == 0 {
        if s.len() > 0 && node_cmp(k, s[0].0) == 0 {
            assert(s.take(0) + seq![(k, v)] + s.skip(1) =~= seq![(k, v)] + s.drop_first());
        } else {
            assert(s.take(0) + seq![(k, v)] + s.skip(0) =~= seq![(k, v)] + s);
            if s.len() == 0 {
                assert(seq![(k, v)] + s =~= seq![(k, v)]);
            }
        }
    } else {
        assert(node_cmp(k, s[0].0) > 0);
        let d = s.drop_first();
        assert forall|t: int| 0 <= t < idx - 1 implies node_cmp(k, (#[trigger] d[t]).0) > 0 by {
            assert(d[t] == s[t + 1]);
        }
        assert(idx - 1 < d.len() ==> d[idx - 1] == s[idx]);
        lemma_map_insert_at(d, k, v, idx - 1);
        if idx < s.len() && node_cmp(k, s[idx].0) == 0 {
            assert(seq![s[0]] + (d.take(idx - 1) + seq![(k, v)] + d.skip(idx)) =~= s.take(idx)
                + seq![(k, v)] + s.skip(idx + 1));
        } else {
            assert(seq![s[0]] + (d.take(idx - 1) + seq![(k, v)] + d.skip(idx - 1)) =~= s.take(idx)
                + seq![(k, v)] + s.skip(idx));
        }
    }
}

/// The same placement fact for field sequences, with replacement on an
/// equal name.
pub proof fn lemma_fields_insert_at(s: Seq<(Seq<char>, AstView)>, n: Seq<char>, v: AstView, idx: int)
    requires
        0 <= idx <= s.len(),
        forall|t: int| 0 <= t < idx ==> chars_cmp(n, (#[trigger] s[t]).0) > 0,
        idx < s.len() ==> chars_cmp(n, s[idx].0) <= 0,
    ensures
        (idx < s.len() && chars_cmp(n, s[idx].0) == 0) ==> fields_insert(s, n, v) == s.take(idx)
            + seq![(n, v)] + s.skip(idx + 1),
        (idx == s.len() || chars_cmp(n, s[idx].0) < 0) ==> fields_insert(s, n, v) == s.take(idx)
            + seq![(n, v)] + s.skip(idx),
    decreases idx,
{
    if idx == 0 {
        if s.len() > 0 && chars_cmp(n, s[0].0) == 0 {
            assert(s.take(0) + seq![(n, v)] + s.skip(1) =~= seq![(n, v)] + s.drop_first());
        } else {
            assert(s.take(0) + seq![(n, v)] + s.skip(0) =~= seq![(n, v)] + s);
            if s.len() == 0 {
                assert(seq![(n, v)] + s =~= seq![(n, v)]);
            }
        }
    } else {
        assert(chars_cmp(n, s[0].0) > 0);
        let d = s.drop_first();
        assert forall|t: int| 0 <= t < idx - 1 implies chars_cmp(n, (#[trigger] d[t]).0) > 0 by {
            assert(d[t] == s[t + 1]);
        }
        assert(idx - 1 < d.len() ==> d[idx - 1] == s[idx]);
        lemma_fields_insert_at(d, n, v, idx - 1);
        if idx < s.len() && chars_cmp(n, s[idx].0) == 0 {
            assert(seq![s[0]] + (d.take(idx - 1) + seq![(n, v)] + d.skip(idx)) =~= s.take(idx)
                + seq![(n, v)] + s.skip(idx + 1));
        } else {
            assert(seq![s[0]] + (d.take(idx - 1) + seq![(n, v)] + d.skip(idx - 1)) =~= s.take(idx)
                + seq![(n, v)] + s.skip(idx));
        }
    }
}

/// Three-way comparison of two strings by their text.
pub(crate) fn cmp_str(a: &str, b: &str) -> (r: i8)
    ensures
        r as int == chars_cmp(a@, b@),
{
    let alen = a.unicode_len();
    let blen = b.unicode_len();
    let mut i: usize = 0;
    proof {
        assert(a@.skip(0) =~= a@);
        assert(b@.skip(0) =~= b@);
    }
    loop
        invariant
            i <= alen,
            i <= blen,
            alen == a@.len(),
            blen == b@.len(),
            chars_cmp(a@, b@) == chars_cmp(a@.skip(i as int), b@.skip(i as int)),
        decreases alen - i,
    {
        if i == alen && i == blen {
            return 0;
        }
        if i == alen {
            return -1;
        }
        if i == blen {
            return 1;
        }
        let ca = a.get_char(i);
        let cb = b.get_char(i);
        proof {
            assert(a@.skip(i as int)[0] == a@[i as int]);
            assert(b@.skip(i as int)[0] == b@[i as int]);
        }
        if ca != cb {
            if (ca as u32) < (cb as u32) {
                return -1;
            } else {
                return 1;
            }
        }
        proof {
            assert(a@.skip(i as int).drop_first() =~= a@.skip(i as int + 1));
            assert(b@.skip(i as int).drop_first() =~= b@.skip(i as int + 1));
        }
        i = i + 1;
    }
}

/// Rank of a tree's variant, as `variant_rank` gives it.
fn rank_of(x: &AstItem) -> (r: u8)
    ensures
        r as int == variant_rank(x@),
{
    match x {
        AstItem::ItemList(_) => 0,
        AstItem::ItemMap(_) => 1,
        AstItem::ItemOption(_) => 2,
        AstItem::ItemSet(_) => 3,
        AstItem::ItemStruct(_) => 4,
        AstItem::ItemTuple(_) => 5,
        AstItem::ItemTupleStruct(_) => 6,
        AstItem::ItemUnitStruct(_) => 7,
        AstItem::ValueBool(_) => 8,
        AstItem::ValueNum(_) => 9,
        AstItem::ValueStr(_) => 10,
    }
}

/// Three-way comparison of two trees under the total order over trees.
pub fn cmp_ast(lhs: &AstItem, rhs: &AstItem) -> (r: i8)
    ensures
        r as int == node_cmp(lhs@, rhs@),
    decreases *lhs, *rhs, 1int,
{
    match (lhs, rhs) {
        (AstItem::ItemList(x), AstItem::ItemList(y)) => cmp_items(&x.0, &y.0),
        (AstItem::ItemMap(x), AstItem::ItemMap(y)) => cmp_pairs(&x.0, &y.0),
        (AstItem::ItemOption(x), AstItem::ItemOption(y)) => match (&x.0, &y.0) {
            (Option::None, Option::None) => 0,
            (Option::None, Option::Some(_)) => -1,
            (Option::Some(_), Option::None) => 1,
            (Option::Some(bx), Option::Some(by)) => cmp_ast(bx, by),
        },
        (AstItem::ItemSet(x), AstItem::ItemSet(y)) => cmp_items(&x.0, &y.0),
        (AstItem::ItemStruct(x), AstItem::ItemStruct(y)) => {
            let c = cmp_str(x.0.as_str(), y.0.as_str());
            if c != 0 {
                c
            } else {
                cmp_fields(&x.1, &y.1)
            }
        },
        (AstItem::ItemTuple(x), AstItem::ItemTuple(y)) => cmp_items(&x.0, &y.0),
        (AstItem::ItemTupleStruct(x), AstItem::ItemTupleStruct(y)) => {
            let c = cmp_str(x.0.as_str(), y.0.as_str());
            if c != 0 {
                c
            } else {
                cmp_items(&x.1, &y.1)
            }
        },
        (AstItem::ItemUnitStruct(x), AstItem::ItemUnitStruct(y)) => cmp_str(
            x.0.as_str(),
            y.0.as_str(),
        ),
        (AstItem::ValueBool(x), AstItem::ValueBool(y)) => {
            if x.0 == y.0 {
                0
            } else if !x.0 {
                -1
            } else {
                1
            }
        },
        (AstItem::ValueNum(x), AstItem::ValueNum(y)) => cmp_str(x.0.as_str(), y.0.as_str()),
        (AstItem::ValueStr(x), AstItem::ValueStr(y)) => cmp_str(x.0.as_str(), y.0.as_str()),
        _ => {
            let ra = rank_of(lhs);
            let rb = rank_of(rhs);
            if ra < rb {
                -1
            } else {
                1
            }
        },
    }
}

/// Lexicographic three-way comparison of two tree vectors.
fn cmp_items(a: &Vec<AstItem>, b: &Vec<AstItem>) -> (r: i8)
    ensures
        r as int == seq_cmp(seq_view(a@), seq_view(b@)),
    decreases a@, b@, 0int,
{
    let mut i: usize = 0;
    proof {
        assert(seq_view(a@).skip(0) =~= seq_view(a@));
        assert(seq_view(b@).skip(0) =~= seq_view(b@));
    }
    loop
        invariant
            i <= a.len(),
            i <= b.len(),
            seq_cmp(seq_view(a@), seq_view(b@)) == seq_cmp(
                seq_view(a@).skip(i as int),
                seq_view(b@).skip(i as int),
            ),
        decreases a.len() - i,
    {
        if i == a.len() && i == b.len() {
            return 0;
        }
        if i == a.len() {
            return -1;
        }
        if i == b.len() {
            return 1;
        }
        proof {
            assert(seq_view(a@).skip(i as int)[0] == seq_view(a@)[i as int]);
            assert(seq_view(b@).skip(i as int)[0] == seq_view(b@)[i as int]);
        }
        let c = cmp_ast(&a[i], &b[i]);
        if c != 0 {
            return c;
        }
        proof {
            assert(seq_view(a@).skip(i as int).drop_first() =~= seq_view(a@).skip(i as int + 1));
            assert(seq_view(b@).skip(i as int).drop_first() =~= seq_view(b@).skip(i as int + 1));
        }
        i = i + 1;
    }
}

/// Lexicographic three-way comparison of two entry vectors.
fn cmp_pairs(a: &Vec<(AstItem, AstItem)>, b: &Vec<(AstItem, AstItem)>) -> (r: i8)
    ensures
        r as int == pairs_cmp(pairs_view(a@), pairs_view(b@)),
    decreases a@, b@, 0int,
{
    let mut i: usize = 0;
    proof {
        assert(pairs_view(a@).skip(0) =~= pairs_view(a@));
        assert(pairs_view(b@).skip(0) =~= pairs_view(b@));
    }
    loop
        invariant
            i <= a.len(),
            i <= b.len(),
            pairs_cmp(pairs_view(a@), pairs_view(b@)) == pairs_cmp(
                pairs_view(a@).skip(i as int),
                pairs_view(b@).skip(i as int),
            ),
        decreases a.len() - i,
    {
        if i == a.len() && i == b.len() {
            return 0;
        }
        if i == a.len() {
            return -1;
        }
        if i == b.len() {
            return 1;
        }
        proof {
            assert(pairs_view(a@).skip(i as int)[0] == pairs_view(a@)[i as int]);
            assert(pairs_view(b@).skip(i as int)[0] == pairs_view(b@)[i as int]);
        }
        let c = cmp_ast(&a[i].0, &b[i].0);
        if c != 0 {
            return c;
        }
        let c = cmp_ast(&a[i].1, &b[i].1);
        if c != 0 {
            return c;
        }
        proof {
            assert(pairs_view(a@).skip(i as int).drop_first() =~= pairs_view(a@).skip(i as int + 1));
            assert(pairs_view(b@).skip(i as int).drop_first() =~= pairs_view(b@).skip(i as int + 1));
        }
        i = i + 1;
    }
}

/// Lexicographic three-way comparison of two field vectors.
fn cmp_fields(a: &Vec<(String, AstItem)>, b: &Vec<(String, AstItem)>) -> (r: i8)
    ensures
        r as int == fields_cmp(fields_view(a@), fields_view(b@)),
    decreases a@, b@, 0int,
{
    let mut i: usize = 0;
    proof {
        assert(fields_view(a@).skip(0) =~= fields_view(a@));
        assert(fields_view(b@).skip(0) =~= fields_view(b@));
    }
    loop
        invariant
            i <= a.len(),
            i <= b.len(),
            fields_cmp(fields_view(a@), fields_view(b@)) == fields_cmp(
                fields_view(a@).skip(i as int),
                fields_view(b@).skip(i as int),
            ),
        decreases a.len() - i,
    {
        if i == a.len() && i == b.len() {
            return 0;
        }
        if i == a.len() {
            return -1;
        }
        if i == b.len() {
            return 1;
        }
        proof {
            assert(fields_view(a@).skip(i as int)[0] == fields_view(a@)[i as int]);
            assert(fields_view(b@).skip(i as int)[0] == fields_view(b@)[i as int]);
        }
        let c = cmp_str(a[i].0.as_str(), b[i].0.as_str());
        if c != 0 {
            return c;
        }
        let c = cmp_ast(&a[i].1, &b[i].1);
        if c != 0 {
            return c;
        }
        proof {
            assert(fields_view(a@).skip(i as int).drop_first() =~= fields_view(a@).skip(
                i as int + 1,
            ));
            assert(fields_view(b@).skip(i as int).drop_first() =~= fields_view(b@).skip(
                i as int + 1,
            ));
        }
        i = i + 1;
    }
}

} // verus!
