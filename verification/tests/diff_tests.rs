use ast_diff::find_diff;
use ast_diff::AstItem;
use ast_diff::DiffItem;
use ast_diff::DiffPathSegment;
use ast_diff::DiffPayload;
use ast_diff::ItemList;
use ast_diff::ItemMap;
use ast_diff::ItemOption;
use ast_diff::ItemSet;
use ast_diff::ItemStruct;
use ast_diff::ItemTuple;
use ast_diff::ItemTupleStruct;
use ast_diff::ItemUnitStruct;
use ast_diff::ValueBool;
use ast_diff::ValueNum;
use ast_diff::ValueStr;
use ast_diff::order::cmp_ast;

fn boolean(b: bool) -> AstItem {
    AstItem::ValueBool(ValueBool(b))
}

fn num(text: &str) -> AstItem {
    AstItem::ValueNum(ValueNum(text.to_owned()))
}

fn string(text: &str) -> AstItem {
    AstItem::ValueStr(ValueStr(text.to_owned()))
}

fn unit(name: &str) -> AstItem {
    AstItem::ItemUnitStruct(ItemUnitStruct(name.to_owned()))
}

fn list(items: Vec<AstItem>) -> AstItem {
    AstItem::ItemList(ItemList(items))
}

fn tuple(items: Vec<AstItem>) -> AstItem {
    AstItem::ItemTuple(ItemTuple(items))
}

fn tuple_struct(name: &str, items: Vec<AstItem>) -> AstItem {
    AstItem::ItemTupleStruct(ItemTupleStruct(name.to_owned(), items))
}

fn set_of(items: Vec<AstItem>) -> AstItem {
    let mut s = ItemSet::new();
    for item in items {
        s.insert(item);
    }
    AstItem::ItemSet(s)
}

fn map_of(entries: Vec<(AstItem, AstItem)>) -> AstItem {
    let mut m = ItemMap::new();
    for (k, v) in entries {
        m.insert(k, v);
    }
    AstItem::ItemMap(m)
}

fn struct_of(name: &str, fields: Vec<(&str, AstItem)>) -> AstItem {
    let mut s = ItemStruct::new(name.to_owned());
    for (field_name, value) in fields {
        s.insert_field(field_name.to_owned(), value);
    }
    AstItem::ItemStruct(s)
}

fn some_of(inner: AstItem) -> AstItem {
    AstItem::ItemOption(ItemOption(Some(Box::new(inner))))
}

fn none_item() -> AstItem {
    AstItem::ItemOption(ItemOption(None))
}

fn record(path: Vec<DiffPathSegment>, diff: DiffPayload) -> DiffItem {
    DiffItem { path, diff }
}

#[test]
fn equal_booleans_yield_nothing() {
    let diff = find_diff(&boolean(true), &boolean(true));
    assert_eq!(diff, Vec::new());
}

#[test]
fn unequal_booleans_yield_one_leaf_mismatch() {
    let diff = find_diff(&boolean(true), &boolean(false));
    assert_eq!(
        diff,
        vec![record(
            vec![],
            DiffPayload::ValueBool(ValueBool(true), ValueBool(false)),
        )]
    );
}

#[test]
fn unequal_unit_structs_yield_one_shape_mismatch() {
    let diff = find_diff(&unit("Red"), &unit("Blue"));
    assert_eq!(
        diff,
        vec![record(
            vec![],
            DiffPayload::ItemUnitStruct(
                ItemUnitStruct("Red".to_owned()),
                ItemUnitStruct("Blue".to_owned()),
            ),
        )]
    );
}

#[test]
fn struct_field_difference_is_reported_under_the_field_name() {
    let left = struct_of("Point", vec![("x", num("1")), ("y", num("2"))]);
    let right = struct_of("Point", vec![("x", num("1")), ("y", num("3"))]);
    let diff = find_diff(&left, &right);
    assert_eq!(
        diff,
        vec![record(
            vec![DiffPathSegment::Field("y".to_owned())],
            DiffPayload::ValueNum(ValueNum("2".to_owned()), ValueNum("3".to_owned())),
        )]
    );
}

#[test]
fn renamed_tuple_struct_yields_one_shape_mismatch() {
    let left = tuple_struct("A", vec![num("1")]);
    let right = tuple_struct("B", vec![num("1")]);
    let diff = find_diff(&left, &right);
    assert_eq!(diff.len(), 1);
    assert_eq!(diff[0].path, Vec::<DiffPathSegment>::new());
    assert!(matches!(diff[0].diff, DiffPayload::ItemTupleStruct(_, _)));
}

#[test]
fn list_merge_walk_reports_both_sides_as_removals() {
    let left = list(vec![num("1"), num("2"), num("3")]);
    let right = list(vec![num("1"), num("2"), num("4")]);
    let diff = find_diff(&left, &right);
    assert_eq!(
        diff,
        vec![
            record(vec![], DiffPayload::RemovedAt(2, num("3"))),
            record(vec![], DiffPayload::RemovedAt(3, num("4"))),
        ]
    );
}

#[test]
fn set_merge_walk_splits_insertions_and_removals() {
    let left = set_of(vec![num("1"), num("3")]);
    let right = set_of(vec![num("1"), num("2")]);
    let diff = find_diff(&left, &right);
    assert_eq!(
        diff,
        vec![
            record(vec![], DiffPayload::InsertedAt(1, num("2"))),
            record(vec![], DiffPayload::RemovedAt(2, num("3"))),
        ]
    );
}

#[test]
fn map_difference_recurses_under_the_key_and_reports_one_sided_pairs() {
    let left = map_of(vec![(string("a"), num("1"))]);
    let right = map_of(vec![(string("a"), num("2")), (string("b"), num("3"))]);
    let diff = find_diff(&left, &right);
    assert_eq!(
        diff,
        vec![
            record(
                vec![DiffPathSegment::Key(string("a"))],
                DiffPayload::ValueNum(ValueNum("1".to_owned()), ValueNum("2".to_owned())),
            ),
            record(vec![], DiffPayload::InsertedPair(string("b"), num("3"))),
        ]
    );
}

#[test]
fn map_pair_only_on_the_left_is_a_removed_pair() {
    let left = map_of(vec![(string("a"), num("1")), (string("b"), num("2"))]);
    let right = map_of(vec![(string("a"), num("1"))]);
    let diff = find_diff(&left, &right);
    assert_eq!(
        diff,
        vec![record(vec![], DiffPayload::RemovedPair(string("b"), num("2")))]
    );
}

#[test]
fn different_variants_yield_one_type_mismatch() {
    let left = boolean(true);
    let right = list(vec![num("1")]);
    let diff = find_diff(&left, &right);
    assert_eq!(
        diff,
        vec![record(vec![], DiffPayload::AstItem(boolean(true), list(vec![num("1")])))]
    );
}

#[test]
fn option_filled_only_on_the_left_is_a_removal_at_zero() {
    let diff = find_diff(&some_of(num("7")), &none_item());
    assert_eq!(diff, vec![record(vec![], DiffPayload::RemovedAt(0, num("7")))]);
}

#[test]
fn option_filled_only_on_the_right_is_an_insertion_at_zero() {
    let diff = find_diff(&none_item(), &some_of(num("7")));
    assert_eq!(diff, vec![record(vec![], DiffPayload::InsertedAt(0, num("7")))]);
}

#[test]
fn option_contents_are_compared_at_the_same_path() {
    let diff = find_diff(&some_of(num("7")), &some_of(num("8")));
    assert_eq!(
        diff,
        vec![record(
            vec![],
            DiffPayload::ValueNum(ValueNum("7".to_owned()), ValueNum("8".to_owned())),
        )]
    );
}

#[test]
fn empty_options_and_empty_collections_are_equal() {
    assert_eq!(find_diff(&none_item(), &none_item()), Vec::new());
    assert_eq!(find_diff(&list(vec![]), &list(vec![])), Vec::new());
    assert_eq!(find_diff(&tuple(vec![]), &tuple(vec![])), Vec::new());
    assert_eq!(find_diff(&set_of(vec![]), &set_of(vec![])), Vec::new());
    assert_eq!(find_diff(&map_of(vec![]), &map_of(vec![])), Vec::new());
}

#[test]
fn reflexivity_on_a_nested_tree() {
    let tree = struct_of(
        "Outer",
        vec![
            ("items", list(vec![num("1"), string("two"), boolean(false)])),
            ("mapping", map_of(vec![(num("1"), some_of(unit("Leaf")))])),
            ("pair", tuple(vec![num("-1.5"), tuple_struct("Wrap", vec![string("x")])])),
        ],
    );
    assert_eq!(find_diff(&tree, &tree), Vec::new());
}

#[test]
fn equality_coincidence_on_equal_and_unequal_trees() {
    let left = map_of(vec![(num("1"), list(vec![num("2"), num("3")]))]);
    let same = map_of(vec![(num("1"), list(vec![num("2"), num("3")]))]);
    let other = map_of(vec![(num("1"), list(vec![num("2"), num("4")]))]);
    assert_eq!(find_diff(&left, &same), Vec::new());
    assert!(!find_diff(&left, &other).is_empty());
}

#[test]
fn determinism_on_repeated_calls() {
    let left = struct_of("P", vec![("a", set_of(vec![num("1"), num("2")]))]);
    let right = struct_of("P", vec![("a", set_of(vec![num("2"), num("3")]))]);
    let first = find_diff(&left, &right);
    let second = find_diff(&left, &right);
    assert_eq!(first, second);
}

#[test]
fn struct_pass_through_compares_fields_independently() {
    let left = struct_of("Point", vec![("x", num("1")), ("y", num("2"))]);
    let right = struct_of("Point", vec![("x", num("9")), ("y", num("8"))]);
    let diff = find_diff(&left, &right);
    assert_eq!(
        diff,
        vec![
            record(
                vec![DiffPathSegment::Field("x".to_owned())],
                DiffPayload::ValueNum(ValueNum("1".to_owned()), ValueNum("9".to_owned())),
            ),
            record(
                vec![DiffPathSegment::Field("y".to_owned())],
                DiffPayload::ValueNum(ValueNum("2".to_owned()), ValueNum("8".to_owned())),
            ),
        ]
    );
}

#[test]
fn struct_name_mismatch_is_one_shape_record_without_recursion() {
    let left = struct_of("Point", vec![("x", num("1"))]);
    let right = struct_of("Pt", vec![("x", num("2"))]);
    let diff = find_diff(&left, &right);
    assert_eq!(diff.len(), 1);
    assert!(matches!(diff[0].diff, DiffPayload::ItemStruct(_, _)));
}

#[test]
fn struct_field_name_mismatch_is_one_shape_record() {
    let left = struct_of("Point", vec![("x", num("1"))]);
    let right = struct_of("Point", vec![("y", num("1"))]);
    let diff = find_diff(&left, &right);
    assert_eq!(diff.len(), 1);
    assert!(matches!(diff[0].diff, DiffPayload::ItemStruct(_, _)));
}

#[test]
fn struct_field_superset_gap_is_preserved() {
    // Documented behaviour: the shape check pairs field names only up to the
    // shorter field sequence, so extra fields on one side go unreported.
    let left = struct_of("Point", vec![("x", num("1")), ("y", num("2"))]);
    let right = struct_of("Point", vec![("x", num("1"))]);
    assert_eq!(find_diff(&left, &right), Vec::new());
}

#[test]
fn tuple_arity_gate_reports_once_and_never_descends() {
    let left = tuple(vec![num("1"), num("2")]);
    let right = tuple(vec![num("9")]);
    let diff = find_diff(&left, &right);
    assert_eq!(
        diff,
        vec![record(
            vec![],
            DiffPayload::ItemTuple(
                ItemTuple(vec![num("1"), num("2")]),
                ItemTuple(vec![num("9")]),
            ),
        )]
    );
}

#[test]
fn tuple_struct_arity_gate_reports_once() {
    let left = tuple_struct("A", vec![num("1")]);
    let right = tuple_struct("A", vec![num("1"), num("2")]);
    let diff = find_diff(&left, &right);
    assert_eq!(diff.len(), 1);
    assert!(matches!(diff[0].diff, DiffPayload::ItemTupleStruct(_, _)));
}

#[test]
fn tuple_elements_are_compared_under_their_index() {
    let left = tuple(vec![num("1"), num("2")]);
    let right = tuple(vec![num("1"), num("5")]);
    let diff = find_diff(&left, &right);
    assert_eq!(
        diff,
        vec![record(
            vec![DiffPathSegment::Index(1, 1)],
            DiffPayload::ValueNum(ValueNum("2".to_owned()), ValueNum("5".to_owned())),
        )]
    );
}

#[test]
fn nested_difference_carries_the_whole_path() {
    let left = struct_of("Outer", vec![("pos", tuple(vec![num("1"), num("2")]))]);
    let right = struct_of("Outer", vec![("pos", tuple(vec![num("1"), num("3")]))]);
    let diff = find_diff(&left, &right);
    assert_eq!(
        diff,
        vec![record(
            vec![
                DiffPathSegment::Field("pos".to_owned()),
                DiffPathSegment::Index(1, 1),
            ],
            DiffPayload::ValueNum(ValueNum("2".to_owned()), ValueNum("3".to_owned())),
        )]
    );
}

#[test]
fn number_literals_compare_as_text_not_as_numbers() {
    let diff = find_diff(&num("1"), &num("1.0"));
    assert_eq!(diff.len(), 1);
    assert!(matches!(diff[0].diff, DiffPayload::ValueNum(_, _)));
}

#[test]
fn string_leaves_compare_by_content() {
    let diff = find_diff(&string("héllo"), &string("hello"));
    assert_eq!(diff.len(), 1);
    assert_eq!(find_diff(&string("héllo"), &string("héllo")), Vec::new());
}

#[test]
fn set_insert_keeps_ascending_order_and_drops_duplicates() {
    let mut s = ItemSet::new();
    s.insert(num("3"));
    s.insert(num("1"));
    s.insert(num("2"));
    s.insert(num("2"));
    assert_eq!(s.0, vec![num("1"), num("2"), num("3")]);
}

#[test]
fn map_insert_keeps_key_order_and_replaces_on_an_equal_key() {
    let mut m = ItemMap::new();
    m.insert(string("b"), num("1"));
    m.insert(string("a"), num("2"));
    m.insert(string("b"), num("3"));
    assert_eq!(
        m.0,
        vec![(string("a"), num("2")), (string("b"), num("3"))]
    );
}

#[test]
fn struct_fields_are_kept_in_ascending_name_order() {
    let mut s = ItemStruct::new("Point".to_owned());
    s.insert_field("y".to_owned(), num("2"));
    s.insert_field("x".to_owned(), num("1"));
    s.insert_field("y".to_owned(), num("9"));
    assert_eq!(s.0, "Point".to_owned());
    assert_eq!(
        s.1,
        vec![("x".to_owned(), num("1")), ("y".to_owned(), num("9"))]
    );
}

#[test]
fn list_tail_only_on_the_right_is_still_reported_as_removals() {
    let left = list(vec![num("1")]);
    let right = list(vec![num("1"), num("2"), num("3")]);
    let diff = find_diff(&left, &right);
    assert_eq!(
        diff,
        vec![
            record(vec![], DiffPayload::RemovedAt(1, num("2"))),
            record(vec![], DiffPayload::RemovedAt(2, num("3"))),
        ]
    );
}

#[test]
fn map_keys_of_different_variants_never_match() {
    let left = map_of(vec![(num("1"), boolean(true))]);
    let right = map_of(vec![(string("1"), boolean(true))]);
    let diff = find_diff(&left, &right);
    assert_eq!(
        diff,
        vec![
            record(vec![], DiffPayload::RemovedPair(num("1"), boolean(true))),
            record(vec![], DiffPayload::InsertedPair(string("1"), boolean(true))),
        ]
    );
}

#[test]
fn structs_with_no_fields_compare_by_name_alone() {
    let left = struct_of("Marker", vec![]);
    let same = struct_of("Marker", vec![]);
    let other = struct_of("Other", vec![]);
    assert_eq!(find_diff(&left, &same), Vec::new());
    assert_eq!(find_diff(&left, &other).len(), 1);
}

#[test]
fn total_order_ranks_variants_then_contents() {
    // Variant rank: list < map < option < set < struct < tuple
    // < tuple struct < unit struct < bool < number < string.
    assert!(cmp_ast(&list(vec![]), &map_of(vec![])) < 0);
    assert!(cmp_ast(&map_of(vec![]), &none_item()) < 0);
    assert!(cmp_ast(&none_item(), &set_of(vec![])) < 0);
    assert!(cmp_ast(&unit("A"), &boolean(false)) < 0);
    assert!(cmp_ast(&boolean(false), &boolean(true)) < 0);
    assert!(cmp_ast(&num("1"), &num("1.0")) < 0);
    assert!(cmp_ast(&string("a"), &string("ab")) < 0);
    assert!(cmp_ast(&string("b"), &string("ab")) > 0);
    assert_eq!(cmp_ast(&num("1.0"), &num("1.0")), 0);
    assert!(cmp_ast(&list(vec![num("1")]), &list(vec![num("1"), num("2")])) < 0);
    assert!(cmp_ast(&none_item(), &some_of(num("0"))) < 0);
}

#[test]
fn cloned_trees_and_records_are_equal_to_their_originals() {
    let tree = struct_of(
        "Outer",
        vec![("items", list(vec![num("1"), some_of(string("s"))]))],
    );
    assert_eq!(tree.clone(), tree);
    let diff = find_diff(&tree, &num("0"));
    assert_eq!(diff.clone(), diff);
}
