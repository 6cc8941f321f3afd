//! Structural diffing of parsed value trees.
//!
//! The crate models nested structured values (lists, maps, sets, optional
//! slots, named structs, tuples, named tuple structs, bare identifiers and
//! boolean / number / string leaves) as a recursive sum type, defines a
//! total order over it, and computes every structural difference between
//! two such trees, each difference tagged with the path at which it occurs.

pub mod ast;
pub mod diff;
pub mod order;

pub use ast::AstItem;
pub use ast::AstView;
pub use ast::ItemList;
pub use ast::ItemMap;
pub use ast::ItemOption;
pub use ast::ItemSet;
pub use ast::ItemStruct;
pub use ast::ItemTuple;
pub use ast::ItemTupleStruct;
pub use ast::ItemUnitStruct;
pub use ast::ValueBool;
pub use ast::ValueNum;
pub use ast::ValueStr;
pub use diff::find_diff;
pub use diff::DiffItem;
pub use diff::DiffPath;
pub use diff::DiffPathSegment;
pub use diff::DiffPayload;
