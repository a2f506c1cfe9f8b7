//! Persistent maps from names to values, kept in `im::HashMap`.
//!
//! The lexical environment, the persistent-binding table, the function
//! signature table and the typing environment are immutable hash maps that
//! are extended by copying. Verus does not look inside them: the functions
//! below state what each map holds, as a mathematical map from the
//! characters of a name, and what the methods of `im::HashMap` do to it.

use vstd::prelude::*;
use crate::ast::Type;

verus! {

#[verifier::external_type_specification]
#[verifier::external_body]
#[verifier::reject_recursive_types(K)]
#[verifier::reject_recursive_types(V)]
#[verifier::reject_recursive_types(S)]
pub struct ExImHashMap<K, V, S>(im::HashMap<K, V, S>);

/// What a map from names to offsets holds.
pub uninterp spec fn offsets_of(m: im::HashMap<String, i32>) -> Map<Seq<char>, i32>;

/// What a map from names to parameter counts holds.
pub uninterp spec fn arities_of(m: im::HashMap<String, usize>) -> Map<Seq<char>, usize>;

/// What a map from names to types holds.
pub uninterp spec fn types_of(m: im::HashMap<String, Type>) -> Map<Seq<char>, Type>;

/// `im::HashMap::new`: a map that holds nothing.
#[verifier::external_body]
pub(crate) fn offsets_new() -> (m: im::HashMap<String, i32>)
    ensures
        offsets_of(m) =~= Map::empty(),
{
    im::HashMap::new()
}

/// `im::HashMap::get`: the offset bound to `name`, if there is one.
#[verifier::external_body]
pub(crate) fn offsets_get(m: &im::HashMap<String, i32>, name: &String) -> (r: Option<i32>)
    ensures
        r == (if offsets_of(*m).contains_key(name@) {
            Some(offsets_of(*m)[name@])
        } else {
            None
        }),
{
    m.get(name).copied()
}

/// `im::HashMap::contains_key`: whether `name` is bound.
#[verifier::external_body]
pub(crate) fn offsets_contains_key(m: &im::HashMap<String, i32>, name: &String) -> (r: bool)
    ensures
        r == offsets_of(*m).contains_key(name@),
{
    m.contains_key(name)
}

/// `im::HashMap::update`: a new map that binds `name` to `offset` and
/// otherwise holds what `m` holds; `m` itself is unchanged.
#[verifier::external_body]
pub(crate) fn offsets_update(m: &im::HashMap<String, i32>, name: String, offset: i32) -> (r:
    im::HashMap<String, i32>)
    ensures
        offsets_of(r) == offsets_of(*m).insert(name@, offset),
{
    m.update(name, offset)
}

/// `Clone::clone` of `im::HashMap`: a map that holds the same.
#[verifier::external_body]
pub(crate) fn offsets_clone(m: &im::HashMap<String, i32>) -> (r: im::HashMap<String, i32>)
    ensures
        offsets_of(r) == offsets_of(*m),
{
    m.clone()
}

/// `im::HashMap::new`: a map that holds nothing.
#[verifier::external_body]
pub(crate) fn arities_new() -> (m: im::HashMap<String, usize>)
    ensures
        arities_of(m) =~= Map::empty(),
{
    im::HashMap::new()
}

/// `im::HashMap::get`: the parameter count bound to `name`, if there is one.
#[verifier::external_body]
pub(crate) fn arities_get(m: &im::HashMap<String, usize>, name: &String) -> (r: Option<usize>)
    ensures
        r == (if arities_of(*m).contains_key(name@) {
            Some(arities_of(*m)[name@])
        } else {
            None
        }),
{
    m.get(name).copied()
}

/// `im::HashMap::update`: a new map that binds `name` to `count` and
/// otherwise holds what `m` holds; `m` itself is unchanged.
#[verifier::external_body]
pub(crate) fn arities_update(m: &im::HashMap<String, usize>, name: String, count: usize) -> (r:
    im::HashMap<String, usize>)
    ensures
        arities_of(r) == arities_of(*m).insert(name@, count),
{
    m.update(name, count)
}

/// `im::HashMap::contains_key`: whether `name` is bound.
#[verifier::external_body]
pub(crate) fn arities_contains_key(m: &im::HashMap<String, usize>, name: &String) -> (r: bool)
    ensures
        r == arities_of(*m).contains_key(name@),
{
    m.contains_key(name)
}

/// `im::HashMap::new`: a map that holds nothing.
#[verifier::external_body]
pub(crate) fn types_new() -> (m: im::HashMap<String, Type>)
    ensures
        types_of(m) =~= Map::empty(),
{
    im::HashMap::new()
}

/// `im::HashMap::get`: the type bound to `name`, if there is one.
#[verifier::external_body]
pub(crate) fn types_get(m: &im::HashMap<String, Type>, name: &String) -> (r: Option<Type>)
    ensures
        r == (if types_of(*m).contains_key(name@) {
            Some(types_of(*m)[name@])
        } else {
            None
        }),
{
    m.get(name).copied()
}

/// `im::HashMap::update`: a new map that binds `name` to `ty` and
/// otherwise holds what `m` holds; `m` itself is unchanged.
#[verifier::external_body]
pub(crate) fn types_update(m: &im::HashMap<String, Type>, name: String, ty: Type) -> (r:
    im::HashMap<String, Type>)
    ensures
        types_of(r) == types_of(*m).insert(name@, ty),
{
    m.update(name, ty)
}

/// `Clone::clone` of `im::HashMap`: a map that holds the same.
#[verifier::external_body]
pub(crate) fn types_clone(m: &im::HashMap<String, Type>) -> (r: im::HashMap<String, Type>)
    ensures
        types_of(r) == types_of(*m),
{
    m.clone()
}

} // verus!
