//! Hash tables with the FNV hasher, keyed by text, and what is taken for
//! granted of them.

use fnv::FnvHashMap;
use vstd::prelude::*;

verus! {

/// The FNV hasher, as an opaque type.
#[verifier::external_type_specification]
#[verifier::external_body]
pub struct ExFnvHasher(fnv::FnvHasher);

/// The builder of default hashers, as an opaque type.
#[verifier::external_type_specification]
#[verifier::external_body]
#[verifier::reject_recursive_types(H)]
pub struct ExBuildHasherDefault<H>(std::hash::BuildHasherDefault<H>);

/// What a table from names to aliases holds.
pub uninterp spec fn alias_entries(table: FnvHashMap<String, String>) -> Map<Seq<char>, Seq<char>>;

/// What a table from files to positions holds.
pub uninterp spec fn group_slots(slots: FnvHashMap<String, usize>) -> Map<Seq<char>, usize>;

/// `FnvHashMap::default`: a table that holds nothing.
#[verifier::external_body]
pub(crate) fn aliases_new() -> (table: FnvHashMap<String, String>)
    ensures
        alias_entries(table) =~= Map::empty(),
{
    FnvHashMap::default()
}

/// `HashMap::get` on a table with the FNV hasher: the alias kept for `name`,
/// if one is kept.
#[verifier::external_body]
pub(crate) fn aliases_get<'a>(table: &'a FnvHashMap<String, String>, name: &str) -> (alias: Option<
    &'a String,
>)
    ensures
        match alias {
            Some(alias) => alias_entries(*table).contains_key(name@) && alias_entries(
                *table,
            )[name@] == alias@,
            None => !alias_entries(*table).contains_key(name@),
        },
{
    table.get(name)
}

/// `HashMap::insert` on a table with the FNV hasher: afterwards the table
/// keeps `alias` for `name`, and for every other name what it kept before.
#[verifier::external_body]
pub(crate) fn aliases_insert(table: &mut FnvHashMap<String, String>, name: String, alias: String)
    ensures
        alias_entries(*final(table)) == alias_entries(*old(table)).insert(name@, alias@),
{
    table.insert(name, alias);
}

/// `FnvHashMap::default`: a table that holds nothing.
#[verifier::external_body]
pub(crate) fn slots_new() -> (slots: FnvHashMap<String, usize>)
    ensures
        group_slots(slots) =~= Map::empty(),
{
    FnvHashMap::default()
}

/// `HashMap::get` on a table with the FNV hasher: the position kept for
/// `file`, if one is kept.
#[verifier::external_body]
pub(crate) fn slots_get(slots: &FnvHashMap<String, usize>, file: &str) -> (slot: Option<usize>)
    ensures
        match slot {
            Some(i) => group_slots(*slots).contains_key(file@) && group_slots(*slots)[file@] == i,
            None => !group_slots(*slots).contains_key(file@),
        },
{
    slots.get(file).copied()
}

/// `HashMap::insert` on a table with the FNV hasher: afterwards the table
/// keeps `slot` for `file`, and for every other file what it kept before.
#[verifier::external_body]
pub(crate) fn slots_insert(slots: &mut FnvHashMap<String, usize>, file: String, slot: usize)
    ensures
        group_slots(*final(slots)) == group_slots(*old(slots)).insert(file@, slot),
{
    slots.insert(file, slot);
}

} // verus!
