//! The INI document of rust-ini, seen as a map from section name to the first value of
//! each key in the first section of that name.
use vstd::prelude::*;
use ini::Ini;

verus! {

#[verifier::external_type_specification]
#[verifier::external_body]
pub struct ExIni(Ini);

/// The named sections of a document: for the first section of each name, every value of
/// each of its keys, in order (keys without values are left out).
pub uninterp spec fn ini_values(c: Ini) -> Map<Seq<char>, Map<Seq<char>, Seq<Seq<char>>>>;

/// What rust-ini reads from a text: its named sections as above, or nothing where the text
/// is no INI document.
pub uninterp spec fn ini_parsed(s: Seq<char>) -> Option<
    Map<Seq<char>, Map<Seq<char>, Seq<Seq<char>>>>,
>;

/// Relies on `Ini::load_from_str`: the document that rust-ini reads from `text`; its
/// parse error becomes `None`.
#[verifier::external_body]
pub(crate) fn load_ini(text: &str) -> (r: Option<Ini>)
    ensures
        match r {
            Some(c) => ini_parsed(text@) == Some(ini_values(c)),
            None => ini_parsed(text@) is None,
        },
{
    Ini::load_from_str(text).ok()
}

/// Relies on `Ini::section`: whether the document has a section named `sec`.
#[verifier::external_body]
pub(crate) fn has_section(c: &Ini, sec: &str) -> (r: bool)
    ensures
        r == ini_values(*c).contains_key(sec@),
{
    c.section(Some(sec)).is_some()
}

/// Relies on `Ini::get_from`: the first value of `key` in the first section named `sec`.
#[verifier::external_body]
pub(crate) fn get_value(c: &Ini, sec: &str, key: &str) -> (r: Option<String>)
    ensures
        match r {
            Some(v) => ini_values(*c).contains_key(sec@) && ini_values(*c)[sec@].contains_key(key@)
                && ini_values(*c)[sec@][key@].len() > 0 && ini_values(*c)[sec@][key@][0] == v@,
            None => !(ini_values(*c).contains_key(sec@) && ini_values(*c)[sec@].contains_key(
                key@,
            )),
        },
{
    c.get_from(Some(sec), key).map(|v| v.to_owned())
}

/// Relies on `SectionSetter::set`, which calls `Properties::insert` and so
/// `ListOrderedMultimap::insert_all`: `key` gets the one value `value` (its earlier values
/// are drained) in the first section named `sec`, which is added where the document has
/// none.
#[verifier::external_body]
pub(crate) fn set_value(c: &mut Ini, sec: &str, key: &str, value: &str)
    ensures
        ini_values(*final(c)) == ini_values(*old(c)).insert(
            sec@,
            (if ini_values(*old(c)).contains_key(sec@) {
                ini_values(*old(c))[sec@]
            } else {
                Map::empty()
            }).insert(key@, seq![value@]),
        ),
{
    c.with_section(Some(sec)).set(key, value);
}

/// Relies on `Ini::delete_from`, which calls `Properties::remove` and so
/// `ListOrderedMultimap::remove`: `key` loses all its values in the first section named `sec`.
#[verifier::external_body]
pub(crate) fn delete_value(c: &mut Ini, sec: &str, key: &str)
    ensures
        ini_values(*final(c)) == (if ini_values(*old(c)).contains_key(sec@) {
            ini_values(*old(c)).insert(sec@, ini_values(*old(c))[sec@].remove(key@))
        } else {
            ini_values(*old(c))
        }),
{
    c.delete_from(Some(sec), key);
}

} // verus!
