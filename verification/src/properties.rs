//! Entries given as `key=value` texts.
//!
//! A property is split at its first `=`: what stands before it is the key,
//! what stands behind it is the value, which may hold further `=`.

use vstd::prelude::*;
use vstd::string::*;
use crate::error::{ConfigError, InputError};

verus! {

/// Whether `i` is the position of the first `=` in the text.
pub open spec fn first_equals(text: Seq<char>, i: int) -> bool {
    &&& 0 <= i < text.len()
    &&& text[i] == '='
    &&& forall|j: int| 0 <= j < i ==> text[j] != '='
}

/// The key and the value of a property, where it holds a `=`.
pub open spec fn split_property(text: Seq<char>) -> Option<(Seq<char>, Seq<char>)> {
    if exists|i: int| first_equals(text, i) {
        let i = choose|i: int| first_equals(text, i);
        Some((text.subrange(0, i), text.subrange(i + 1, text.len() as int)))
    } else {
        None
    }
}

/// Whether `i` is the first property that holds no `=`.
pub open spec fn first_malformed(properties: Seq<Seq<char>>, i: int) -> bool {
    &&& 0 <= i < properties.len()
    &&& split_property(properties[i]) is None
    &&& forall|j: int| 0 <= j < i ==> split_property(#[trigger] properties[j]) is Some
}

/// The texts of the properties.
pub open spec fn properties_view(properties: Seq<String>) -> Seq<Seq<char>> {
    properties.map_values(|p: String| p@)
}

/// Splits a property into its key and its value.
///
/// Fails where the property holds no `=`; `index` is the position that the
/// failure then names.
pub fn parse_property(property: &str, index: usize) -> (entry: Result<(String, String), ConfigError>)
    ensures
        match split_property(property@) {
            Some((key, value)) => entry matches Ok(e) && e.0@ == key && e.1@ == value,
            None => entry matches Err(e) && e == ConfigError::Input(
                InputError::MalformedProperty { index },
            ),
        },
{
    let len: usize = property.unicode_len();
    let mut i: usize = 0;
    while i < len
        invariant
            i <= len,
            len == property@.len(),
            forall|j: int| 0 <= j < i ==> property@[j] != '=',
        decreases len - i,
    {
        if property.get_char(i) == '=' {
            assert(first_equals(property@, i as int));
            proof {
                let chosen = choose|k: int| first_equals(property@, k);
                assert(chosen == i) by {
                    if chosen < i {
                        assert(property@[chosen] != '=');
                    } else if chosen > i {
                        assert(property@[i as int] != '=');
                    }
                }
            }
            let key = property.substring_char(0, i).to_owned();
            let value = property.substring_char(i + 1, len).to_owned();
            return Ok((key, value));
        }
        i = i + 1;
    }
    assert(!exists|k: int| first_equals(property@, k));
    Err(ConfigError::Input(InputError::MalformedProperty { index }))
}

/// Splits every property into its key and its value, in their order.
///
/// Fails at the first property that holds no `=`.
pub fn parse_properties(properties: &Vec<String>) -> (entries: Result<
    Vec<(String, String)>,
    ConfigError,
>)
    ensures
        match entries {
            Ok(es) => {
                &&& es.len() == properties.len()
                &&& forall|i: int|
                    0 <= i < es.len() ==> split_property(#[trigger] properties[i]@) == Some(
                        (es[i].0@, es[i].1@),
                    )
            },
            Err(e) => {
                &&& e matches ConfigError::Input(InputError::MalformedProperty { index })
                &&& first_malformed(properties_view(properties@), index as int)
            },
        },
{
    let mut entries: Vec<(String, String)> = Vec::new();
    let mut i: usize = 0;
    while i < properties.len()
        invariant
            i <= properties.len(),
            entries.len() == i,
            forall|j: int|
                0 <= j < i ==> split_property(#[trigger] properties[j]@) == Some(
                    (entries[j].0@, entries[j].1@),
                ),
        decreases properties.len() - i,
    {
        match parse_property(properties[i].as_str(), i) {
            Ok(entry) => {
                entries.push(entry);
            },
            Err(e) => {
                assert forall|j: int| 0 <= j < i implies split_property(
                    #[trigger] properties_view(properties@)[j],
                ) is Some by {
                    assert(properties_view(properties@)[j] == properties[j]@);
                }
                assert(properties_view(properties@)[i as int] == properties[i as int]@);
                return Err(e);
            },
        }
        i = i + 1;
    }
    Ok(entries)
}

} // verus!
