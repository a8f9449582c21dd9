//! The control block, and reading the configuration through it.
//!
//! The control block is a record of twelve bytes in the linear memory of the
//! module. Its layout is fixed between this library and the build of the
//! template:
//!
//! | bytes   | field                                                      |
//! |---------|------------------------------------------------------------|
//! | 0       | a flag that the embedding neither reads nor writes         |
//! | 4 to 7  | the number of entries, little-endian                       |
//! | 8 to 11 | the address of the configuration data, little-endian       |

use vstd::prelude::*;
use vstd::slice::{slice_subrange, slice_to_vec};
use vstd::string::*;
use crate::error::{ConfigError, FormatError, LayoutError};
use crate::layout::locate;
use crate::module::{ModuleModel, ModuleView};
use crate::text::str_eq;
use crate::wire::{decode, decode_entries, entries_view, get_u32, le_value};

verus! {

/// The offset of the number of entries in the control block.
pub const COUNT_OFFSET: usize = 4;

/// The offset of the address of the configuration data in the control block.
pub const DATA_OFFSET: usize = 8;

/// The size of the control block.
pub const CONTROL_BLOCK_SIZE: usize = 12;

/// What the code of the module finds through its control block.
#[derive(Clone, Debug, PartialEq, Eq)]
pub struct Config {
    /// The flag at byte 0.
    pub unused: bool,
    /// How many entries the data holds.
    pub host_field_cnt: u32,
    /// The configuration data: for each entry its key and then its value,
    /// each as a length, the text and padding.
    pub host_field_data: Vec<u8>,
}

/// What a [`Config`] is in contracts.
pub struct ConfigView {
    pub unused: bool,
    pub host_field_cnt: u32,
    pub host_field_data: Seq<u8>,
}

impl View for Config {
    type V = ConfigView;

    open spec fn view(&self) -> ConfigView {
        ConfigView {
            unused: self.unused,
            host_field_cnt: self.host_field_cnt,
            host_field_data: self.host_field_data@,
        }
    }
}

/// Whether `i` is the first entry with this key.
pub open spec fn first_match(entries: Seq<(Seq<char>, Seq<char>)>, key: Seq<char>, i: int) -> bool {
    &&& 0 <= i < entries.len()
    &&& entries[i].0 == key
    &&& forall|j: int| 0 <= j < i ==> (#[trigger] entries[j]).0 != key
}

/// The value of the first entry with this key.
pub open spec fn lookup(entries: Seq<(Seq<char>, Seq<char>)>, key: Seq<char>) -> Option<Seq<char>> {
    if exists|i: int| first_match(entries, key, i) {
        Some(entries[choose|i: int| first_match(entries, key, i)].1)
    } else {
        None
    }
}

/// The bytes of a segment from `offset` on.
pub open spec fn tail(bytes: Seq<u8>, offset: int) -> Seq<u8> {
    if 0 <= offset <= bytes.len() {
        bytes.subrange(offset, bytes.len() as int)
    } else {
        Seq::empty()
    }
}

/// What the control block of the module holds, and the data it leads to.
///
/// The data is what the segment that covers the address holds from that
/// address on. With no entries the address is not followed.
pub open spec fn load(module: ModuleView) -> Result<ConfigView, LayoutError> {
    match locate(module.data, module.config) {
        Err(e) => Err(e),
        Ok((c, at)) => {
            let block = module.data[c].value;
            if at + CONTROL_BLOCK_SIZE > block.len() {
                Err(LayoutError::ControlBlockTruncated { segment: c as usize, offset: at as usize })
            } else {
                let unused = block[at] != 0;
                let count = le_value(block.subrange(at + COUNT_OFFSET, at + COUNT_OFFSET + 4));
                let address = le_value(block.subrange(at + DATA_OFFSET, at + DATA_OFFSET + 4));
                if count == 0 {
                    Ok(ConfigView { unused, host_field_cnt: 0, host_field_data: Seq::empty() })
                } else {
                    match locate(module.data, address as u32) {
                        Err(e) => Err(e),
                        Ok((s, offset)) => Ok(
                            ConfigView {
                                unused,
                                host_field_cnt: count as u32,
                                host_field_data: tail(module.data[s].value, offset),
                            },
                        ),
                    }
                }
            }
        },
    }
}

impl Config {
    /// Reads the control block of the module and the data it leads to, as
    /// the code of the module will find them once it runs.
    pub fn load(module: &ModuleModel) -> (config: Result<Config, ConfigError>)
        ensures
            match load(module@) {
                Ok(view) => config matches Ok(c) && c@ == view,
                Err(e) => config matches Err(f) && f == ConfigError::Layout(e),
            },
    {
        let (c, at) = match module.get_active_data_segment(module.config) {
            Ok(found) => found,
            Err(e) => { return Err(e); },
        };
        assert(module@.data[c as int].value == module.data[c as int].value@);
        let block = &module.data[c].value;
        if at > block.len() || block.len() - at < CONTROL_BLOCK_SIZE {
            return Err(
                ConfigError::Layout(LayoutError::ControlBlockTruncated { segment: c, offset: at }),
            );
        }
        let unused = block[at] != 0;
        let count: u32 = get_u32(block.as_slice(), at + COUNT_OFFSET);
        let address: u32 = get_u32(block.as_slice(), at + DATA_OFFSET);
        if count == 0 {
            return Ok(Config { unused, host_field_cnt: count, host_field_data: Vec::new() });
        }
        let (s, offset) = match module.get_active_data_segment(address) {
            Ok(found) => found,
            Err(e) => { return Err(e); },
        };
        assert(module@.data[s as int].value == module.data[s as int].value@);
        let bytes = &module.data[s].value;
        let data = if offset <= bytes.len() {
            slice_to_vec(slice_subrange(bytes.as_slice(), offset, bytes.len()))
        } else {
            Vec::new()
        };
        Ok(Config { unused, host_field_cnt: count, host_field_data: data })
    }

    /// All entries, in the order in which they were embedded.
    pub fn get_all(&self) -> (entries: Result<Vec<(String, String)>, ConfigError>)
        ensures
            match decode_entries(self@.host_field_data, 0, self@.host_field_cnt as nat) {
                Ok(es) => entries matches Ok(v) && entries_view(v@) == es,
                Err(e) => entries matches Err(f) && f == ConfigError::Format(e),
            },
    {
        decode(self.host_field_data.as_slice(), self.host_field_cnt)
    }

    /// The value of the first entry whose key is `key`, or nothing where no
    /// entry has that key.
    pub fn get(&self, key: String) -> (value: Result<Option<String>, ConfigError>)
        ensures
            match decode_entries(self@.host_field_data, 0, self@.host_field_cnt as nat) {
                Ok(es) => match lookup(es, key@) {
                    Some(found) => value matches Ok(Some(v)) && v@ == found,
                    None => value matches Ok(None),
                },
                Err(e) => value matches Err(f) && f == ConfigError::Format(e),
            },
    {
        let mut entries = match self.get_all() {
            Ok(entries) => entries,
            Err(e) => { return Err(e); },
        };
        let ghost es = entries_view(entries@);
        let mut i: usize = 0;
        while i < entries.len()
            invariant
                i <= entries.len(),
                es == entries_view(entries@),
                decode_entries(self@.host_field_data, 0, self@.host_field_cnt as nat) == Ok::<
                    Seq<(Seq<char>, Seq<char>)>,
                    FormatError,
                >(es),
                forall|j: int| 0 <= j < i ==> (#[trigger] es[j]).0 != key@,
            decreases entries.len() - i,
        {
            assert(es[i as int] == (entries[i as int].0@, entries[i as int].1@));
            if str_eq(entries[i].0.as_str(), key.as_str()) {
                assert(first_match(es, key@, i as int));
                proof {
                    let chosen = choose|k: int| first_match(es, key@, k);
                    if chosen < i {
                        assert(es[chosen].0 != key@);
                    } else if chosen > i {
                        assert(es[i as int].0 != key@);
                    }
                }
                let ghost wanted = entries@[i as int];
                let hit = entries.swap_remove(i);
                assert(hit == wanted);
                assert(hit.1@ == es[i as int].1);
                return Ok(Some(hit.1));
            }
            i = i + 1;
        }
        assert(!exists|k: int| first_match(es, key@, k));
        Ok(None)
    }
}

} // verus!
