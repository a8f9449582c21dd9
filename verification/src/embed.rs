//! Embedding configuration entries into a module.
//!
//! The entries are written in the wire format. The stack gives up as many
//! bytes as that takes, rounded up to a multiple of eight, and the data goes
//! to the lowest of the freed addresses: into the segment that covers that
//! address. The number of entries and the address are then written into the
//! control block.

use vstd::prelude::*;
use vstd::string::*;
use crate::config::{load, tail, CONTROL_BLOCK_SIZE, COUNT_OFFSET};
use crate::error::{ConfigError, FormatError, InputError, LayoutError};
use crate::layout::{
    disjoint,
    fills,
    lemma_locate_by_placement,
    lemma_locate_in_range,
    locate,
    reserve,
    same_globals,
    same_placement,
    stack_top,
    start_of,
    with_global,
};
use crate::module::{DataView, ModuleModel, ModuleView};
use crate::wire::{
    decode_entries,
    encodable,
    encode,
    encode_entries,
    entries_view,
    entry_fits,
    le_bytes,
    lemma_decode_at,
    lemma_le_round_trip,
    put_u32,
};

verus! {

/// The longest data for which the space to free can still be said in 32
/// bits.
pub const MAX_BLOB: usize = 0xffff_fff8;

/// `len`, rounded up to a multiple of eight.
pub open spec fn round_up_8(len: int) -> int {
    len + (8 - len % 8) % 8
}

/// `bytes` with `patch` written over it from `offset` on. Where `patch`
/// reaches past the end of `bytes`, the result is longer than `bytes`; where
/// it starts past the end, zero bytes fill the gap.
pub open spec fn spliced(bytes: Seq<u8>, offset: int, patch: Seq<u8>) -> Seq<u8> {
    Seq::new(
        if bytes.len() >= offset + patch.len() {
            bytes.len()
        } else {
            (offset + patch.len()) as nat
        },
        |i: int|
            if offset <= i < offset + patch.len() {
                patch[i - offset]
            } else if i < bytes.len() {
                bytes[i]
            } else {
                0u8
            },
    )
}

/// The module with `patch` written into one segment from `offset` on.
pub open spec fn with_patch(data: Seq<DataView>, i: int, offset: int, patch: Seq<u8>) -> Seq<
    DataView,
> {
    data.update(i, DataView { value: spliced(data[i].value, offset, patch), ..data[i] })
}

/// Whether `i` is the first entry with a key or a value that is too long.
pub open spec fn first_unfit(entries: Seq<(Seq<char>, Seq<char>)>, i: int) -> bool {
    &&& 0 <= i < entries.len()
    &&& !entry_fits(entries[i])
    &&& forall|j: int| 0 <= j < i ==> entry_fits(#[trigger] entries[j])
}

/// The data of the entries, where they can be embedded.
///
/// They cannot where a key or a value is too long for its length prefix,
/// where there are more entries than 32 bits can count, and where the data
/// is longer than [`MAX_BLOB`]; that is looked at in this order.
pub open spec fn prepared(entries: Seq<(Seq<char>, Seq<char>)>) -> Result<Seq<u8>, InputError> {
    if !encodable(entries) {
        Err(InputError::FieldTooLong { entry: (choose|i: int| first_unfit(entries, i)) as usize })
    } else if entries.len() > u32::MAX {
        Err(InputError::TooManyEntries)
    } else if encode_entries(entries).len() > MAX_BLOB {
        Err(InputError::BlobTooLarge)
    } else {
        Ok(encode_entries(entries))
    }
}

/// What placing the data of `count` entries in the module gives.
///
/// The steps fail in this order: data that is longer than [`MAX_BLOB`]; the
/// stack; the segment for the data; the segment of the control block; a
/// control block that does not lie within its segment.
pub open spec fn placed(module: ModuleView, blob: Seq<u8>, count: u32) -> Result<
    ModuleView,
    ConfigError,
> {
    if blob.len() > MAX_BLOB {
        Err(ConfigError::Input(InputError::BlobTooLarge))
    } else {
        match reserve(module.globals, round_up_8(blob.len() as int) as u32) {
            Err(e) => Err(ConfigError::Layout(e)),
            Ok((global, base)) => match locate(module.data, base as u32) {
                Err(e) => Err(ConfigError::Layout(e)),
                Ok((segment, offset)) => {
                    let data = with_patch(module.data, segment, offset, blob);
                    match locate(data, module.config) {
                        Err(e) => Err(ConfigError::Layout(e)),
                        Ok((block, at)) => if at + CONTROL_BLOCK_SIZE > data[block].value.len() {
                            Err(
                                ConfigError::Layout(
                                    LayoutError::ControlBlockTruncated {
                                        segment: block as usize,
                                        offset: at as usize,
                                    },
                                ),
                            )
                        } else {
                            Ok(
                                ModuleView {
                                    data: with_patch(
                                        data,
                                        block,
                                        at + COUNT_OFFSET,
                                        le_bytes(count) + le_bytes(base as u32),
                                    ),
                                    ..with_global(module, global, base)
                                },
                            )
                        },
                    }
                },
            },
        }
    }
}

/// What embedding the entries into the module gives: their data, placed.
pub open spec fn embedded(module: ModuleView, entries: Seq<(Seq<char>, Seq<char>)>) -> Result<
    ModuleView,
    ConfigError,
> {
    match prepared(entries) {
        Err(e) => Err(ConfigError::Input(e)),
        Ok(blob) => placed(module, blob, entries.len() as u32),
    }
}

/// Placing data changes the bytes of data segments and the value of the
/// stack global, and nothing else: every segment stays where it is placed,
/// every global keeps its name and its kind, and the custom sections and
/// the address of the control block stay as they are.
pub proof fn lemma_placed_shape(module: ModuleView, blob: Seq<u8>, count: u32)
    ensures
        placed(module, blob, count) matches Ok(patched) ==> {
            &&& same_placement(patched.data, module.data)
            &&& same_globals(patched.globals, module.globals)
            &&& patched.customs == module.customs
            &&& patched.config == module.config
        },
{
    if placed(module, blob, count) is Ok {
        let base = reserve(module.globals, round_up_8(blob.len() as int) as u32)->Ok_0.1;
        lemma_locate_in_range(module.data, base as u32);
        let (segment, offset) = locate(module.data, base as u32)->Ok_0;
        lemma_locate_in_range(with_patch(module.data, segment, offset, blob), module.config);
    }
}

/// The segment that takes the data: the one that covers the lowest address
/// of the space that the stack gives up for `len` bytes.
pub open spec fn data_segment(module: ModuleView, len: int) -> int {
    match reserve(module.globals, round_up_8(len) as u32) {
        Ok((_, base)) => match locate(module.data, base as u32) {
            Ok((segment, _)) => segment,
            Err(_) => 0,
        },
        Err(_) => 0,
    }
}

/// Placing data keeps the segments apart.
///
/// This needs the stack to be free for it: from the start of the segment
/// that takes the data up to the top of the stack, no other segment may
/// fill an address.
pub proof fn lemma_placed_disjoint(module: ModuleView, blob: Seq<u8>, count: u32)
    requires
        disjoint(module.data),
        placed(module, blob, count) is Ok,
        forall|j: int, address: int|
            0 <= j < module.data.len() && j != data_segment(module, blob.len() as int) && start_of(
                module.data[data_segment(module, blob.len() as int)],
            ) <= address < stack_top(module.globals) ==> !#[trigger] fills(module.data[j], address),
    ensures
        disjoint(placed(module, blob, count)->Ok_0.data),
{
    let (global, base) = reserve(module.globals, round_up_8(blob.len() as int) as u32)->Ok_0;
    lemma_locate_in_range(module.data, base as u32);
    let (segment, offset) = locate(module.data, base as u32)->Ok_0;
    let data = with_patch(module.data, segment, offset, blob);
    lemma_locate_in_range(data, module.config);
    let (block, at) = locate(data, module.config)->Ok_0;
    let patched = placed(module, blob, count)->Ok_0.data;
    let start = start_of(module.data[segment]);
    assert(segment == data_segment(module, blob.len() as int));
    assert(base + round_up_8(blob.len() as int) == stack_top(module.globals));
    assert forall|k: int, address: int|
        0 <= k < patched.len() && #[trigger] fills(patched[k], address) implies fills(
        module.data[k],
        address,
    ) || (k == segment && start <= address < stack_top(module.globals)) by {
        assert(patched[k].kind == module.data[k].kind);
        if k != segment {
            assert(patched[k].value.len() == module.data[k].value.len());
        }
    }
    assert forall|i: int, j: int, address: int|
        0 <= i < patched.len() && 0 <= j < patched.len() && i != j && #[trigger] fills(
            patched[i],
            address,
        ) implies !#[trigger] fills(patched[j], address) by {
        if fills(patched[j], address) {
            if i == segment {
                assert(fills(module.data[j], address));
            } else if j == segment {
                assert(fills(module.data[i], address));
            } else {
                assert(fills(module.data[i], address));
                assert(fills(module.data[j], address));
            }
        }
    }
}

/// The address that the data of the entries goes to: the top of the stack
/// after it has given up the space.
pub open spec fn data_address(module: ModuleView, entries: Seq<(Seq<char>, Seq<char>)>) -> int {
    match reserve(module.globals, round_up_8(encode_entries(entries).len() as int) as u32) {
        Ok((_, base)) => base as int,
        Err(_) => 0,
    }
}

/// What was embedded is what the code of the module reads: the control
/// block of the patched module holds the number of the entries, and reading
/// that many entries from the data it leads to gives the entries, in their
/// order and with their duplicates.
///
/// This needs the control block to lie outside the freed stack space that
/// the data takes, as it does in a template whose stack is apart from its
/// static data.
pub proof fn lemma_read_back(module: ModuleView, entries: Seq<(Seq<char>, Seq<char>)>)
    requires
        embedded(module, entries) is Ok,
        module.config + CONTROL_BLOCK_SIZE <= data_address(module, entries) || data_address(
            module,
            entries,
        ) + encode_entries(entries).len() <= module.config,
    ensures
        load(embedded(module, entries)->Ok_0) matches Ok(config) && config.host_field_cnt
            == entries.len() && decode_entries(
            config.host_field_data,
            0,
            config.host_field_cnt as nat,
        ) == Ok::<Seq<(Seq<char>, Seq<char>)>, FormatError>(entries),
{
    let blob = encode_entries(entries);
    let amount = round_up_8(blob.len() as int) as u32;
    let (global, base) = reserve(module.globals, amount)->Ok_0;
    let (segment, offset) = locate(module.data, base as u32)->Ok_0;
    let data1 = with_patch(module.data, segment, offset, blob);
    let (block, at) = locate(data1, module.config)->Ok_0;
    let fields = le_bytes(entries.len() as u32) + le_bytes(base as u32);
    let data2 = with_patch(data1, block, at + 4, fields);
    let patched = embedded(module, entries)->Ok_0;
    assert(patched.data == data2);
    assert(patched.config == module.config);

    lemma_locate_in_range(module.data, base as u32);
    lemma_locate_in_range(data1, module.config);
    assert(same_placement(data2, data1));
    assert(same_placement(data2, module.data));
    lemma_locate_by_placement(data2, data1, module.config);
    lemma_locate_by_placement(data2, module.data, base as u32);

    let bytes = data2[block].value;
    lemma_le_round_trip(entries.len() as u32);
    lemma_le_round_trip(base as u32);
    assert(bytes.subrange(at + 4, at + 8) =~= le_bytes(entries.len() as u32));
    assert(bytes.subrange(at + 8, at + 12) =~= le_bytes(base as u32));

    if entries.len() == 0 {
        assert(entries =~= Seq::empty());
    } else {
        let held = data2[segment].value;
        assert(held.subrange(offset, offset + blob.len()) =~= blob) by {
            assert forall|i: int| 0 <= i < blob.len() implies held[offset + i] == blob[i] by {
                if segment == block {
                    assert(offset == base - start_of(module.data[segment]));
                    assert(at == module.config - start_of(data1[block]));
                }
            }
        }
        let rest = tail(held, offset);
        assert(rest.subrange(0, blob.len() as int) =~= blob);
        lemma_decode_at(rest, 0, entries);
    }
}

/// Writes `patch` over `bytes` from `offset` on, making `bytes` longer where
/// `patch` reaches or starts past its end.
pub fn splice(bytes: &mut Vec<u8>, offset: usize, patch: &[u8])
    requires
        offset + patch@.len() <= usize::MAX,
    ensures
        final(bytes)@ == spliced(old(bytes)@, offset as int, patch@),
{
    while bytes.len() < offset
        invariant
            bytes@.len() == old(bytes)@.len() || bytes@.len() <= offset,
            bytes@ == spliced(old(bytes)@, bytes@.len() as int, Seq::empty()),
        decreases offset - bytes.len(),
    {
        bytes.push(0u8);
        assert(bytes@ =~= spliced(old(bytes)@, bytes@.len() as int, Seq::empty()));
    }
    assert(bytes@ =~= spliced(old(bytes)@, offset as int, patch@.take(0)));
    let mut k: usize = 0;
    while k < patch.len()
        invariant
            k <= patch@.len(),
            offset + patch@.len() <= usize::MAX,
            bytes@ == spliced(old(bytes)@, offset as int, patch@.take(k as int)),
        decreases patch.len() - k,
    {
        if offset + k < bytes.len() {
            bytes[offset + k] = patch[k];
        } else {
            bytes.push(patch[k]);
        }
        k = k + 1;
        assert(bytes@ =~= spliced(old(bytes)@, offset as int, patch@.take(k as int)));
    }
    assert(patch@.take(k as int) =~= patch@);
}

/// At most one entry is the first that does not fit.
pub proof fn lemma_first_unfit_unique(entries: Seq<(Seq<char>, Seq<char>)>, i: int, j: int)
    requires
        first_unfit(entries, i),
        first_unfit(entries, j),
    ensures
        i == j,
{
    if i < j {
        assert(entry_fits(entries[i]));
    } else if j < i {
        assert(entry_fits(entries[j]));
    }
}

/// Writes the entries in the wire format and counts them.
///
/// Fails where the entries cannot be embedded, whatever the module.
pub fn prepare(entries: &Vec<(String, String)>) -> (blob: Result<(Vec<u8>, u32), ConfigError>)
    ensures
        match prepared(entries_view(entries@)) {
            Ok(bytes) => blob matches Ok(b) && b.0@ == bytes && b.1 == entries.len(),
            Err(e) => blob matches Err(f) && f == ConfigError::Input(e),
        },
{
    let ghost view = entries_view(entries@);
    let blob = match encode(entries) {
        Ok(blob) => blob,
        Err(e) => {
            proof {
                let entry = e->Input_0->entry as int;
                assert(first_unfit(view, entry));
                lemma_first_unfit_unique(view, entry, choose|i: int| first_unfit(view, i));
            }
            return Err(e);
        },
    };
    if entries.len() > u32::MAX as usize {
        return Err(ConfigError::Input(InputError::TooManyEntries));
    }
    if blob.len() > MAX_BLOB {
        return Err(ConfigError::Input(InputError::BlobTooLarge));
    }
    Ok((blob, entries.len() as u32))
}

/// Places the data of `count` entries in the module: frees stack space for
/// it, writes it to the lowest freed address, and writes `count` and that
/// address into the control block.
///
/// The module is taken and given back whole: where a step fails, the
/// failure is all that is returned.
pub fn place(module: ModuleModel, blob: &[u8], count: u32) -> (patched: Result<
    ModuleModel,
    ConfigError,
>)
    ensures
        match placed(module@, blob@, count) {
            Ok(view) => patched matches Ok(m) && m@ == view,
            Err(e) => patched matches Err(f) && f == e,
        },
{
    let ghost before = module@;
    let mut module = module;
    if blob.len() > MAX_BLOB {
        return Err(ConfigError::Input(InputError::BlobTooLarge));
    }
    let rest: usize = blob.len() % 8;
    let amount: u32 = (blob.len() + (8 - rest) % 8) as u32;
    assert(amount == round_up_8(blob@.len() as int));
    let base = match module.bump_stack_global(amount) {
        Ok(base) => base,
        Err(e) => { return Err(e); },
    };
    let ghost global = reserve(before.globals, amount)->Ok_0.0;
    assert(module@ == with_global(before, global, base as i32));
    assert(base + amount <= i32::MAX);
    let (segment, offset) = match module.get_active_data_segment(base) {
        Ok(found) => found,
        Err(e) => { return Err(e); },
    };
    assert(offset <= base);
    assert(before.data[segment as int] == module.data[segment as int]@);
    splice(&mut module.data[segment].value, offset, blob);
    let ghost data = with_patch(before.data, segment as int, offset as int, blob@);
    assert(module@.data =~= data);
    assert(module@.globals =~= with_global(before, global, base as i32).globals);
    assert(module@.customs =~= before.customs);
    let (block, at) = match module.get_active_data_segment(module.config) {
        Ok(found) => found,
        Err(e) => { return Err(e); },
    };
    assert(data[block as int] == module.data[block as int]@);
    let len: usize = module.data[block].value.len();
    if at > len || len - at < CONTROL_BLOCK_SIZE {
        return Err(
            ConfigError::Layout(LayoutError::ControlBlockTruncated { segment: block, offset: at }),
        );
    }
    let mut fields: Vec<u8> = Vec::new();
    put_u32(&mut fields, count);
    put_u32(&mut fields, base);
    assert(fields@ =~= le_bytes(count) + le_bytes(base));
    splice(&mut module.data[block].value, at + COUNT_OFFSET, fields.as_slice());
    assert(module@.data =~= with_patch(data, block as int, at + 4, fields@));
    assert(module@.globals =~= with_global(before, global, base as i32).globals);
    assert(module@.customs =~= before.customs);
    Ok(module)
}

/// Embeds the entries into the module and returns the module that holds
/// them.
///
/// The module is taken and given back whole: where a step fails, the
/// failure is all that is returned.
pub fn embed(module: ModuleModel, entries: &Vec<(String, String)>) -> (patched: Result<
    ModuleModel,
    ConfigError,
>)
    ensures
        match embedded(module@, entries_view(entries@)) {
            Ok(view) => patched matches Ok(m) && m@ == view,
            Err(e) => patched matches Err(f) && f == e,
        },
{
    let (blob, count) = match prepare(entries) {
        Ok(prepared) => prepared,
        Err(e) => { return Err(e); },
    };
    assert(entries_view(entries@).len() == entries.len());
    place(module, blob.as_slice(), count)
}

} // verus!
