//! Reading a compiled module into a [`ModuleModel`], and writing the changes
//! back.
//!
//! The bytes of a compiled module are parsed and written by the `walrus`
//! crate. Its `walrus::Module` is opaque here: the contracts speak of what
//! it holds through [`data_of`], [`globals_of`], [`customs_of`] and
//! [`memories_of`], of what parsing gives through [`parsed`] and
//! [`parsed_from`], and of what writing gives through [`rewritten`]. The
//! functions marked as not verified say what each `walrus` call does in
//! these terms.

use vstd::prelude::*;
use vstd::string::*;
use crate::error::{ConfigError, FormatError};
use crate::layout::{same_globals, same_placement};
use crate::metadata::with_component_type;
use crate::module::{
    CustomSection,
    CustomSectionView,
    Data,
    DataKind,
    DataView,
    Global,
    GlobalKind,
    GlobalView,
    ModuleModel,
    ModuleView,
};

verus! {

/// The data segments that the parsed module holds, in its order.
pub uninterp spec fn data_of(module: walrus::Module) -> Seq<DataView>;

/// The globals that the parsed module holds, in its order.
pub uninterp spec fn globals_of(module: walrus::Module) -> Seq<GlobalView>;

/// The custom sections that the parsed module holds, in its order.
pub uninterp spec fn customs_of(module: walrus::Module) -> Seq<CustomSectionView>;

/// The number of linear memories that the parsed module has.
pub uninterp spec fn memories_of(module: walrus::Module) -> nat;

/// What the contracts can say of a parsed module.
pub struct Parts {
    pub data: Seq<DataView>,
    pub globals: Seq<GlobalView>,
    pub customs: Seq<CustomSectionView>,
    pub memories: nat,
}

/// What the parsed module holds.
pub open spec fn parts_of(module: walrus::Module) -> Parts {
    Parts {
        data: data_of(module),
        globals: globals_of(module),
        customs: customs_of(module),
        memories: memories_of(module),
    }
}

/// What the module holds that `walrus` parses from these bytes, or nothing
/// where it does not take them for a module.
pub uninterp spec fn parsed(wasm: Seq<u8>) -> Option<Parts>;

/// Whether the module is what `walrus` parsed from these bytes, but for what
/// has since been set in it: the bytes of data segments, the constants that
/// define globals, and raw custom sections that were replaced.
pub uninterp spec fn parsed_from(module: walrus::Module, wasm: Seq<u8>) -> bool;

/// The bytes that `walrus` writes out for the module that it parsed from
/// `wasm`, once that module holds `parts`.
pub uninterp spec fn rewritten(wasm: Seq<u8>, parts: Parts) -> Seq<u8>;

/// Whether the module is sound enough to be written out: it was parsed from
/// some bytes and has been changed only in what [`parsed_from`] allows.
pub open spec fn intact(module: walrus::Module) -> bool {
    exists|wasm: Seq<u8>| parsed_from(module, wasm)
}

/// The parts of a module that holds what `model` holds and has this many
/// memories.
pub open spec fn parts_with(model: ModuleView, memories: nat) -> Parts {
    Parts { data: model.data, globals: model.globals, customs: model.customs, memories }
}

/// `walrus::ModuleConfig::parse`, with a configuration that leaves the name
/// section out of what is later emitted. Whether it takes the bytes for a
/// module, and what the module then holds, depends on the bytes alone: it
/// reads them section by section and nothing else.
#[verifier::external_body]
fn parse(wasm: &[u8]) -> (module: Result<walrus::Module, anyhow::Error>)
    ensures
        match module {
            Ok(m) => parsed(wasm@) == Some(parts_of(m)) && parsed_from(m, wasm@),
            Err(_) => parsed(wasm@) is None,
        },
{
    let mut config = walrus::ModuleConfig::new();
    config.generate_name_section(false);
    config.parse(wasm)
}

/// The text of an `anyhow::Error` with its chain of causes. Nothing is
/// claimed of the text.
#[verifier::external_body]
pub(crate) fn describe(error: &anyhow::Error) -> (text: String) {
    format!("{error:#}")
}

/// `walrus::ModuleMemories::len`: how many memories the module has.
#[verifier::external_body]
fn memory_count(module: &walrus::Module) -> (count: usize)
    ensures
        count == memories_of(*module),
{
    module.memories.len()
}

/// `walrus::ModuleData::iter`: the data segments in the order of the
/// module. A segment is `Absolute` where it is active at an `i32` constant,
/// whose bits are taken as an unsigned address; `Computed` where it is
/// active at anything else.
#[verifier::external_body]
fn data_segments(module: &walrus::Module) -> (data: Vec<Data>)
    ensures
        data@.map_values(|d: Data| d@) == data_of(*module),
{
    module.data.iter().map(|d| Data {
        kind: match &d.kind {
            walrus::DataKind::Active {
                offset: walrus::ConstExpr::Value(walrus::ir::Value::I32(at)),
                ..
            } => DataKind::Absolute(*at as u32),
            walrus::DataKind::Active { .. } => DataKind::Computed,
            walrus::DataKind::Passive => DataKind::Passive,
        },
        value: d.value.clone(),
    }).collect()
}

/// `walrus::ModuleGlobals::iter`: the globals in the order of the module,
/// each with the name that the module gives it. A global is `Const` where
/// it is defined by an `i32` constant.
#[verifier::external_body]
fn globals(module: &walrus::Module) -> (globals: Vec<Global>)
    ensures
        globals@.map_values(|g: Global| g@) == globals_of(*module),
{
    module.globals.iter().map(|g| Global {
        name: g.name.clone(),
        kind: match &g.kind {
            walrus::GlobalKind::Import(_) => GlobalKind::Import,
            walrus::GlobalKind::Local(walrus::ConstExpr::Value(walrus::ir::Value::I32(v))) =>
                GlobalKind::Const(*v),
            walrus::GlobalKind::Local(_) => GlobalKind::Other,
        },
    }).collect()
}

/// `walrus::ModuleCustomSections::iter`: the custom sections in the order
/// of the module. A section is raw where it is a `walrus::RawCustomSection`;
/// of any other only the name is taken.
#[verifier::external_body]
fn custom_sections(module: &walrus::Module) -> (customs: Vec<CustomSection>)
    ensures
        customs@.map_values(|c: CustomSection| c@) == customs_of(*module),
{
    module.customs.iter().map(|(_, s)| match s.as_any().downcast_ref::<walrus::RawCustomSection>() {
        Some(raw) => CustomSection { name: raw.name.clone(), raw: true, data: raw.data.clone() },
        None => CustomSection { name: s.name().to_string(), raw: false, data: Vec::new() },
    }).collect()
}

/// `walrus::ModuleData::get_mut`, on the `i`-th segment that
/// `walrus::ModuleData::iter` gives: replaces the bytes of that segment and
/// leaves everything else as it is.
#[verifier::external_body]
fn set_data(module: &mut walrus::Module, i: usize, value: Vec<u8>)
    requires
        i < data_of(*old(module)).len(),
    ensures
        data_of(*final(module)) == data_of(*old(module)).update(
            i as int,
            DataView { value: value@, ..data_of(*old(module))[i as int] },
        ),
        globals_of(*final(module)) == globals_of(*old(module)),
        customs_of(*final(module)) == customs_of(*old(module)),
        memories_of(*final(module)) == memories_of(*old(module)),
        forall|wasm: Seq<u8>| #[trigger]
            parsed_from(*old(module), wasm) ==> parsed_from(*final(module), wasm),
{
    let id = module.data.iter().nth(i).unwrap().id();
    module.data.get_mut(id).value = value;
}

/// `walrus::ModuleGlobals::get_mut`, on the `i`-th global that
/// `walrus::ModuleGlobals::iter` gives: replaces the `i32` constant that
/// defines that global and leaves everything else as it is.
#[verifier::external_body]
fn set_global(module: &mut walrus::Module, i: usize, value: i32)
    requires
        i < globals_of(*old(module)).len(),
        globals_of(*old(module))[i as int].kind is Const,
    ensures
        globals_of(*final(module)) == globals_of(*old(module)).update(
            i as int,
            GlobalView { kind: GlobalKind::Const(value), ..globals_of(*old(module))[i as int] },
        ),
        data_of(*final(module)) == data_of(*old(module)),
        customs_of(*final(module)) == customs_of(*old(module)),
        memories_of(*final(module)) == memories_of(*old(module)),
        forall|wasm: Seq<u8>| #[trigger]
            parsed_from(*old(module), wasm) ==> parsed_from(*final(module), wasm),
{
    let id = module.globals.iter().nth(i).unwrap().id();
    module.globals.get_mut(id).kind = walrus::GlobalKind::Local(
        walrus::ConstExpr::Value(walrus::ir::Value::I32(value)),
    );
}

/// `walrus::ModuleCustomSections::delete` and then
/// `walrus::ModuleCustomSections::add`, on the `i`-th section that
/// `walrus::ModuleCustomSections::iter` gives: takes that raw section out
/// and adds a raw section with the same name and the new bytes, which the
/// module then holds as its last. Everything else stays as it is.
#[verifier::external_body]
fn replace_custom(module: &mut walrus::Module, i: usize, data: Vec<u8>)
    requires
        i < customs_of(*old(module)).len(),
        customs_of(*old(module))[i as int].raw,
    ensures
        customs_of(*final(module)) == customs_of(*old(module)).remove(i as int).push(
            CustomSectionView { data: data@, ..customs_of(*old(module))[i as int] },
        ),
        data_of(*final(module)) == data_of(*old(module)),
        globals_of(*final(module)) == globals_of(*old(module)),
        memories_of(*final(module)) == memories_of(*old(module)),
        forall|wasm: Seq<u8>| #[trigger]
            parsed_from(*old(module), wasm) ==> parsed_from(*final(module), wasm),
{
    let id = module.customs.iter().nth(i).unwrap().0;
    let old = module.customs.delete(id).unwrap().into_any();
    let name = old.downcast::<walrus::RawCustomSection>().unwrap().name;
    module.customs.add(walrus::RawCustomSection { name, data });
}

/// `walrus::Module::emit_wasm`: the bytes of the module as it is when the
/// call is made. The call panics on a module whose parts name others that
/// are gone, so the module must be one that was parsed and has been changed
/// only in what [`parsed_from`] allows. The bytes then depend on the bytes
/// that it was parsed from and on what it now holds, and on nothing else.
/// Nothing is claimed of the module afterwards.
#[verifier::external_body]
pub(crate) fn emit(module: &mut walrus::Module) -> (wasm: Vec<u8>)
    requires
        intact(*old(module)),
    ensures
        forall|from: Seq<u8>| #[trigger]
            parsed_from(*old(module), from) ==> wasm@ == rewritten(from, parts_of(*old(module))),
{
    module.emit_wasm()
}

/// Whether the parsed module holds what `model` holds.
pub open spec fn mirrors(module: walrus::Module, model: ModuleView) -> bool {
    &&& data_of(module) == model.data
    &&& globals_of(module) == model.globals
    &&& customs_of(module) == model.customs
}

/// Parses the bytes of a compiled module.
///
/// Succeeds exactly where `walrus` takes the bytes for a module, and the
/// module then holds what [`parsed`] says. Fails with the parser's reason
/// where they are not a module.
pub fn parse_module(wasm: &[u8]) -> (module: Result<walrus::Module, ConfigError>)
    ensures
        match parsed(wasm@) {
            Some(parts) => module matches Ok(m) && parts_of(m) == parts && parsed_from(m, wasm@),
            None => module matches Err(e) && e matches ConfigError::Format(
                FormatError::Unparseable(_),
            ),
        },
{
    match parse(wasm) {
        Ok(module) => Ok(module),
        Err(e) => Err(ConfigError::Format(FormatError::Unparseable(describe(&e)))),
    }
}

/// How many linear memories the parsed module has.
pub fn count_memories(module: &walrus::Module) -> (count: usize)
    ensures
        count == memories_of(*module),
{
    memory_count(module)
}

/// Reads out of a parsed module what the embedding needs, whatever the
/// number of its memories. `config` is the address of the control block of
/// the template that was parsed.
pub fn read_parts(module: &walrus::Module, config: u32) -> (model: ModuleModel)
    ensures
        mirrors(*module, model@),
        model.config == config,
{
    ModuleModel {
        data: data_segments(module),
        globals: globals(module),
        customs: custom_sections(module),
        config,
    }
}

/// Reads out of a parsed module what the embedding needs. `config` is the
/// address of the control block of the template that was parsed.
///
/// Fails where the module does not have exactly one linear memory, because
/// the addresses would then not be addresses of one memory.
pub fn read_model(module: &walrus::Module, config: u32) -> (model: Result<ModuleModel, ConfigError>)
    ensures
        match model {
            Ok(m) => memories_of(*module) == 1 && mirrors(*module, m@) && m.config == config,
            Err(e) => memories_of(*module) != 1 && e == ConfigError::Format(
                FormatError::MemoryCount(memories_of(*module) as usize),
            ),
        },
{
    let memories = count_memories(module);
    if memories != 1 {
        return Err(ConfigError::Format(FormatError::MemoryCount(memories)));
    }
    Ok(read_parts(module, config))
}

/// Writes into the parsed module the bytes of every data segment and the
/// value of every constant global of `model`, and gives the section at
/// `section`, which describes the interface, the bytes `payload`.
pub fn write_model(module: &mut walrus::Module, model: &ModuleModel, section: usize, payload: Vec<u8>)
    requires
        same_placement(model@.data, data_of(*old(module))),
        same_globals(model@.globals, globals_of(*old(module))),
        model@.customs == customs_of(*old(module)),
        section < model@.customs.len(),
        model@.customs[section as int].raw,
    ensures
        mirrors(*final(module), with_component_type(model@, section as int, payload@)),
        memories_of(*final(module)) == memories_of(*old(module)),
        forall|wasm: Seq<u8>| #[trigger]
            parsed_from(*old(module), wasm) ==> parsed_from(*final(module), wasm),
{
    let mut i: usize = 0;
    while i < model.data.len()
        invariant
            i <= model.data.len(),
            model@.data.len() == model.data.len(),
            data_of(*module).len() == model@.data.len(),
            forall|j: int| 0 <= j < i ==> (#[trigger] data_of(*module)[j]) == model@.data[j],
            forall|j: int|
                i <= j < model@.data.len() ==> (#[trigger] data_of(*module)[j]).kind
                    == model@.data[j].kind,
            globals_of(*module) == globals_of(*old(module)),
            customs_of(*module) == customs_of(*old(module)),
            memories_of(*module) == memories_of(*old(module)),
            forall|wasm: Seq<u8>| #[trigger]
                parsed_from(*old(module), wasm) ==> parsed_from(*module, wasm),
        decreases model.data.len() - i,
    {
        assert(model@.data[i as int] == model.data[i as int]@);
        let value = model.data[i].value.clone();
        assert(value@ == model.data[i as int].value@);
        set_data(module, i, value);
        i = i + 1;
    }
    assert(data_of(*module) =~= model@.data);
    let mut k: usize = 0;
    while k < model.globals.len()
        invariant
            k <= model.globals.len(),
            model@.globals.len() == model.globals.len(),
            globals_of(*module).len() == model@.globals.len(),
            forall|j: int| 0 <= j < k ==> (#[trigger] globals_of(*module)[j]) == model@.globals[j],
            forall|j: int|
                k <= j < model@.globals.len() ==> {
                    &&& (#[trigger] globals_of(*module)[j]).name == model@.globals[j].name
                    &&& (globals_of(*module)[j].kind == model@.globals[j].kind || (globals_of(
                        *module,
                    )[j].kind is Const && model@.globals[j].kind is Const))
                },
            data_of(*module) == model@.data,
            customs_of(*module) == customs_of(*old(module)),
            memories_of(*module) == memories_of(*old(module)),
            forall|wasm: Seq<u8>| #[trigger]
                parsed_from(*old(module), wasm) ==> parsed_from(*module, wasm),
        decreases model.globals.len() - k,
    {
        assert(model@.globals[k as int] == model.globals[k as int]@);
        match model.globals[k].kind {
            GlobalKind::Const(value) => {
                set_global(module, k, value);
            },
            _ => {},
        }
        k = k + 1;
    }
    assert(globals_of(*module) =~= model@.globals);
    replace_custom(module, section, payload);
}

} // verus!
