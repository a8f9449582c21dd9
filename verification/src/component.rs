//! From a template and entries to the finished artifact.
//!
//! A template is parsed, the entries are embedded into it, the description
//! of its interface is replaced by one that names only the world of the
//! configuration provider, and the result is written out as a component.
//!
//! The description and the component are made by the `wit_component` crate.
//! What it makes depends on the bytes it is given and on nothing else; the
//! contracts speak of it through [`decoded_kind`], [`world_section`] and
//! [`component_of`].

use vstd::prelude::*;
use vstd::string::*;
use crate::binary::{
    count_memories,
    describe,
    emit,
    intact,
    memories_of,
    mirrors,
    parse_module,
    parsed,
    parsed_from,
    parts_of,
    parts_with,
    read_parts,
    rewritten,
    write_model,
    Parts,
};
use crate::config::{load, CONTROL_BLOCK_SIZE};
use crate::embed::{
    data_address,
    embedded,
    lemma_placed_shape,
    lemma_read_back,
    place,
    placed,
    prepare,
    prepared,
    round_up_8,
};
use crate::error::{ConfigError, EncodingError, FormatError};
use crate::layout::{reserve, same_globals, same_placement};
use crate::metadata::{find_component_type, with_component_type};
use crate::module::ModuleView;
use crate::wire::{decode_entries, encode_entries, entries_view};

verus! {

/// The world that the finished artifact implements.
pub const WORLD: &'static str = "adapter";

/// The field of the producers under which this library records itself.
pub const PRODUCER_FIELD: &'static str = "processed-by";

/// The name under which this library records that it processed the module.
pub const PRODUCER: &'static str = "static-config";

/// The version that this library records with its name.
pub const PRODUCER_VERSION: &'static str = "0.1.0";

/// What every artifact is made from.
#[derive(Clone, Debug, PartialEq, Eq)]
pub struct Template {
    /// The compiled module of the configuration provider, built with an
    /// empty configuration.
    pub adapter: Vec<u8>,
    /// The package that declares the worlds of the provider, in its binary
    /// form.
    pub package: Vec<u8>,
    /// The address of the control block in the memory of `adapter`.
    pub config: u32,
}

/// What `wit_component` decodes these bytes as: a package (`true`), a
/// component (`false`), or nothing where it cannot decode them.
pub uninterp spec fn decoded_kind(bytes: Seq<u8>) -> Option<bool>;

/// The bytes of the custom section that `wit_component` writes for the
/// world `world` of the package that these bytes hold, with `name` and
/// `version` in the field `field` of the producers; or nothing where the
/// bytes cannot be decoded, the world is not found, or it cannot be written.
pub uninterp spec fn world_section(
    package: Seq<u8>,
    world: Seq<char>,
    field: Seq<char>,
    name: Seq<char>,
    version: Seq<char>,
) -> Option<Seq<u8>>;

/// The component that `wit_component` makes of the core module that these
/// bytes hold, or nothing where it refuses the module or the description of
/// the interface that the module carries.
pub uninterp spec fn component_of(module: Seq<u8>) -> Option<Seq<u8>>;

/// What is said of bytes that hold a component where a package is needed.
pub const NOT_A_PACKAGE: &'static str = "expected a WIT package, found a component";

/// `wit_component::decode`, and which of the two things it decoded: a
/// package or a component. That depends on the bytes alone.
#[verifier::external_body]
fn package_kind(bytes: &[u8]) -> (kind: Result<bool, anyhow::Error>)
    ensures
        match kind {
            Ok(package) => decoded_kind(bytes@) == Some(package),
            Err(_) => decoded_kind(bytes@) is None,
        },
{
    match wit_component::decode(bytes)? {
        wit_component::DecodedWasm::WitPackage(..) => Ok(true),
        wit_component::DecodedWasm::Component(..) => Ok(false),
    }
}

/// `wit_component::metadata::encode`, with UTF-8 strings, for the world that
/// `wit_parser::Resolve::select_world` finds under the name `world` in the
/// package that `wit_component::decode` reads from `package`, and for
/// producers that hold `name` and `version` in the field `field`. The
/// result depends on these arguments alone. The bytes must hold a package.
#[verifier::external_body]
fn encode_world(package: &[u8], world: &str, field: &str, name: &str, version: &str) -> (section:
    Result<Vec<u8>, anyhow::Error>)
    requires
        decoded_kind(package@) == Some(true),
    ensures
        match section {
            Ok(bytes) => world_section(package@, world@, field@, name@, version@) == Some(bytes@),
            Err(_) => world_section(package@, world@, field@, name@, version@) is None,
        },
{
    let decoded = wit_component::decode(package)?;
    let resolve = decoded.resolve();
    let world = resolve.select_world(&[decoded.package()], Some(world))?;
    let mut producers = wasm_metadata::Producers::default();
    producers.add(field, name, version);
    let encoding = wit_component::StringEncoding::UTF8;
    wit_component::metadata::encode(resolve, world, encoding, Some(&producers), false)
}

/// `wit_component::ComponentEncoder::encode`, for the core module `module`
/// and with validation of the output. The result depends on the bytes of
/// the module alone.
#[verifier::external_body]
fn encode_component(module: &[u8]) -> (component: Result<Vec<u8>, anyhow::Error>)
    ensures
        match component {
            Ok(bytes) => component_of(module@) == Some(bytes@),
            Err(_) => component_of(module@) is None,
        },
{
    wit_component::ComponentEncoder::default().validate(true).module(module)?.encode()
}

/// Why bytes give no description of the interface.
pub enum PackageFault {
    /// They cannot be decoded.
    Undecodable,
    /// They hold a component, not a package.
    Component,
    /// The package has no such world, or the world cannot be written down.
    World,
}

/// What [`component_type`] gives for these bytes: the section for the world
/// [`WORLD`] with this library as a producer, or why there is none.
pub open spec fn component_type_of(package: Seq<u8>) -> Result<Seq<u8>, PackageFault> {
    match decoded_kind(package) {
        None => Err(PackageFault::Undecodable),
        Some(false) => Err(PackageFault::Component),
        Some(true) => match world_section(
            package,
            WORLD@,
            PRODUCER_FIELD@,
            PRODUCER@,
            PRODUCER_VERSION@,
        ) {
            Some(bytes) => Ok(bytes),
            None => Err(PackageFault::World),
        },
    }
}

/// The bytes of a custom section that declares the world [`WORLD`] of the
/// package, and no other, and records this library as a producer.
///
/// Succeeds exactly where the bytes hold a package that has such a world,
/// and returns what [`world_section`] says. Fails as a bad package where the
/// bytes cannot be decoded or hold a component, and as an unresolved world
/// where the package has no such world or the world cannot be written down.
pub fn component_type(package: &[u8]) -> (section: Result<Vec<u8>, ConfigError>)
    ensures
        match component_type_of(package@) {
            Ok(bytes) => section matches Ok(s) && s@ == bytes,
            Err(PackageFault::Undecodable) => section matches Err(e) && e matches ConfigError::Format(
                FormatError::BadPackage(_),
            ),
            Err(PackageFault::Component) => section matches Err(e) && (e matches ConfigError::Format(
                FormatError::BadPackage(text),
            ) && text@ == NOT_A_PACKAGE@),
            Err(PackageFault::World) => section matches Err(e) && e matches ConfigError::Format(
                FormatError::UnresolvedWorld(_),
            ),
        },
{
    match package_kind(package) {
        Err(e) => {
            return Err(ConfigError::Format(FormatError::BadPackage(describe(&e))));
        },
        Ok(false) => {
            return Err(ConfigError::Format(FormatError::BadPackage(NOT_A_PACKAGE.to_string())));
        },
        Ok(true) => {},
    }
    match encode_world(package, WORLD, PRODUCER_FIELD, PRODUCER, PRODUCER_VERSION) {
        Ok(section) => Ok(section),
        Err(e) => Err(ConfigError::Format(FormatError::UnresolvedWorld(describe(&e)))),
    }
}

/// Writes the module out and wraps it, with the description of its
/// interface, into a component.
///
/// The module must be one that was parsed and has been changed only in what
/// [`parsed_from`] allows: writing out another may not come back. It
/// succeeds exactly where the encoder accepts the bytes that the module is
/// written out as, and returns the component that it makes of them. Nothing
/// is said of what the module holds afterwards.
pub fn finalize(module: &mut walrus::Module) -> (artifact: Result<Vec<u8>, ConfigError>)
    requires
        intact(*old(module)),
    ensures
        forall|wasm: Seq<u8>| #[trigger]
            parsed_from(*old(module), wasm) ==> match component_of(
                rewritten(wasm, parts_of(*old(module))),
            ) {
                Some(bytes) => artifact matches Ok(a) && a@ == bytes,
                None => artifact matches Err(e) && e matches ConfigError::Encoding(
                    EncodingError::Rejected(_),
                ),
            },
{
    let bytes = emit(module);
    match encode_component(bytes.as_slice()) {
        Ok(artifact) => Ok(artifact),
        Err(e) => Err(ConfigError::Encoding(EncodingError::Rejected(describe(&e)))),
    }
}

/// The model of a module that holds these parts, with `config` as the
/// address of its control block.
pub open spec fn model_of_parts(parts: Parts, config: u32) -> ModuleView {
    ModuleView { data: parts.data, globals: parts.globals, customs: parts.customs, config }
}

/// What the parsed module holds, with `config` as the address of its
/// control block.
pub open spec fn model_of(module: walrus::Module, config: u32) -> ModuleView {
    model_of_parts(parts_of(module), config)
}

/// What the steps of patching that this library decides come to, for a
/// module that holds these parts: the data must find its place, the module
/// must have one memory, and one section must describe the interface; that
/// is looked at in this order. Where they succeed, this is the patched
/// model and the position of that section.
pub open spec fn patchable_parts(parts: Parts, config: u32, blob: Seq<u8>, count: u32) -> Result<
    (ModuleView, int),
    ConfigError,
> {
    match placed(model_of_parts(parts, config), blob, count) {
        Err(e) => Err(e),
        Ok(patched) => if parts.memories != 1 {
            Err(ConfigError::Format(FormatError::MemoryCount(parts.memories as usize)))
        } else {
            match find_component_type(patched.customs) {
                Err(e) => Err(ConfigError::Format(e)),
                Ok(section) => Ok((patched, section)),
            }
        },
    }
}

/// What the steps of [`patch_module`] that this library decides come to.
pub open spec fn patchable(module: walrus::Module, config: u32, blob: Seq<u8>, count: u32) -> Result<
    (ModuleView, int),
    ConfigError,
> {
    patchable_parts(parts_of(module), config, blob, count)
}

/// Places the data of `count` entries in the parsed module and replaces the
/// description of its interface by the world [`WORLD`] of `package`.
/// Returns the bytes of the new description.
///
/// Succeeds exactly where the steps that this library decides succeed and
/// the package gives a description. The module then holds the data segments
/// and globals that [`placed`] says, and its custom sections are those it
/// had, but for the one that describes the interface: that one is now the
/// last and has the new bytes. What else the module holds stays as it is.
/// Where a step that this library decides fails, its failure is returned;
/// where all of them succeed, the failure is that of the package. On
/// failure the module is unchanged.
pub fn patch_module(
    module: &mut walrus::Module,
    config: u32,
    package: &[u8],
    blob: &[u8],
    count: u32,
) -> (done: Result<Vec<u8>, ConfigError>)
    ensures
        match patchable(*old(module), config, blob@, count) {
            Err(e) => done matches Err(f) && f == e,
            Ok((patched, section)) => match component_type_of(package@) {
                Ok(bytes) => done matches Ok(payload) && payload@ == bytes && mirrors(
                    *final(module),
                    with_component_type(patched, section, bytes),
                ),
                Err(PackageFault::World) => done matches Err(f) && f matches ConfigError::Format(
                    FormatError::UnresolvedWorld(_),
                ),
                Err(_) => done matches Err(f) && f matches ConfigError::Format(
                    FormatError::BadPackage(_),
                ),
            },
        },
        memories_of(*final(module)) == memories_of(*old(module)),
        forall|wasm: Seq<u8>| #[trigger]
            parsed_from(*old(module), wasm) ==> parsed_from(*final(module), wasm),
        done is Err ==> *final(module) == *old(module),
{
    let model = read_parts(module, config);
    assert(model@ == model_of(*module, config));
    let patched = match place(model, blob, count) {
        Ok(patched) => patched,
        Err(e) => { return Err(e); },
    };
    proof {
        lemma_placed_shape(model_of(*module, config), blob@, count);
    }
    let memories = count_memories(module);
    if memories != 1 {
        return Err(ConfigError::Format(FormatError::MemoryCount(memories)));
    }
    let section = match patched.find_component_type() {
        Ok(section) => section,
        Err(e) => { return Err(e); },
    };
    let payload = match component_type(package) {
        Ok(payload) => payload,
        Err(e) => { return Err(e); },
    };
    write_model(module, &patched, section, payload.clone());
    Ok(payload)
}

/// The model of the module that the artifact is made of: the template's
/// parts with the entries placed and the description of the interface
/// replaced. There is none where a step before the encoding fails.
pub open spec fn final_model(template: Template, entries: Seq<(Seq<char>, Seq<char>)>) -> Option<
    ModuleView,
> {
    match (prepared(entries), parsed(template.adapter@), component_type_of(template.package@)) {
        (Ok(blob), Some(parts), Ok(payload)) => match patchable_parts(
            parts,
            template.config,
            blob,
            entries.len() as u32,
        ) {
            Ok((patched, section)) => Some(with_component_type(patched, section, payload)),
            Err(_) => None,
        },
        _ => None,
    }
}

/// The bytes of the module that the artifact is made of: what `walrus`
/// writes out for the template once it holds what [`final_model`] says, with
/// the memories that it had.
pub open spec fn final_module(template: Template, entries: Seq<(Seq<char>, Seq<char>)>) -> Seq<u8> {
    rewritten(
        template.adapter@,
        parts_with(
            final_model(template, entries)->Some_0,
            parsed(template.adapter@)->Some_0.memories,
        ),
    )
}

/// What [`create_component`] owes for a template and entries: the failure of
/// the first step that fails, or the component of the template's module with
/// the entries placed and the description of the interface replaced.
pub open spec fn created(
    template: Template,
    entries: Seq<(Seq<char>, Seq<char>)>,
    artifact: Result<Vec<u8>, ConfigError>,
) -> bool {
    match prepared(entries) {
        Err(e) => artifact matches Err(f) && f == ConfigError::Input(e),
        Ok(blob) => match parsed(template.adapter@) {
            None => artifact matches Err(f) && f matches ConfigError::Format(
                FormatError::Unparseable(_),
            ),
            Some(parts) => match patchable_parts(
                parts,
                template.config,
                blob,
                entries.len() as u32,
            ) {
                Err(e) => artifact matches Err(f) && f == e,
                Ok(_) => match component_type_of(template.package@) {
                    Err(PackageFault::World) => artifact matches Err(f) && f matches ConfigError::Format(
                        FormatError::UnresolvedWorld(_),
                    ),
                    Err(_) => artifact matches Err(f) && f matches ConfigError::Format(
                        FormatError::BadPackage(_),
                    ),
                    Ok(_) => match component_of(final_module(template, entries)) {
                        Some(bytes) => artifact matches Ok(a) && a@ == bytes,
                        None => artifact matches Err(f) && f matches ConfigError::Encoding(
                            EncodingError::Rejected(_),
                        ),
                    },
                },
            },
        },
    }
}

/// An artifact is made only where every step succeeds, and it is then the
/// component of the module that [`final_module`] says. Where a step fails
/// there is no artifact.
pub proof fn lemma_created_artifact(
    template: Template,
    entries: Seq<(Seq<char>, Seq<char>)>,
    artifact: Result<Vec<u8>, ConfigError>,
)
    requires
        created(template, entries, artifact),
    ensures
        final_model(template, entries) is None ==> artifact is Err,
        artifact matches Ok(bytes) ==> final_model(template, entries) is Some && component_of(
            final_module(template, entries),
        ) == Some(bytes@),
{
}

/// The same template and the same entries give the same result: a failure
/// both times, or the same bytes both times.
pub proof fn lemma_created_same(
    template: Template,
    entries: Seq<(Seq<char>, Seq<char>)>,
    first: Result<Vec<u8>, ConfigError>,
    second: Result<Vec<u8>, ConfigError>,
)
    requires
        created(template, entries, first),
        created(template, entries, second),
    ensures
        first is Ok <==> second is Ok,
        first matches Ok(a) ==> second matches Ok(b) && a@ == b@,
        first matches Err(e) ==> second matches Err(f) && e.kind() == f.kind(),
{
}

/// The module that the artifact is made of serves the entries: its control
/// block holds their number, and reading that many entries from the data it
/// leads to gives them in their order and with their duplicates. Its data
/// segments are placed as the template's, its globals are the template's
/// but for the value of the stack global, and the address of the control
/// block is the template's.
///
/// This needs the control block to lie outside the freed stack space that
/// the data takes.
pub proof fn lemma_final_model_serves(template: Template, entries: Seq<(Seq<char>, Seq<char>)>)
    requires
        final_model(template, entries) is Some,
        ({
            let module = model_of_parts(parsed(template.adapter@)->Some_0, template.config);
            module.config + CONTROL_BLOCK_SIZE <= data_address(module, entries) || data_address(
                module,
                entries,
            ) + encode_entries(entries).len() <= module.config
        }),
    ensures
        ({
            let parts = parsed(template.adapter@)->Some_0;
            let model = final_model(template, entries)->Some_0;
            &&& load(model) matches Ok(config) && config.host_field_cnt == entries.len()
                && decode_entries(config.host_field_data, 0, config.host_field_cnt as nat) == Ok::<
                Seq<(Seq<char>, Seq<char>)>,
                FormatError,
            >(entries)
            &&& same_placement(model.data, parts.data)
            &&& same_globals(model.globals, parts.globals)
            &&& model.config == template.config
        }),
{
    let parts = parsed(template.adapter@)->Some_0;
    let module = model_of_parts(parts, template.config);
    let blob = prepared(entries)->Ok_0;
    let (patched, section) = patchable_parts(
        parts,
        template.config,
        blob,
        entries.len() as u32,
    )->Ok_0;
    assert(embedded(module, entries) == Ok::<ModuleView, ConfigError>(patched));
    lemma_read_back(module, entries);
    lemma_placed_shape(module, blob, entries.len() as u32);
    let model = final_model(template, entries)->Some_0;
    assert(model.data == patched.data);
    assert(model.config == patched.config);
}

/// Where the stack cannot give up the space for the entries, that failure
/// is the result, whatever else the template holds: a template without the
/// stack global, with a stack global that is no constant, or with a stack
/// that is too small gives no artifact.
pub proof fn lemma_created_stack_failure(
    template: Template,
    entries: Seq<(Seq<char>, Seq<char>)>,
    artifact: Result<Vec<u8>, ConfigError>,
)
    requires
        created(template, entries, artifact),
        prepared(entries) is Ok,
        parsed(template.adapter@) is Some,
    ensures
        reserve(
            parsed(template.adapter@)->Some_0.globals,
            round_up_8(prepared(entries)->Ok_0.len() as int) as u32,
        ) matches Err(e) ==> artifact matches Err(f) && f == ConfigError::Layout(e),
{
}

/// Where the template holds no section that describes the interface, or
/// more than one, and the data finds its place in its one memory, that
/// failure is the result.
pub proof fn lemma_created_component_type_failure(
    template: Template,
    entries: Seq<(Seq<char>, Seq<char>)>,
    artifact: Result<Vec<u8>, ConfigError>,
)
    requires
        created(template, entries, artifact),
        prepared(entries) is Ok,
        parsed(template.adapter@) matches Some(parts) && parts.memories == 1 && placed(
            model_of_parts(parts, template.config),
            prepared(entries)->Ok_0,
            entries.len() as u32,
        ) is Ok,
    ensures
        find_component_type(parsed(template.adapter@)->Some_0.customs) matches Err(e)
            ==> artifact matches Err(f) && f == ConfigError::Format(e),
{
    let parts = parsed(template.adapter@)->Some_0;
    lemma_placed_shape(
        model_of_parts(parts, template.config),
        prepared(entries)->Ok_0,
        entries.len() as u32,
    );
}

/// Makes the artifact that returns `values` as its configuration.
///
/// The steps are taken in this order, and the failure of the first that
/// fails is the result: the entries are written in the wire format; the
/// template is parsed; the data is placed and the section that describes
/// the interface is found, as [`patchable_parts`] says; the package gives
/// the new description, as [`component_type_of`] says; the module that then
/// holds all this is written out and made a component. Where every step
/// succeeds that component is the result.
pub fn create_component(template: &Template, values: Vec<(String, String)>) -> (artifact: Result<
    Vec<u8>,
    ConfigError,
>)
    ensures
        created(*template, entries_view(values@), artifact),
{
    let (blob, count) = match prepare(&values) {
        Ok(prepared) => prepared,
        Err(e) => { return Err(e); },
    };
    assert(entries_view(values@).len() == values@.len());
    let mut module = match parse_module(template.adapter.as_slice()) {
        Ok(module) => module,
        Err(e) => { return Err(e); },
    };
    let ghost parts = parts_of(module);
    match patch_module(
        &mut module,
        template.config,
        template.package.as_slice(),
        blob.as_slice(),
        count,
    ) {
        Ok(_) => {},
        Err(e) => { return Err(e); },
    }
    assert(parsed_from(module, template.adapter@));
    assert(parts_of(module) == parts_with(
        final_model(*template, entries_view(values@))->Some_0,
        parts.memories,
    ));
    finalize(&mut module)
}

} // verus!
