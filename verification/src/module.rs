//! The parts of a compiled module that the embedding reads and changes.
//!
//! A [`ModuleModel`] owns its data segments, globals and custom sections. They are
//! held in the order in which the module lists them and are spoken of by
//! their position in that order. The module has one linear memory; all
//! addresses are addresses of it.

use vstd::prelude::*;
use vstd::string::*;

verus! {

/// Where the bytes of a data segment go when the module is instantiated.
#[derive(Clone, Copy, Debug, PartialEq, Eq, Structural)]
pub enum DataKind {
    /// They are copied to this address of the linear memory.
    Absolute(u32),
    /// They are copied to an address that is not a plain constant.
    Computed,
    /// They are copied nowhere until the code asks for it.
    Passive,
}

/// A data segment: bytes and where they go.
#[derive(Clone, Debug, PartialEq, Eq)]
pub struct Data {
    pub kind: DataKind,
    pub value: Vec<u8>,
}

/// What a data segment is in contracts.
pub struct DataView {
    pub kind: DataKind,
    pub value: Seq<u8>,
}

impl View for Data {
    type V = DataView;

    open spec fn view(&self) -> DataView {
        DataView { kind: self.kind, value: self.value@ }
    }
}

/// What a global starts with.
#[derive(Clone, Copy, Debug, PartialEq, Eq, Structural)]
pub enum GlobalKind {
    /// It is imported; its value is not known.
    Import,
    /// It is defined by this plain 32-bit constant.
    Const(i32),
    /// It is defined by anything else.
    Other,
}

/// A global: a scalar outside the linear memory.
#[derive(Clone, Debug, PartialEq, Eq)]
pub struct Global {
    pub name: Option<String>,
    pub kind: GlobalKind,
}

/// What a global is in contracts.
pub struct GlobalView {
    pub name: Option<Seq<char>>,
    pub kind: GlobalKind,
}

impl View for Global {
    type V = GlobalView;

    open spec fn view(&self) -> GlobalView {
        GlobalView {
            name: match self.name {
                Some(name) => Some(name@),
                None => None,
            },
            kind: self.kind,
        }
    }
}

/// A custom section: named bytes that the module carries along.
#[derive(Clone, Debug, PartialEq, Eq)]
pub struct CustomSection {
    pub name: String,
    /// Whether the bytes are held as they stand in the module, and not in a
    /// form that some tool has parsed them into.
    pub raw: bool,
    pub data: Vec<u8>,
}

/// What a custom section is in contracts.
pub struct CustomSectionView {
    pub name: Seq<char>,
    pub raw: bool,
    pub data: Seq<u8>,
}

impl View for CustomSection {
    type V = CustomSectionView;

    open spec fn view(&self) -> CustomSectionView {
        CustomSectionView { name: self.name@, raw: self.raw, data: self.data@ }
    }
}

/// The static structure of a compiled module, as far as the embedding
/// needs it.
#[derive(Clone, Debug, PartialEq, Eq)]
pub struct ModuleModel {
    pub data: Vec<Data>,
    pub globals: Vec<Global>,
    pub customs: Vec<CustomSection>,
    /// The address of the control block: the record through which the code
    /// of the module finds its configuration. It is fixed when the template
    /// is built.
    pub config: u32,
}

/// What a module is in contracts.
pub struct ModuleView {
    pub data: Seq<DataView>,
    pub globals: Seq<GlobalView>,
    pub customs: Seq<CustomSectionView>,
    pub config: u32,
}

impl View for ModuleModel {
    type V = ModuleView;

    open spec fn view(&self) -> ModuleView {
        ModuleView {
            data: self.data@.map_values(|d: Data| d@),
            globals: self.globals@.map_values(|g: Global| g@),
            customs: self.customs@.map_values(|c: CustomSection| c@),
            config: self.config,
        }
    }
}

} // verus!
