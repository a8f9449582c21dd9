//! The failures the library reports.
//!
//! Every failure ends the invocation: nothing is retried and no partial
//! artifact is handed out. Each value carries the address, index or amount
//! that is needed to find the fault in a template without opening it by hand.

use vstd::prelude::*;

verus! {

/// The four families a failure belongs to.
#[derive(Clone, Copy, Debug, PartialEq, Eq, Structural)]
pub enum ErrorKind {
    /// The template cannot be read, or lacks a required element.
    Format,
    /// An address cannot be placed, or the stack cannot give up the space.
    Layout,
    /// The patched module cannot be turned into the final artifact.
    Encoding,
    /// The caller supplied something that cannot be embedded.
    Input,
}

/// The template, or a blob read back from it, is not what it has to be.
#[derive(Clone, Debug, PartialEq, Eq)]
pub enum FormatError {
    /// The template bytes are not a module; the text is the parser's reason.
    Unparseable(String),
    /// The template defines this many linear memories, not exactly one.
    MemoryCount(usize),
    /// No raw custom section is named `component-type:...`.
    MissingComponentType,
    /// Two raw custom sections are named `component-type:...`; these are the
    /// positions of the first two.
    AmbiguousComponentType { first: usize, second: usize },
    /// The interface description is not a package, or it cannot be decoded;
    /// the text is the decoder's reason.
    BadPackage(String),
    /// The world cannot be found in the package, or what it declares cannot
    /// be written down; the text is the reason.
    UnresolvedWorld(String),
    /// The blob ends inside the field that starts at this offset.
    TruncatedBlob { offset: usize },
    /// The field that starts at this offset does not hold UTF-8 text.
    InvalidText { offset: usize },
}

/// The template's memory layout does not allow the operation.
#[derive(Clone, Copy, Debug, PartialEq, Eq, Structural)]
pub enum LayoutError {
    /// No data segment starts at or below this address.
    Unlocatable { address: u32 },
    /// The active segment at this position is not placed at a fixed
    /// absolute offset, so it is unknown which addresses it covers.
    FloatingSegment { segment: usize },
    /// The stack may only move by multiples of eight bytes.
    Misaligned { amount: u32 },
    /// No global is named `__stack_pointer`.
    MissingStackGlobal,
    /// The stack global at this position is not a plain 32-bit constant.
    StackNotConstant { global: usize },
    /// The stack top is lower than the amount asked for.
    StackTooSmall { top: i32, amount: u32 },
    /// The control block that starts at this offset of this segment runs
    /// past the end of the segment's bytes.
    ControlBlockTruncated { segment: usize, offset: usize },
}

/// The patched module cannot be turned into the final artifact.
#[derive(Clone, Debug, PartialEq, Eq)]
pub enum EncodingError {
    /// The component encoder refused the module or its metadata; the text is
    /// its reason.
    Rejected(String),
}

/// The caller supplied something that cannot be embedded.
#[derive(Clone, Copy, Debug, PartialEq, Eq, Structural)]
pub enum InputError {
    /// The property at this position has no `=` between key and value.
    MalformedProperty { index: usize },
    /// A key or value of the entry at this position is longer than a 32-bit
    /// length prefix can say.
    FieldTooLong { entry: usize },
    /// There are more entries than the 32-bit count field can say.
    TooManyEntries,
    /// The encoded entries are larger than any 32-bit stack could hold.
    BlobTooLarge,
}

/// Any failure of the library.
#[derive(Clone, Debug, PartialEq, Eq)]
pub enum ConfigError {
    Format(FormatError),
    Layout(LayoutError),
    Encoding(EncodingError),
    Input(InputError),
}

impl ConfigError {
    /// The family of this failure.
    pub open spec fn spec_kind(&self) -> ErrorKind {
        match self {
            ConfigError::Format(_) => ErrorKind::Format,
            ConfigError::Layout(_) => ErrorKind::Layout,
            ConfigError::Encoding(_) => ErrorKind::Encoding,
            ConfigError::Input(_) => ErrorKind::Input,
        }
    }

    /// The family of this failure.
    #[verifier::when_used_as_spec(spec_kind)]
    pub fn kind(&self) -> (kind: ErrorKind)
        ensures
            kind == self.spec_kind(),
    {
        match self {
            ConfigError::Format(_) => ErrorKind::Format,
            ConfigError::Layout(_) => ErrorKind::Layout,
            ConfigError::Encoding(_) => ErrorKind::Encoding,
            ConfigError::Input(_) => ErrorKind::Input,
        }
    }

    /// One line that says what went wrong, without the values the failure
    /// carries.
    pub fn summary(&self) -> (text: &'static str)
        ensures
            text@ == summary_of(*self),
    {
        match self {
            ConfigError::Format(FormatError::Unparseable(_)) => "the template is not a valid module",
            ConfigError::Format(FormatError::MemoryCount(_)) =>
                "the template must define exactly one linear memory",
            ConfigError::Format(FormatError::MissingComponentType) =>
                "Unable to find component type section",
            ConfigError::Format(FormatError::AmbiguousComponentType { .. }) =>
                "more than one component type section",
            ConfigError::Format(FormatError::BadPackage(_)) =>
                "the interface description is not a package",
            ConfigError::Format(FormatError::UnresolvedWorld(_)) => "unable to resolve the world",
            ConfigError::Format(FormatError::TruncatedBlob { .. }) =>
                "the configuration data ends inside a field",
            ConfigError::Format(FormatError::InvalidText { .. }) =>
                "the configuration data holds a field that is not text",
            ConfigError::Layout(LayoutError::Unlocatable { .. }) =>
                "Unable to find data section for ptr",
            ConfigError::Layout(LayoutError::FloatingSegment { .. }) =>
                "Adapter data memory is not absolutely offset",
            ConfigError::Layout(LayoutError::Misaligned { .. }) =>
                "Stack global must be bumped by 8 byte alignment",
            ConfigError::Layout(LayoutError::MissingStackGlobal) =>
                "Unable to find __stack_pointer global name",
            ConfigError::Layout(LayoutError::StackNotConstant { .. }) =>
                "Stack global is not a constant I32",
            ConfigError::Layout(LayoutError::StackTooSmall { .. }) =>
                "Stack size is smaller than the offset",
            ConfigError::Layout(LayoutError::ControlBlockTruncated { .. }) =>
                "the control block runs past the end of its data segment",
            ConfigError::Encoding(EncodingError::Rejected(_)) =>
                "the patched module cannot be encoded as a component",
            ConfigError::Input(InputError::MalformedProperty { .. }) =>
                "Property must take form key=value",
            ConfigError::Input(InputError::FieldTooLong { .. }) =>
                "a key or value is too long to embed",
            ConfigError::Input(InputError::TooManyEntries) => "too many entries to embed",
            ConfigError::Input(InputError::BlobTooLarge) => "the entries are too large to embed",
        }
    }
}

/// The text that [`ConfigError::summary`] gives for each failure.
pub open spec fn summary_of(error: ConfigError) -> Seq<char> {
    match error {
        ConfigError::Format(FormatError::Unparseable(_)) => "the template is not a valid module"@,
        ConfigError::Format(FormatError::MemoryCount(_)) =>
            "the template must define exactly one linear memory"@,
        ConfigError::Format(FormatError::MissingComponentType) =>
            "Unable to find component type section"@,
        ConfigError::Format(FormatError::AmbiguousComponentType { .. }) =>
            "more than one component type section"@,
        ConfigError::Format(FormatError::BadPackage(_)) => "the interface description is not a package"@,
        ConfigError::Format(FormatError::UnresolvedWorld(_)) => "unable to resolve the world"@,
        ConfigError::Format(FormatError::TruncatedBlob { .. }) =>
            "the configuration data ends inside a field"@,
        ConfigError::Format(FormatError::InvalidText { .. }) =>
            "the configuration data holds a field that is not text"@,
        ConfigError::Layout(LayoutError::Unlocatable { .. }) =>
            "Unable to find data section for ptr"@,
        ConfigError::Layout(LayoutError::FloatingSegment { .. }) =>
            "Adapter data memory is not absolutely offset"@,
        ConfigError::Layout(LayoutError::Misaligned { .. }) =>
            "Stack global must be bumped by 8 byte alignment"@,
        ConfigError::Layout(LayoutError::MissingStackGlobal) =>
            "Unable to find __stack_pointer global name"@,
        ConfigError::Layout(LayoutError::StackNotConstant { .. }) =>
            "Stack global is not a constant I32"@,
        ConfigError::Layout(LayoutError::StackTooSmall { .. }) =>
            "Stack size is smaller than the offset"@,
        ConfigError::Layout(LayoutError::ControlBlockTruncated { .. }) =>
            "the control block runs past the end of its data segment"@,
        ConfigError::Encoding(EncodingError::Rejected(_)) =>
            "the patched module cannot be encoded as a component"@,
        ConfigError::Input(InputError::MalformedProperty { .. }) =>
            "Property must take form key=value"@,
        ConfigError::Input(InputError::FieldTooLong { .. }) => "a key or value is too long to embed"@,
        ConfigError::Input(InputError::TooManyEntries) => "too many entries to embed"@,
        ConfigError::Input(InputError::BlobTooLarge) => "the entries are too large to embed"@,
    }
}

} // verus!
