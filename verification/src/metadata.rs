//! The custom section that describes the interface of the module.
//!
//! A template carries exactly one raw custom section whose name begins with
//! [`COMPONENT_TYPE_PREFIX`]. Re-attaching the description takes that section
//! out, gives it new bytes, and puts it back as the module's last custom
//! section. Data segments and globals are not touched.

use vstd::prelude::*;
use vstd::string::*;
use vstd::utf8::*;
use crate::error::{ConfigError, FormatError};
use crate::module::{CustomSectionView, ModuleModel, ModuleView};
use crate::text::{is_prefix, starts_with};

verus! {

/// How the name of a section that describes the interface begins.
pub const COMPONENT_TYPE_PREFIX: &'static str = "component-type:";

/// Whether the section describes the interface: it is raw, and the UTF-8
/// bytes of its name begin with those of [`COMPONENT_TYPE_PREFIX`].
pub open spec fn is_component_type(section: CustomSectionView) -> bool {
    section.raw && is_prefix(encode_utf8(COMPONENT_TYPE_PREFIX@), encode_utf8(section.name))
}

/// Whether `i` is the first section from `from` on that describes the
/// interface.
pub open spec fn next_component_type(customs: Seq<CustomSectionView>, from: int, i: int) -> bool {
    &&& 0 <= from <= i < customs.len()
    &&& is_component_type(customs[i])
    &&& forall|j: int| from <= j < i ==> !is_component_type(#[trigger] customs[j])
}

/// The position of the one section that describes the interface.
pub open spec fn find_component_type(customs: Seq<CustomSectionView>) -> Result<int, FormatError> {
    if exists|i: int| next_component_type(customs, 0, i) {
        let first = choose|i: int| next_component_type(customs, 0, i);
        let after = first + 1;
        if exists|j: int| next_component_type(customs, after, j) {
            Err(
                FormatError::AmbiguousComponentType {
                    first: first as usize,
                    second: (choose|j: int| next_component_type(customs, after, j)) as usize,
                },
            )
        } else {
            Ok(first)
        }
    } else {
        Err(FormatError::MissingComponentType)
    }
}

/// The module with the bytes of the section at `i` replaced, and that
/// section moved behind the others.
pub open spec fn with_component_type(module: ModuleView, i: int, data: Seq<u8>) -> ModuleView {
    ModuleView {
        customs: module.customs.remove(i).push(CustomSectionView { data, ..module.customs[i] }),
        ..module
    }
}

/// What re-attaching `data` as the description of the interface gives.
pub open spec fn reattached(module: ModuleView, data: Seq<u8>) -> Result<ModuleView, FormatError> {
    match find_component_type(module.customs) {
        Ok(i) => Ok(with_component_type(module, i, data)),
        Err(e) => Err(e),
    }
}

/// From one position on, at most one section is the next that describes the
/// interface.
pub proof fn lemma_next_component_type_unique(
    customs: Seq<CustomSectionView>,
    from: int,
    i: int,
    j: int,
)
    requires
        next_component_type(customs, from, i),
        next_component_type(customs, from, j),
    ensures
        i == j,
{
    if i < j {
        assert(!is_component_type(customs[i]));
    } else if j < i {
        assert(!is_component_type(customs[j]));
    }
}

impl ModuleModel {
    /// The position of the first section from `from` on that describes the
    /// interface.
    fn next_component_type(&self, from: usize) -> (found: Option<usize>)
        requires
            from <= self.customs.len(),
        ensures
            match found {
                Some(i) => next_component_type(self@.customs, from as int, i as int),
                None => forall|i: int| !next_component_type(self@.customs, from as int, i),
            },
    {
        let ghost customs = self@.customs;
        let mut i: usize = from;
        while i < self.customs.len()
            invariant
                from <= i <= self.customs.len(),
                customs == self@.customs,
                customs.len() == self.customs.len(),
                forall|j: int| from <= j < i ==> !is_component_type(#[trigger] customs[j]),
            decreases self.customs.len() - i,
        {
            assert(customs[i as int] == self.customs[i as int]@);
            let section = &self.customs[i];
            if section.raw && starts_with(section.name.as_str(), COMPONENT_TYPE_PREFIX) {
                return Some(i);
            }
            i = i + 1;
        }
        None
    }

    /// The position of the section that describes the interface.
    ///
    /// Fails where no section does, and where more than one does.
    pub fn find_component_type(&self) -> (found: Result<usize, ConfigError>)
        ensures
            match find_component_type(self@.customs) {
                Ok(i) => found matches Ok(at) && at == i && i < self.customs.len(),
                Err(e) => found matches Err(f) && f == ConfigError::Format(e),
            },
    {
        let ghost customs = self@.customs;
        let first = match self.next_component_type(0) {
            Some(first) => first,
            None => { return Err(ConfigError::Format(FormatError::MissingComponentType)); },
        };
        proof {
            lemma_next_component_type_unique(
                customs,
                0,
                first as int,
                choose|i: int| next_component_type(customs, 0, i),
            );
        }
        let ghost after = first + 1;
        assert(first < customs.len() == self.customs.len());
        match self.next_component_type(first + 1) {
            Some(second) => {
                proof {
                    lemma_next_component_type_unique(
                        customs,
                        after,
                        second as int,
                        choose|j: int| next_component_type(customs, after, j),
                    );
                }
                Err(ConfigError::Format(FormatError::AmbiguousComponentType { first, second }))
            },
            None => Ok(first),
        }
    }

    /// Replaces the bytes of the section that describes the interface and
    /// moves that section behind the other custom sections.
    ///
    /// Fails where the module does not hold exactly one such section.
    pub fn reattach(self, data: Vec<u8>) -> (patched: Result<ModuleModel, ConfigError>)
        ensures
            match reattached(self@, data@) {
                Ok(view) => patched matches Ok(m) && m@ == view,
                Err(e) => patched matches Err(f) && f == ConfigError::Format(e),
            },
    {
        let ghost before = self@;
        let mut module = self;
        let i = match module.find_component_type() {
            Ok(i) => i,
            Err(e) => { return Err(e); },
        };
        assert(before.customs[i as int] == module.customs[i as int]@);
        let mut section = module.customs.remove(i);
        section.data = data;
        module.customs.push(section);
        assert(module@.customs =~= with_component_type(before, i as int, data@).customs);
        assert(module@.data =~= before.data);
        assert(module@.globals =~= before.globals);
        Ok(module)
    }
}

} // verus!
