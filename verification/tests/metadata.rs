use static_config::error::{ConfigError, ErrorKind, FormatError};
use static_config::metadata::COMPONENT_TYPE_PREFIX;
use static_config::module::{CustomSection, Data, DataKind, Global, GlobalKind, ModuleModel};

fn section(name: &str, raw: bool, data: &[u8]) -> CustomSection {
    CustomSection { name: name.to_string(), raw, data: data.to_vec() }
}

fn with_customs(customs: Vec<CustomSection>) -> ModuleModel {
    ModuleModel {
        data: vec![Data { kind: DataKind::Absolute(16), value: vec![1, 2, 3] }],
        globals: vec![Global { name: None, kind: GlobalKind::Const(5) }],
        customs,
        config: 16,
    }
}

#[test]
fn finds_the_one_component_type_section() {
    assert_eq!(COMPONENT_TYPE_PREFIX, "component-type:");
    let module = with_customs(vec![
        section("producers", true, &[1]),
        section("component-type:adapter", true, &[2]),
        section("target_features", true, &[3]),
    ]);
    assert_eq!(module.find_component_type(), Ok(1));
    let module = with_customs(vec![section("component-type:", true, &[])]);
    assert_eq!(module.find_component_type(), Ok(0));
}

#[test]
fn a_section_that_is_not_raw_is_passed_over() {
    let module = with_customs(vec![
        section("component-type:parsed", false, &[]),
        section("component-type:adapter", true, &[2]),
    ]);
    assert_eq!(module.find_component_type(), Ok(1));
}

#[test]
fn fails_without_a_component_type_section() {
    for customs in [
        Vec::new(),
        vec![section("component-type", true, &[1])],
        vec![section("xcomponent-type:adapter", true, &[1])],
        vec![section("Component-Type:adapter", true, &[1])],
        vec![section("component-type:adapter", false, &[1])],
    ] {
        let error = with_customs(customs).find_component_type().unwrap_err();
        assert_eq!(error, ConfigError::Format(FormatError::MissingComponentType));
        assert_eq!(error.kind(), ErrorKind::Format);
    }
}

#[test]
fn fails_with_more_than_one_component_type_section() {
    let module = with_customs(vec![
        section("component-type:a", true, &[1]),
        section("name", true, &[]),
        section("component-type:b", true, &[2]),
        section("component-type:c", true, &[3]),
    ]);
    assert_eq!(
        module.find_component_type(),
        Err(ConfigError::Format(FormatError::AmbiguousComponentType { first: 0, second: 2 }))
    );
    assert_eq!(
        module.reattach(vec![9]),
        Err(ConfigError::Format(FormatError::AmbiguousComponentType { first: 0, second: 2 }))
    );
}

#[test]
fn reattach_replaces_the_bytes_and_moves_the_section_last() {
    let module = with_customs(vec![
        section("component-type:adapter", true, &[1, 2]),
        section("producers", true, &[3]),
        section("other", false, &[]),
    ]);
    let patched = module.clone().reattach(vec![7, 8, 9]).unwrap();
    assert_eq!(
        patched.customs,
        vec![
            section("producers", true, &[3]),
            section("other", false, &[]),
            section("component-type:adapter", true, &[7, 8, 9]),
        ]
    );
    assert_eq!(patched.data, module.data);
    assert_eq!(patched.globals, module.globals);
    assert_eq!(patched.config, module.config);
}

#[test]
fn reattach_fails_without_a_section_to_replace() {
    let module = with_customs(vec![section("producers", true, &[3])]);
    assert_eq!(
        module.reattach(vec![1]),
        Err(ConfigError::Format(FormatError::MissingComponentType))
    );
}
