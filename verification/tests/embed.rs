use static_config::config::{Config, CONTROL_BLOCK_SIZE, COUNT_OFFSET, DATA_OFFSET};
use static_config::embed::{embed, place, prepare, splice, MAX_BLOB};
use static_config::error::{ConfigError, ErrorKind, FormatError, LayoutError};
use static_config::layout::STACK_POINTER;
use static_config::module::{CustomSection, Data, DataKind, Global, GlobalKind, ModuleModel};
use static_config::wire::encode;

fn pair(key: &str, value: &str) -> (String, String) {
    (key.to_string(), value.to_string())
}

fn stack(top: i32) -> Global {
    Global { name: Some(STACK_POINTER.to_string()), kind: GlobalKind::Const(top) }
}

/// A template with its static data at 1024, its control block at 1040, and a
/// stack that grows down from 1024 over a segment that starts at 0.
fn template() -> ModuleModel {
    let mut block = vec![0x11; 64];
    block[16..28].copy_from_slice(&[1, 0, 0, 0, 0, 0, 0, 0, 0, 0, 0, 0]);
    ModuleModel {
        data: vec![
            Data { kind: DataKind::Absolute(1024), value: block },
            Data { kind: DataKind::Passive, value: vec![0x22; 4] },
            Data { kind: DataKind::Absolute(0), value: vec![0x33; 8] },
        ],
        globals: vec![
            Global { name: None, kind: GlobalKind::Import },
            stack(1024),
            Global { name: Some("__heap_base".to_string()), kind: GlobalKind::Const(2048) },
        ],
        customs: vec![CustomSection {
            name: "component-type:adapter".to_string(),
            raw: true,
            data: vec![1, 2, 3],
        }],
        config: 1040,
    }
}

#[test]
fn splice_overwrites_in_place() {
    let mut bytes = vec![1, 2, 3, 4, 5];
    splice(&mut bytes, 1, &[9, 8]);
    assert_eq!(bytes, vec![1, 9, 8, 4, 5]);
    splice(&mut bytes, 0, &[]);
    assert_eq!(bytes, vec![1, 9, 8, 4, 5]);
}

#[test]
fn splice_extends_where_the_patch_reaches_past_the_end() {
    let mut bytes = vec![1, 2, 3];
    splice(&mut bytes, 2, &[7, 7, 7]);
    assert_eq!(bytes, vec![1, 2, 7, 7, 7]);
    splice(&mut bytes, 5, &[6]);
    assert_eq!(bytes, vec![1, 2, 7, 7, 7, 6]);
}

#[test]
fn splice_fills_the_gap_with_zeros() {
    let mut bytes = vec![1, 2];
    splice(&mut bytes, 5, &[7, 8]);
    assert_eq!(bytes, vec![1, 2, 0, 0, 0, 7, 8]);
    let mut empty = Vec::new();
    splice(&mut empty, 3, &[]);
    assert_eq!(empty, vec![0, 0, 0]);
}

#[test]
fn prepare_gives_the_data_and_the_count() {
    let entries = vec![pair("a", "b"), pair("a", "c")];
    let (blob, count) = prepare(&entries).unwrap();
    assert_eq!(blob, encode(&entries).unwrap());
    assert_eq!(count, 2);
    assert_eq!(prepare(&Vec::new()).unwrap(), (Vec::new(), 0));
    assert_eq!(MAX_BLOB, 0xffff_fff8);
}

#[test]
fn embed_puts_the_entries_where_the_stack_was() {
    let entries = vec![pair("greeting", "hello"), pair("count", "3")];
    let blob = encode(&entries).unwrap();
    assert_eq!(blob.len(), 44);
    let patched = embed(template(), &entries).unwrap();

    // 44 bytes take 48 bytes of stack.
    assert_eq!(patched.globals[1], stack(976));
    assert_eq!(patched.globals[0], template().globals[0]);
    assert_eq!(patched.globals[2], template().globals[2]);

    // The segment at 0 covers 976: it is extended by zeros and the data.
    let mut low = vec![0x33; 8];
    low.resize(976, 0);
    low.extend_from_slice(&blob);
    assert_eq!(patched.data[2], Data { kind: DataKind::Absolute(0), value: low });

    // The control block holds the count and the address; its flag stays.
    let mut block = template().data[0].value.clone();
    block[16 + COUNT_OFFSET..16 + DATA_OFFSET].copy_from_slice(&[2, 0, 0, 0]);
    block[16 + DATA_OFFSET..16 + CONTROL_BLOCK_SIZE].copy_from_slice(&[0xd0, 0x03, 0, 0]);
    assert_eq!(patched.data[0], Data { kind: DataKind::Absolute(1024), value: block });

    assert_eq!(patched.data[1], template().data[1]);
    assert_eq!(patched.customs, template().customs);
    assert_eq!(patched.config, 1040);
}

#[test]
fn embedded_entries_are_read_back_in_order() {
    let entries = vec![pair("greeting", "hello"), pair("count", "3")];
    let patched = embed(template(), &entries).unwrap();
    let config = Config::load(&patched).unwrap();
    assert!(config.unused);
    assert_eq!(config.host_field_cnt, 2);
    assert_eq!(config.get_all().unwrap(), entries);
    assert_eq!(config.get("greeting".to_string()).unwrap(), Some("hello".to_string()));
    assert_eq!(config.get("count".to_string()).unwrap(), Some("3".to_string()));
    assert_eq!(config.get("missing".to_string()).unwrap(), None);
}

#[test]
fn embedded_duplicates_are_kept_and_the_first_is_found() {
    let entries = vec![pair("k", "first"), pair("other", ""), pair("k", "second")];
    let patched = embed(template(), &entries).unwrap();
    let config = Config::load(&patched).unwrap();
    assert_eq!(config.get_all().unwrap(), entries);
    assert_eq!(config.get("k".to_string()).unwrap(), Some("first".to_string()));
    assert_eq!(config.get("other".to_string()).unwrap(), Some(String::new()));
}

#[test]
fn embedding_no_entries_leaves_the_stack_as_it_is() {
    let patched = embed(template(), &Vec::new()).unwrap();
    assert_eq!(patched.globals, template().globals);
    let config = Config::load(&patched).unwrap();
    assert_eq!(config.host_field_cnt, 0);
    assert_eq!(config.get_all().unwrap(), Vec::new());
    assert_eq!(config.get("greeting".to_string()).unwrap(), None);
    // The address of the data is the top of the stack, in the segment at 1024.
    assert_eq!(&patched.data[0].value[16..28], &[1, 0, 0, 0, 0, 0, 0, 0, 0, 4, 0, 0]);
}

#[test]
fn embedding_rounds_the_space_up_to_eight_bytes() {
    // One entry of two empty texts is 8 bytes; with a key of one byte 12.
    let patched = embed(template(), &vec![pair("", "")]).unwrap();
    assert_eq!(patched.globals[1], stack(1016));
    let patched = embed(template(), &vec![pair("k", "")]).unwrap();
    assert_eq!(patched.globals[1], stack(1008));
    assert_eq!(patched.data[2].value.len(), 1008 + 12);
}

#[test]
fn embed_is_the_same_as_prepare_and_place() {
    let entries = vec![pair("a", "1"), pair("b", "22")];
    let (blob, count) = prepare(&entries).unwrap();
    assert_eq!(place(template(), &blob, count), embed(template(), &entries));
}

#[test]
fn embed_fails_without_a_stack_global() {
    let mut module = template();
    module.globals.remove(1);
    let error = embed(module, &vec![pair("greeting", "hello")]).unwrap_err();
    assert_eq!(error, ConfigError::Layout(LayoutError::MissingStackGlobal));
    assert_eq!(error.kind(), ErrorKind::Layout);
}

#[test]
fn embed_fails_where_the_stack_is_too_small() {
    let mut module = template();
    module.globals[1] = stack(16);
    assert_eq!(
        embed(module, &vec![pair("greeting", "hello")]),
        Err(ConfigError::Layout(LayoutError::StackTooSmall { top: 16, amount: 24 }))
    );
}

#[test]
fn embed_fails_where_no_segment_covers_the_freed_space() {
    let mut module = template();
    module.data.remove(2);
    assert_eq!(
        embed(module, &vec![pair("greeting", "hello")]),
        Err(ConfigError::Layout(LayoutError::Unlocatable { address: 1000 }))
    );
}

#[test]
fn embed_fails_where_a_segment_floats() {
    let mut module = template();
    module.data[1].kind = DataKind::Computed;
    assert_eq!(
        embed(module, &vec![pair("greeting", "hello")]),
        Err(ConfigError::Layout(LayoutError::FloatingSegment { segment: 1 }))
    );
}

#[test]
fn embed_fails_where_the_control_block_is_cut_off() {
    let mut module = template();
    module.config = 1024 + 60;
    assert_eq!(
        embed(module, &vec![pair("greeting", "hello")]),
        Err(ConfigError::Layout(LayoutError::ControlBlockTruncated { segment: 0, offset: 60 }))
    );
    let mut module = template();
    module.config = 5000;
    assert_eq!(
        embed(module, &Vec::new()),
        Err(ConfigError::Layout(LayoutError::ControlBlockTruncated { segment: 0, offset: 3976 }))
    );
}

#[test]
fn a_control_block_of_exactly_twelve_bytes_is_enough() {
    let mut module = template();
    module.config = 1024 + 52;
    let patched = embed(module, &vec![pair("a", "b")]).unwrap();
    assert_eq!(&patched.data[0].value[56..64], &[1, 0, 0, 0, 0xf0, 0x03, 0, 0]);
}

#[test]
fn load_reads_the_control_block_of_a_fresh_template() {
    let config = Config::load(&template()).unwrap();
    assert_eq!(
        config,
        Config { unused: true, host_field_cnt: 0, host_field_data: Vec::new() }
    );
    assert_eq!(config.get_all().unwrap(), Vec::new());
}

#[test]
fn load_fails_where_the_control_block_cannot_be_found() {
    let mut module = template();
    module.data.remove(2);
    module.config = 100;
    assert_eq!(
        Config::load(&module),
        Err(ConfigError::Layout(LayoutError::Unlocatable { address: 100 }))
    );
    let mut module = template();
    module.config = 1024 + 53;
    assert_eq!(
        Config::load(&module),
        Err(ConfigError::Layout(LayoutError::ControlBlockTruncated { segment: 0, offset: 53 }))
    );
}

#[test]
fn load_follows_the_address_only_where_there_are_entries() {
    let mut module = template();
    module.data.remove(2);
    // One entry, at address 8, which no segment covers.
    module.data[0].value[20..28].copy_from_slice(&[1, 0, 0, 0, 8, 0, 0, 0]);
    assert_eq!(
        Config::load(&module),
        Err(ConfigError::Layout(LayoutError::Unlocatable { address: 8 }))
    );
    // One entry, at an address past the end of the bytes of its segment.
    module.data[0].value[24..28].copy_from_slice(&[0, 0x10, 0, 0]);
    let config = Config::load(&module).unwrap();
    assert_eq!(config.host_field_cnt, 1);
    assert_eq!(config.host_field_data, Vec::<u8>::new());
    assert_eq!(
        config.get_all(),
        Err(ConfigError::Format(FormatError::TruncatedBlob { offset: 0 }))
    );
    assert_eq!(
        config.get("k".to_string()),
        Err(ConfigError::Format(FormatError::TruncatedBlob { offset: 0 }))
    );
}

#[test]
fn get_all_reads_the_data_of_a_config() {
    let entries = vec![pair("a", "1"), pair("b", "2")];
    let config = Config {
        unused: false,
        host_field_cnt: 2,
        host_field_data: encode(&entries).unwrap(),
    };
    assert_eq!(config.get_all().unwrap(), entries);
    assert_eq!(config.get("b".to_string()).unwrap(), Some("2".to_string()));
    let short = Config { host_field_cnt: 3, ..config.clone() };
    // Two entries of two one-byte texts take 32 bytes; the third starts there.
    assert_eq!(
        short.get("a".to_string()),
        Err(ConfigError::Format(FormatError::TruncatedBlob { offset: 32 }))
    );
}

#[test]
fn embedding_keeps_the_segments_apart() {
    let entries = vec![pair("greeting", "hello"), pair("count", "3")];
    let patched = embed(template(), &entries).unwrap();
    let mut filled: Vec<(u32, usize)> = Vec::new();
    for data in patched.data.iter() {
        if let DataKind::Absolute(start) = data.kind {
            filled.push((start, data.value.len()));
        }
    }
    filled.sort();
    assert_eq!(filled, vec![(0, 1020), (1024, 64)]);
}
