use bytes::Bytes;
use casper_node::text::Describe;
use casper_node::vm::{ConfigBuilder, Error, ExportError, HostError, Resolver, VM};

#[test]
fn builder_sets_limits_and_input() {
    let config = ConfigBuilder::new()
        .with_gas_limit(1_000_000)
        .with_memory_limit(17)
        .with_input(Bytes::from(vec![1u8, 2, 3]))
        .build();
    assert_eq!(config.gas_limit, 1_000_000);
    assert_eq!(config.memory_limit, 17);
    assert_eq!(config.input, Bytes::from(vec![1u8, 2, 3]));
}

#[test]
fn input_is_empty_by_default() {
    let config = ConfigBuilder::default().with_memory_limit(1).with_gas_limit(2).build();
    assert_eq!(config.gas_limit, 2);
    assert_eq!(config.memory_limit, 1);
    assert!(config.input.is_empty());
}

#[test]
fn setters_commute_and_the_last_one_counts() {
    let a = ConfigBuilder::new().with_gas_limit(9).with_gas_limit(5).with_memory_limit(6).build();
    let b = ConfigBuilder::new().with_memory_limit(6).with_gas_limit(5).build();
    assert_eq!((a.gas_limit, a.memory_limit), (5, 6));
    assert_eq!((b.gas_limit, b.memory_limit), (5, 6));
}

#[test]
fn clones_hold_the_same_input() {
    let builder = ConfigBuilder::new()
        .with_gas_limit(1)
        .with_memory_limit(2)
        .with_input(Bytes::from(vec![7u8; 4]));
    let config = builder.clone().build();
    let copy = config.clone();
    assert_eq!(builder.build().input, config.input);
    assert_eq!(copy.input, Bytes::from(vec![7u8, 7, 7, 7]));
    assert_eq!((copy.gas_limit, copy.memory_limit), (1, 2));
}

#[test]
fn prepare_hands_the_module_on() {
    let config = ConfigBuilder::new().with_gas_limit(1).with_memory_limit(2).build();
    let mut vm = VM::new();
    let prepared = vm.prepare(vec![0u8, 97, 115, 109], "context", config);
    assert_eq!(prepared.wasm_bytes, Bytes::from(vec![0u8, 97, 115, 109]));
    assert_eq!(prepared.context, "context");
    assert_eq!(prepared.config.gas_limit, 1);
    let mut other = VM::default();
    assert_eq!(other.prepare(vec![], 3u8, prepared.config).context, 3);
}

#[test]
fn host_error_text() {
    assert_eq!(HostError::Revert { code: 4_294_967_295 }.describe(), "revert 4294967295");
    assert_eq!(
        Error::Host(HostError::Revert { code: 0 }).describe(),
        "Host error: revert 0"
    );
}

#[test]
fn resolver_texts() {
    let export = Resolver::Export { name: "call".to_string() };
    assert_eq!(export.describe(), "export call not found.");
    let table = Resolver::Table { index: 12 };
    assert_eq!(table.describe(), "function pointer 12 not found.");
    assert_eq!(
        Error::Resolver(table).describe(),
        "Error resolving a function: function pointer 12 not found."
    );
}

#[test]
fn export_error_is_shown_as_it_is() {
    assert_eq!(ExportError::IncompatibleType.describe(), "Incompatible Export Type");
    let error = Error::from(ExportError::Missing("memory".to_string()));
    assert!(matches!(&error, Error::Export(ExportError::Missing(name)) if name == "memory"));
    assert_eq!(error.describe(), "Missing export memory");
}

#[test]
fn other_error_texts() {
    assert_eq!(Error::OutOfGas.describe(), "Out of gas");
    let error = Error::Runtime { message: "unreachable".to_string() };
    assert_eq!(error.describe(), "Error executing Wasm: unreachable");
}
