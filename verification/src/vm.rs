//! Setting up the virtual machine, and the errors that it reports.

use crate::text::{decimal, decimal_text, Describe};
use bytes::Bytes;
use vstd::prelude::*;

verus! {

/// A buffer of bytes of the `bytes` crate.
#[verifier::external_type_specification]
#[verifier::external_body]
pub struct ExBytes(bytes::Bytes);

/// The bytes that a buffer holds.
pub uninterp spec fn content(buffer: Bytes) -> Seq<u8>;

/// `bytes::Bytes::default`: the empty buffer.
#[verifier::external_body]
fn empty_buffer() -> (r: Bytes)
    ensures
        content(r) == Seq::<u8>::empty(),
{
    Bytes::default()
}

/// The conversion of a `Vec<u8>` into `bytes::Bytes`: the buffer holds the bytes of the vector.
#[verifier::external_body]
fn buffer_of(data: Vec<u8>) -> (r: Bytes)
    ensures
        content(r) == data@,
{
    Bytes::from(data)
}

/// The clone of `bytes::Bytes`: another handle on the same bytes.
pub assume_specification[ <bytes::Bytes as std::clone::Clone>::clone ](buffer: &bytes::Bytes) -> (r:
    bytes::Bytes)
    ensures
        content(r) == content(*buffer),
;

/// An error that the host raises.
#[derive(Clone, Copy, Debug)]
#[non_exhaustive]
pub enum HostError {
    /// The contract reverted.
    Revert {
        /// The code with which it reverted.
        code: u32,
    },
}

impl Describe for HostError {
    open spec fn described(&self) -> Seq<char> {
        match self {
            HostError::Revert { code } => "revert "@ + decimal(*code as nat),
        }
    }

    fn describe(&self) -> (r: String) {
        match self {
            HostError::Revert { code } => {
                let mut text: String = "revert ".to_owned();
                text.append(decimal_text(*code as u64).as_str());
                text
            },
        }
    }
}

/// Why a function cannot be resolved.
#[derive(Debug)]
pub enum Resolver {
    /// There is no export of that name.
    Export {
        /// The name.
        name: String,
    },
    /// Trying to call a function pointer by index.
    Table {
        /// The index.
        index: u32,
    },
}

impl Describe for Resolver {
    open spec fn described(&self) -> Seq<char> {
        match self {
            Resolver::Export { name } => "export "@ + name@ + " not found."@,
            Resolver::Table { index } => "function pointer "@ + decimal(*index as nat)
                + " not found."@,
        }
    }

    fn describe(&self) -> (r: String) {
        match self {
            Resolver::Export { name } => {
                let mut text: String = "export ".to_owned();
                text.append(name.as_str());
                text.append(" not found.");
                text
            },
            Resolver::Table { index } => {
                let mut text: String = "function pointer ".to_owned();
                text.append(decimal_text(*index as u64).as_str());
                text.append(" not found.");
                text
            },
        }
    }
}

/// Why an export cannot be used.
#[derive(Debug)]
pub enum ExportError {
    /// An error than occurs when the exported type and the expected type
    /// are incompatible.
    IncompatibleType,
    /// This error arises when an export is missing
    Missing(String),
}

impl Describe for ExportError {
    open spec fn described(&self) -> Seq<char> {
        match self {
            ExportError::IncompatibleType => "Incompatible Export Type"@,
            ExportError::Missing(name) => "Missing export "@ + name@,
        }
    }

    fn describe(&self) -> (r: String) {
        match self {
            ExportError::IncompatibleType => "Incompatible Export Type".to_owned(),
            ExportError::Missing(name) => {
                let mut text: String = "Missing export ".to_owned();
                text.append(name.as_str());
                text
            },
        }
    }
}

/// An error of the virtual machine.
#[derive(Debug)]
#[non_exhaustive]
pub enum Error {
    /// An error that the host raised.
    Host(HostError),
    /// The gas limit was reached.
    OutOfGas,
    /// An export cannot be used.
    Export(ExportError),
    /// Error while executing Wasm: traps, memory access errors, etc.
    ///
    /// NOTE: for supporting multiple different backends we may want to abstract this a bit and
    /// extract memory access errors, trap codes, and unify error reporting.
    Runtime {
        /// What happened.
        message: String,
    },
    /// A function cannot be resolved.
    Resolver(Resolver),
}

impl Describe for Error {
    open spec fn described(&self) -> Seq<char> {
        match self {
            Error::Host(error) => "Host error: "@ + error.described(),
            Error::OutOfGas => "Out of gas"@,
            Error::Export(error) => error.described(),
            Error::Runtime { message } => "Error executing Wasm: "@ + message@,
            Error::Resolver(resolver) => "Error resolving a function: "@ + resolver.described(),
        }
    }

    fn describe(&self) -> (r: String) {
        match self {
            Error::Host(error) => {
                let mut text: String = "Host error: ".to_owned();
                text.append(error.describe().as_str());
                text
            },
            Error::OutOfGas => "Out of gas".to_owned(),
            Error::Export(error) => error.describe(),
            Error::Runtime { message } => {
                let mut text: String = "Error executing Wasm: ".to_owned();
                text.append(message.as_str());
                text
            },
            Error::Resolver(resolver) => {
                let mut text: String = "Error resolving a function: ".to_owned();
                text.append(resolver.describe().as_str());
                text
            },
        }
    }
}

impl From<ExportError> for Error {
    fn from(error: ExportError) -> (r: Error) {
        Error::Export(error)
    }
}

impl vstd::std_specs::convert::FromSpecImpl<ExportError> for Error {
    open spec fn obeys_from_spec() -> bool {
        true
    }

    open spec fn from_spec(error: ExportError) -> Error {
        Error::Export(error)
    }
}

/// The limits and the input with which a module is run.
#[derive(Debug)]
pub struct Config {
    /// The gas limit.
    pub gas_limit: u64,
    /// The memory limit in pages.
    pub memory_limit: u32,
    /// The input data.
    pub input: Bytes,
}

impl Clone for Config {
    fn clone(&self) -> (r: Config)
        ensures
            r.gas_limit == self.gas_limit,
            r.memory_limit == self.memory_limit,
            content(r.input) == content(self.input),
    {
        Config {
            gas_limit: self.gas_limit,
            memory_limit: self.memory_limit,
            input: self.input.clone(),
        }
    }
}

/// What has been set of a configuration so far.
pub struct ConfigParts {
    /// The gas limit.
    pub gas_limit: Option<u64>,
    /// The memory limit in pages.
    pub memory_limit: Option<u32>,
    /// The input data.
    pub input: Option<Seq<u8>>,
}

/// Puts a [`Config`] together.
#[derive(Debug)]
pub struct ConfigBuilder {
    gas_limit: Option<u64>,
    /// Memory limit in pages.
    memory_limit: Option<u32>,
    /// Input data.
    input: Option<Bytes>,
}

impl View for ConfigBuilder {
    type V = ConfigParts;

    closed spec fn view(&self) -> ConfigParts {
        ConfigParts {
            gas_limit: self.gas_limit,
            memory_limit: self.memory_limit,
            input: match self.input {
                Some(buffer) => Some(content(buffer)),
                None => None,
            },
        }
    }
}

impl Clone for ConfigBuilder {
    fn clone(&self) -> (r: ConfigBuilder)
        ensures
            r@ == self@,
    {
        let input: Option<Bytes> = match &self.input {
            Some(buffer) => Some(buffer.clone()),
            None => None,
        };
        ConfigBuilder { gas_limit: self.gas_limit, memory_limit: self.memory_limit, input }
    }
}

impl Default for ConfigBuilder {
    fn default() -> (r: ConfigBuilder)
        ensures
            r@ == (ConfigParts { gas_limit: None, memory_limit: None, input: None }),
    {
        ConfigBuilder { gas_limit: None, memory_limit: None, input: None }
    }
}

impl ConfigBuilder {
    /// A builder with nothing set.
    pub fn new() -> (r: ConfigBuilder)
        ensures
            r@ == (ConfigParts { gas_limit: None, memory_limit: None, input: None }),
    {
        Self::default()
    }

    /// Sets the gas limit.
    pub fn with_gas_limit(self, gas_limit: u64) -> (r: ConfigBuilder)
        ensures
            r@ == (ConfigParts { gas_limit: Some(gas_limit), ..self@ }),
    {
        ConfigBuilder { gas_limit: Some(gas_limit), ..self }
    }

    /// Memory limit denominated in pages.
    pub fn with_memory_limit(self, memory_limit: u32) -> (r: ConfigBuilder)
        ensures
            r@ == (ConfigParts { memory_limit: Some(memory_limit), ..self@ }),
    {
        ConfigBuilder { memory_limit: Some(memory_limit), ..self }
    }

    /// Pass input data.
    pub fn with_input(self, input: Bytes) -> (r: ConfigBuilder)
        ensures
            r@ == (ConfigParts { input: Some(content(input)), ..self@ }),
    {
        ConfigBuilder { input: Some(input), ..self }
    }

    /// The configuration. Both limits must have been set; without input data the input is empty.
    pub fn build(self) -> (r: Config)
        requires
            self@.gas_limit is Some,
            self@.memory_limit is Some,
        ensures
            Some(r.gas_limit) == self@.gas_limit,
            Some(r.memory_limit) == self@.memory_limit,
            content(r.input) == (match self@.input {
                Some(bytes) => bytes,
                None => Seq::empty(),
            }),
    {
        let gas_limit: u64 = self.gas_limit.unwrap();
        let memory_limit: u32 = self.memory_limit.unwrap();
        let input: Bytes = match self.input {
            Some(input) => input,
            None => empty_buffer(),
        };
        Config { gas_limit, memory_limit, input }
    }
}

/// What a backend needs to instantiate a module.
#[derive(Debug)]
pub struct Instantiation<X> {
    /// The module.
    pub wasm_bytes: Bytes,
    /// What the module can reach of the outside.
    pub context: X,
    /// The limits and the input.
    pub config: Config,
}

/// The virtual machine.
#[derive(Clone, Copy)]
pub struct VM;

impl VM {
    /// Readies a module for a backend to instantiate.
    pub fn prepare<X>(&mut self, wasm_bytes: Vec<u8>, context: X, config: Config) -> (r:
        Instantiation<X>)
        ensures
            content(r.wasm_bytes) == wasm_bytes@,
            r.context == context,
            r.config == config,
            *final(self) == *old(self),
    {
        Instantiation { wasm_bytes: buffer_of(wasm_bytes), context, config }
    }

    /// A virtual machine.
    pub fn new() -> (r: VM)
        ensures
            r == VM,
    {
        VM
    }
}

impl Default for VM {
    fn default() -> (r: VM)
        ensures
            r == VM,
    {
        Self::new()
    }
}

/// The order in which the parts of a configuration are set makes no difference.
pub proof fn lemma_setters_commute(
    parts: ConfigParts,
    gas_limit: u64,
    memory_limit: u32,
    input: Seq<u8>,
)
    ensures
        (ConfigParts {
            gas_limit: Some(gas_limit),
            ..ConfigParts { memory_limit: Some(memory_limit), ..parts }
        }) == (ConfigParts {
            memory_limit: Some(memory_limit),
            ..ConfigParts { gas_limit: Some(gas_limit), ..parts }
        }),
        (ConfigParts {
            gas_limit: Some(gas_limit),
            ..ConfigParts { input: Some(input), ..parts }
        }) == (ConfigParts {
            input: Some(input),
            ..ConfigParts { gas_limit: Some(gas_limit), ..parts }
        }),
        (ConfigParts {
            memory_limit: Some(memory_limit),
            ..ConfigParts { input: Some(input), ..parts }
        }) == (ConfigParts {
            input: Some(input),
            ..ConfigParts { memory_limit: Some(memory_limit), ..parts }
        }),
{
}

/// The texts of the errors: each names what it is about, and an error of an export is shown as it is.
pub proof fn lemma_error_texts(code: u32, index: u32, text: String, export: ExportError)
    ensures
        Error::Host(HostError::Revert { code }).described() == "Host error: "@ + ("revert "@
            + decimal(code as nat)),
        Error::OutOfGas.described() == "Out of gas"@,
        Error::Export(export).described() == (match export {
            ExportError::IncompatibleType => "Incompatible Export Type"@,
            ExportError::Missing(name) => "Missing export "@ + name@,
        }),
        (Error::Runtime { message: text }).described() == "Error executing Wasm: "@ + text@,
        Error::Resolver(Resolver::Export { name: text }).described()
            == "Error resolving a function: "@ + ("export "@ + text@ + " not found."@),
        Error::Resolver(Resolver::Table { index }).described() == "Error resolving a function: "@ + (
        "function pointer "@ + decimal(index as nat) + " not found."@),
{
}

} // verus!
