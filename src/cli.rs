//! What the shader tool is asked for on its command line, and the encoding
//! each output mode stands for.

use vstd::prelude::*;
use std::path::PathBuf;
use crate::encode::{ElementWidth, EncodingConfig, OutputStyle};

verus! {

#[verifier::external_type_specification]
#[verifier::external_body]
pub struct ExPathBuf(PathBuf);

/// The stage a shader is compiled for.
#[derive(Debug, Clone, Copy, PartialEq, Eq, Structural)]
pub enum ShaderType {
    /// Taken from a directive in the source.
    Infer,
    Vertex,
    Fragment,
}

impl Default for ShaderType {
    fn default() -> (r: ShaderType)
        ensures
            r == ShaderType::Infer,
    {
        ShaderType::Infer
    }
}

/// How the compiled shader is written out.
#[derive(Debug, Clone, Copy, PartialEq, Eq, Structural)]
pub enum OutputMode {
    /// The binary module, byte for byte.
    Binary,
    /// A comma-separated list of 8-bit values.
    U8List,
    /// A comma-separated list of 32-bit values.
    U32List,
    /// The disassembled text, as a comma-separated list of its bytes.
    Assembly,
}

impl Default for OutputMode {
    fn default() -> (r: OutputMode)
        ensures
            r == OutputMode::Binary,
    {
        OutputMode::Binary
    }
}

impl EncodingConfig {
    /// Bytes, eight to a line.
    pub fn byte_list() -> (r: EncodingConfig)
        ensures
            r.element_width == ElementWidth::Byte,
            r.group_size == 8,
    {
        EncodingConfig { element_width: ElementWidth::Byte, group_size: 8 }
    }

    /// Little-endian 32-bit words, four to a line.
    pub fn word_list() -> (r: EncodingConfig)
        ensures
            r.element_width == ElementWidth::Word,
            r.group_size == 4,
    {
        EncodingConfig { element_width: ElementWidth::Word, group_size: 4 }
    }
}

impl OutputMode {
    /// Whether the shader is compiled to a binary module; only the assembly
    /// mode asks for disassembled text.
    pub fn is_binary(self) -> (r: bool)
        ensures
            r == !(self is Assembly),
    {
        !matches!(self, OutputMode::Assembly)
    }

    /// The style and configuration in which this mode writes the compiler's
    /// output.
    pub fn encoding(self) -> (r: (OutputStyle, EncodingConfig))
        ensures
            r.0 == (if self is Binary {
                OutputStyle::Raw
            } else {
                OutputStyle::HexList
            }),
            r.1 == (if self is U32List {
                EncodingConfig { element_width: ElementWidth::Word, group_size: 4 }
            } else {
                EncodingConfig { element_width: ElementWidth::Byte, group_size: 8 }
            }),
    {
        match self {
            OutputMode::Binary => (OutputStyle::Raw, EncodingConfig::byte_list()),
            OutputMode::U8List => (OutputStyle::HexList, EncodingConfig::byte_list()),
            OutputMode::U32List => (OutputStyle::HexList, EncodingConfig::word_list()),
            OutputMode::Assembly => (OutputStyle::HexList, EncodingConfig::byte_list()),
        }
    }
}

/// The shader tool's command line.
#[derive(Debug)]
pub struct Arguments {
    /// The file to compile.
    pub input: PathBuf,
    /// The shader stage.
    pub kind: ShaderType,
    /// The entry point of the shader.
    pub entrypoint: String,
    /// The file to write to; standard output when absent.
    pub output: Option<PathBuf>,
    /// How the compiled shader is written.
    pub output_mode: OutputMode,
}

} // verus!
