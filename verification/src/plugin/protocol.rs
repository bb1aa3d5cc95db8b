//! The messages exchanged with a plugin.

use vstd::prelude::*;
use crate::namemap::NameMap;

verus! {

/// What a plugin is given.
#[derive(Debug)]
pub struct PluginInput {
    pub working_directory: String,
    pub arguments: Vec<String>,
}

/// How grave a diagnostic is.
#[derive(Debug, Clone, Copy, PartialEq, Eq, Structural)]
pub enum DiagnosticSeverity {
    Error,
    Warning,
    Note,
    Remark,
}

impl DiagnosticSeverity {
    /// The name of the severity on the wire.
    pub open spec fn name(self) -> Seq<char> {
        match self {
            DiagnosticSeverity::Error => "error"@,
            DiagnosticSeverity::Warning => "warning"@,
            DiagnosticSeverity::Note => "note"@,
            DiagnosticSeverity::Remark => "remark"@,
        }
    }

    /// The name of the severity on the wire.
    pub fn as_str(&self) -> (r: &'static str)
        ensures
            r@ == self.name(),
    {
        match self {
            DiagnosticSeverity::Error => "error",
            DiagnosticSeverity::Warning => "warning",
            DiagnosticSeverity::Note => "note",
            DiagnosticSeverity::Remark => "remark",
        }
    }
}

/// A message of a plugin about the sources.
#[derive(Debug)]
pub struct PluginDiagnostic {
    pub severity: DiagnosticSeverity,
    pub message: String,
    pub file: Option<String>,
    pub line: Option<u32>,
    pub column: Option<u32>,
}

/// A command that a build tool plugin wants run.
#[derive(Debug)]
pub struct BuildCommand {
    pub display_name: String,
    pub executable: String,
    pub arguments: Vec<String>,
    pub environment: NameMap<String>,
    pub input_files: Vec<String>,
    pub output_files: Vec<String>,
}

/// What a plugin hands back.
#[derive(Debug)]
pub struct PluginOutput {
    pub generated_files: Vec<String>,
    pub diagnostics: Vec<PluginDiagnostic>,
    pub build_commands: Vec<BuildCommand>,
}

/// What is asked of a plugin.
#[derive(Debug)]
pub enum RequestPayload {
    GetBuildCommands { target: String, sources: Vec<String> },
    RunCommand { arguments: Vec<String> },
}

/// A request to a plugin.
#[derive(Debug)]
pub struct PluginRequest {
    /// Tells the responses to this request from others.
    pub id: u64,
    pub payload: RequestPayload,
}

/// What a plugin answers.
#[derive(Debug)]
pub enum ResponsePayload {
    BuildCommands { commands: Vec<BuildCommand> },
    CommandResult { success: bool, message: String },
    Error { message: String },
}

/// A response of a plugin.
#[derive(Debug)]
pub struct PluginResponse {
    /// The request that this answers.
    pub id: u64,
    pub payload: ResponsePayload,
}

/// How much a log line matters.
#[derive(Debug, Clone, Copy, PartialEq, Eq, Structural)]
pub enum LogLevel {
    Debug,
    Info,
    Warning,
    Error,
}

/// A log line of a plugin.
#[derive(Debug)]
pub struct LogMessage {
    pub level: LogLevel,
    pub message: String,
}

/// Any message of the protocol.
#[derive(Debug)]
pub enum PluginMessage {
    Request(PluginRequest),
    Response(PluginResponse),
    Log(LogMessage),
}

} // verus!
