//! Error types of the library, each with the text that describes it.
use vstd::prelude::*;
use crate::text::{decimal_text, push_char, push_decimal};

verus! {

/// Errors that can occur during command-line argument parsing.
#[derive(Debug, Clone)]
pub enum CliError {
    MissingArgument(String),
    UnknownArgument(String),
    UnknownSubcommand(String),
    Usage,
}

impl CliError {
    /// The human-readable description of the error.
    pub fn to_string(&self) -> (msg: String)
        ensures
            match self {
                CliError::MissingArgument(arg) => msg@ == "Missing required argument --"@ + arg@,
                CliError::UnknownArgument(arg) => msg@ == "Unknown argument '"@ + arg@ + "'"@,
                CliError::UnknownSubcommand(cmd) => msg@ == "Unknown subcommand '"@ + cmd@
                    + "'. Expected 'validate'"@,
                CliError::Usage => msg@
                    == "Usage: iocguard validate --input <path> [--allowlist <path>] --out <path> [--json]"@,
            },
    {
        let mut msg = String::new();
        match self {
            CliError::MissingArgument(arg) => {
                msg.append("Missing required argument --");
                msg.append(arg.as_str());
            },
            CliError::UnknownArgument(arg) => {
                msg.append("Unknown argument '");
                msg.append(arg.as_str());
                msg.append("'");
            },
            CliError::UnknownSubcommand(cmd) => {
                msg.append("Unknown subcommand '");
                msg.append(cmd.as_str());
                msg.append("'. Expected 'validate'");
            },
            CliError::Usage => {
                msg.append(
                    "Usage: iocguard validate --input <path> [--allowlist <path>] --out <path> [--json]",
                );
            },
        }
        msg
    }
}

/// What a `DomainError` says, as a mathematical value.
pub enum DomainErrorModel {
    Empty,
    NoDot,
    TooLong(nat),
    ConsecutiveDots,
    EmptyLabel,
    LabelTooLong(nat),
    LabelHyphenEdge(Seq<char>),
    InvalidCharacter(char),
    CsvParseError(Seq<char>),
}

/// Errors that can occur during domain validation.
#[derive(Debug, Clone, PartialEq, Eq)]
pub enum DomainError {
    Empty,
    NoDot,
    TooLong(usize),
    ConsecutiveDots,
    EmptyLabel,
    LabelTooLong(usize),
    LabelHyphenEdge(String),
    InvalidCharacter(char),
    CsvParseError(String),
}

impl View for DomainError {
    type V = DomainErrorModel;

    open spec fn view(&self) -> DomainErrorModel {
        match self {
            DomainError::Empty => DomainErrorModel::Empty,
            DomainError::NoDot => DomainErrorModel::NoDot,
            DomainError::TooLong(n) => DomainErrorModel::TooLong(*n as nat),
            DomainError::ConsecutiveDots => DomainErrorModel::ConsecutiveDots,
            DomainError::EmptyLabel => DomainErrorModel::EmptyLabel,
            DomainError::LabelTooLong(n) => DomainErrorModel::LabelTooLong(*n as nat),
            DomainError::LabelHyphenEdge(l) => DomainErrorModel::LabelHyphenEdge(l@),
            DomainError::InvalidCharacter(c) => DomainErrorModel::InvalidCharacter(*c),
            DomainError::CsvParseError(m) => DomainErrorModel::CsvParseError(m@),
        }
    }
}

/// The human-readable description of a domain error.
pub open spec fn domain_error_message(e: DomainErrorModel) -> Seq<char> {
    match e {
        DomainErrorModel::Empty => "Domain is empty"@,
        DomainErrorModel::NoDot => "Domain has no dot"@,
        DomainErrorModel::TooLong(n) => "Domain length "@ + decimal_text(n)
            + " exceeds maximum of 253"@,
        DomainErrorModel::ConsecutiveDots => "Domain contains consecutive dots"@,
        DomainErrorModel::EmptyLabel => "Domain contains an empty label"@,
        DomainErrorModel::LabelTooLong(n) => "A label of length "@ + decimal_text(n)
            + " exceeds maximum of 63"@,
        DomainErrorModel::LabelHyphenEdge(l) => "Label '"@ + l
            + "' starts or ends with a hyphen"@,
        DomainErrorModel::InvalidCharacter(c) => "Domain contains invalid character '"@ + seq![c]
            + "'"@,
        DomainErrorModel::CsvParseError(m) => "CSV parse error: "@ + m,
    }
}

impl DomainError {
    /// The human-readable description of the error.
    pub fn to_string(&self) -> (msg: String)
        ensures
            msg@ == domain_error_message(self@),
    {
        let mut msg = String::new();
        match self {
            DomainError::Empty => msg.append("Domain is empty"),
            DomainError::NoDot => msg.append("Domain has no dot"),
            DomainError::TooLong(n) => {
                msg.append("Domain length ");
                push_decimal(&mut msg, *n);
                msg.append(" exceeds maximum of 253");
            },
            DomainError::ConsecutiveDots => msg.append("Domain contains consecutive dots"),
            DomainError::EmptyLabel => msg.append("Domain contains an empty label"),
            DomainError::LabelTooLong(n) => {
                msg.append("A label of length ");
                push_decimal(&mut msg, *n);
                msg.append(" exceeds maximum of 63");
            },
            DomainError::LabelHyphenEdge(l) => {
                msg.append("Label '");
                msg.append(l.as_str());
                msg.append("' starts or ends with a hyphen");
            },
            DomainError::InvalidCharacter(c) => {
                msg.append("Domain contains invalid character '");
                push_char(&mut msg, *c);
                msg.append("'");
                assert(msg@ == "Domain contains invalid character '"@ + seq![*c] + "'"@);
            },
            DomainError::CsvParseError(m) => {
                msg.append("CSV parse error: ");
                msg.append(m.as_str());
            },
        }
        msg
    }
}

/// Errors that can occur during report generation; the first field names the path.
#[derive(Debug, Clone)]
pub enum ReportError {
    CreateDirectory(String, String),
    CreateFile(String, String),
    WriteError(String, String),
}

impl ReportError {
    /// The human-readable description of the error.
    pub fn to_string(&self) -> (msg: String)
        ensures
            match self {
                ReportError::CreateDirectory(path, m) => msg@ == "Failed to create directory '"@
                    + path@ + "': "@ + m@,
                ReportError::CreateFile(path, m) => msg@ == "Failed to create file '"@ + path@
                    + "': "@ + m@,
                ReportError::WriteError(path, m) => msg@ == "Failed to write to '"@ + path@
                    + "': "@ + m@,
            },
    {
        let mut msg = String::new();
        match self {
            ReportError::CreateDirectory(path, m) => {
                msg.append("Failed to create directory '");
                msg.append(path.as_str());
                msg.append("': ");
                msg.append(m.as_str());
            },
            ReportError::CreateFile(path, m) => {
                msg.append("Failed to create file '");
                msg.append(path.as_str());
                msg.append("': ");
                msg.append(m.as_str());
            },
            ReportError::WriteError(path, m) => {
                msg.append("Failed to write to '");
                msg.append(path.as_str());
                msg.append("': ");
                msg.append(m.as_str());
            },
        }
        msg
    }
}

} // verus!
