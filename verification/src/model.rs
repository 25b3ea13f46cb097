//! The archive data model: files with classification and tag metadata,
//! commands extracted from the comment, edit blocks, and the error types,
//! together with the ghost views the contracts speak of.

use vstd::prelude::*;

verus! {

/// Configuration for encoding detection.
#[derive(Debug, Clone)]
pub struct EncodingConfig {
    /// Whether to check file content for conflicting marker patterns.
    pub check_content_markers: bool,
    /// Whether to validate UTF-8 encoding.
    pub validate_utf8: bool,
}

impl Default for EncodingConfig {
    /// Both checks enabled.
    fn default() -> (c: EncodingConfig)
        ensures
            c.check_content_markers,
            c.validate_utf8,
    {
        EncodingConfig { check_content_markers: true, validate_utf8: true }
    }
}

/// Text encoding of a text-classified file.
#[derive(Debug, Clone, PartialEq, Eq, Structural)]
pub enum TextEncoding {
    Utf8,
}

/// Why data is considered binary.
#[derive(Debug, Clone, PartialEq, Eq, Structural)]
pub enum BinaryReason {
    /// The content holds a line shaped like a file marker; stored as text it
    /// would read as a file boundary when the archive is decoded again.
    ContentConflict,
    /// The data is not valid UTF-8.
    InvalidUtf8,
    /// Explicitly marked binary by the caller.
    Explicit,
}

/// Result of encoding detection.
#[derive(Debug, Clone, PartialEq, Structural)]
pub enum EncodingDetection {
    Text { encoding: TextEncoding },
    Binary { reason: BinaryReason },
}

/// Operation of a single edit block.
#[derive(Debug, Clone, Copy, PartialEq, Eq, Structural)]
pub enum EditOperation {
    /// Replace the matched lines with the replacement lines.
    Replace,
    /// Remove the matched lines.
    Delete,
    /// Prepend the replacement lines.
    Insert,
}

/// A snippet reference attached to a file name.
#[derive(Debug, Clone, PartialEq, Eq)]
pub struct SnippetRef {
    /// Command this snippet is tied to, when given.
    pub command_href: Option<String>,
    /// Line number in the original source.
    pub line: usize,
}

/// Ghost view of a [`SnippetRef`].
#[verifier::ext_equal]
pub struct SnippetRefV {
    pub command_href: Option<Seq<char>>,
    pub line: nat,
}

impl View for SnippetRef {
    type V = SnippetRefV;

    open spec fn view(&self) -> SnippetRefV {
        SnippetRefV {
            command_href: match self.command_href {
                Some(h) => Some(h@),
                None => None,
            },
            line: self.line as nat,
        }
    }
}

/// One search/replace edit block.
#[derive(Debug, Clone, PartialEq, Eq)]
pub struct EditBlock {
    /// Lines to look for, trailing whitespace trimmed.
    pub search: Vec<String>,
    /// Lines to put in their place, trailing whitespace trimmed.
    pub replacement: Vec<String>,
    /// Operation type.
    pub operation: EditOperation,
}

/// Ghost view of an [`EditBlock`].
#[verifier::ext_equal]
pub struct EditBlockV {
    pub search: Seq<Seq<char>>,
    pub replacement: Seq<Seq<char>>,
    pub operation: EditOperation,
}

impl View for EditBlock {
    type V = EditBlockV;

    open spec fn view(&self) -> EditBlockV {
        EditBlockV {
            search: self.search.deep_view(),
            replacement: self.replacement.deep_view(),
            operation: self.operation,
        }
    }
}

/// An edit reference attached to a file name: the file body is an edit
/// program, not literal content.
#[derive(Debug, Clone, PartialEq, Eq)]
pub struct EditRef {
    /// Command this edit came from, when given.
    pub command_href: Option<String>,
    /// Starting line, informational only.
    pub start_line: Option<usize>,
    /// The parsed edit blocks.
    pub edits: Vec<EditBlock>,
}

/// Ghost view of an [`EditRef`].
#[verifier::ext_equal]
pub struct EditRefV {
    pub command_href: Option<Seq<char>>,
    pub start_line: Option<nat>,
    pub edits: Seq<EditBlockV>,
}

impl View for EditRef {
    type V = EditRefV;

    open spec fn view(&self) -> EditRefV {
        EditRefV {
            command_href: match self.command_href {
                Some(h) => Some(h@),
                None => None,
            },
            start_line: match self.start_line {
                Some(l) => Some(l as nat),
                None => None,
            },
            edits: self.edits@.map_values(|b: EditBlock| b@),
        }
    }
}

/// A single file in an archive.
#[derive(Debug, Clone, PartialEq, Eq)]
pub struct File {
    /// Name of the file; may hold `/`-separated path segments.
    pub name: String,
    /// Contents of the file.
    pub data: Vec<u8>,
    /// Whether this file is binary encoded.
    pub is_binary: bool,
    /// Reason for binary encoding, set exactly when `is_binary`.
    pub binary_reason: Option<BinaryReason>,
    /// Snippet reference, when this file is a code snippet.
    pub snippet_ref: Option<SnippetRef>,
    /// Edit reference, when this file holds edit instructions.
    pub edit_ref: Option<EditRef>,
}

/// Ghost view of a [`File`].
#[verifier::ext_equal]
pub struct FileV {
    pub name: Seq<char>,
    pub data: Seq<u8>,
    pub is_binary: bool,
    pub binary_reason: Option<BinaryReason>,
    pub snippet_ref: Option<SnippetRefV>,
    pub edit_ref: Option<EditRefV>,
}

impl View for File {
    type V = FileV;

    open spec fn view(&self) -> FileV {
        FileV {
            name: self.name@,
            data: self.data@,
            is_binary: self.is_binary,
            binary_reason: self.binary_reason,
            snippet_ref: match self.snippet_ref {
                Some(s) => Some(s@),
                None => None,
            },
            edit_ref: match self.edit_ref {
                Some(e) => Some(e@),
                None => None,
            },
        }
    }
}

impl FileV {
    /// The data-model invariant: a binary reason is present exactly on
    /// binary files.
    pub open spec fn wf(self) -> bool {
        self.is_binary <==> self.binary_reason is Some
    }

    /// A normal file: neither a snippet nor an edit program. Only normal
    /// files are held to name uniqueness.
    pub open spec fn is_normal(self) -> bool {
        self.snippet_ref is None && self.edit_ref is None
    }
}

/// A command reference from the comment, `[command: NAME](#HREF)`.
#[derive(Debug, Clone, PartialEq, Eq)]
pub struct Command {
    /// The command name, for example `rg` or `sed`.
    pub name: String,
    /// The href identifier, without the `#`.
    pub href: String,
}

/// Ghost view of a [`Command`].
#[verifier::ext_equal]
pub struct CommandV {
    pub name: Seq<char>,
    pub href: Seq<char>,
}

impl View for Command {
    type V = CommandV;

    open spec fn view(&self) -> CommandV {
        CommandV { name: self.name@, href: self.href@ }
    }
}

/// An archive: a leading comment, the commands found in it, and an ordered
/// list of files.
#[derive(Debug, Clone)]
pub struct Archive {
    /// Comment lines before the first file marker.
    pub comment: String,
    /// Commands extracted from the comment section.
    pub commands: Vec<Command>,
    /// Files in the archive, in order of insertion.
    pub files: Vec<File>,
}

/// Ghost view of an [`Archive`].
#[verifier::ext_equal]
pub struct ArchiveV {
    pub comment: Seq<char>,
    pub commands: Seq<CommandV>,
    pub files: Seq<FileV>,
}

impl View for Archive {
    type V = ArchiveV;

    open spec fn view(&self) -> ArchiveV {
        ArchiveV {
            comment: self.comment@,
            commands: self.commands@.map_values(|c: Command| c@),
            files: self.files@.map_values(|f: File| f@),
        }
    }
}

/// Error from snippet reference parsing.
#[derive(Debug, Clone, PartialEq, Eq)]
pub enum SnippetParseError {
    /// The input matches no known snippet format.
    InvalidFormat,
    /// Missing closing bracket `]`.
    MissingClosingBracket,
    /// Missing colon `:` between href and line.
    MissingColon,
    /// The line number part is not a valid number.
    InvalidLineNumber { input: String },
}

/// Error from edit block parsing.
#[derive(Debug, Clone, PartialEq, Eq)]
pub enum EditParseError {
    /// An edit block is not terminated by a closing marker.
    UnterminatedBlock,
    /// Invalid or unknown marker format.
    InvalidMarker { marker: String },
    /// Both search and replacement of a block are empty.
    EmptyBlock,
    /// Invalid parser state.
    InvalidState { state: String },
    /// A malformed line, with its 1-based number.
    MalformedLine { line_number: usize, line: String },
    /// The body does not open with a search marker.
    ExpectedSearchStart,
    /// Missing separator after the search block.
    ExpectedSeparator,
    /// Missing closing replace or delete marker.
    ExpectedEndMarker,
    /// Missing closing bracket in a tag.
    MissingClosingBracket,
}

/// Error from edit application.
#[derive(Debug, Clone, PartialEq, Eq)]
pub enum EditApplyError {
    /// The search pattern was not found in the content.
    SearchNotFound { search: String },
    /// The search pattern was found more than once.
    MultipleMatches { search: String, count: usize },
    /// Invalid line number reference.
    InvalidLineNumber { line: usize, max_line: usize },
    /// Edits other than inserts cannot apply to empty content.
    EmptyContent,
    /// An earlier edit conflicts with a later one.
    ConflictingEdits { edit_index: usize },
    /// The content is not valid UTF-8.
    InvalidUtf8,
    /// An input/output failure reported by the caller.
    IoError(String),
}

/// Error for a snippet reference that resolves to no command.
#[derive(Debug, Clone, PartialEq, Eq)]
pub struct SnippetRefError {
    /// File name carrying the unresolved reference.
    pub file: String,
    /// The command href that resolved to nothing.
    pub missing_command: String,
}

/// Ghost view of a [`SnippetRefError`].
#[verifier::ext_equal]
pub struct SnippetRefErrorV {
    pub file: Seq<char>,
    pub missing_command: Seq<char>,
}

impl View for SnippetRefError {
    type V = SnippetRefErrorV;

    open spec fn view(&self) -> SnippetRefErrorV {
        SnippetRefErrorV { file: self.file@, missing_command: self.missing_command@ }
    }
}

/// Error from decoding an archive stream.
#[derive(Debug, Clone, PartialEq, Eq)]
pub enum DecodeError {
    /// Two normal files carry the same name.
    DuplicateFile { name: String },
    /// A binary file's body is not decodable base64.
    InvalidBase64 { name: String },
    /// An edit file's body is not valid UTF-8.
    EditNotUtf8 { name: String },
    /// An edit file's body is not a well-formed edit program.
    EditParse { name: String, error: EditParseError },
    /// An edit file's target exists neither in the archive nor on the
    /// caller's filesystem.
    EditTargetNotFound { name: String },
}

/// The message [`DecodeError::message`] renders.
pub open spec fn decode_error_message(e: DecodeError) -> Seq<char> {
    match e {
        DecodeError::DuplicateFile { name } => "Duplicate file: "@ + name@,
        DecodeError::InvalidBase64 { name } => "Failed to decode base64 for file '"@ + name@
            + "'"@,
        DecodeError::EditNotUtf8 { name } => "File '"@ + name@ + "' is not valid UTF-8"@,
        DecodeError::EditParse { name, .. } => "Failed to parse edit blocks in '"@ + name@ + "'"@,
        DecodeError::EditTargetNotFound { name } => "Edit target file '"@ + name@
            + "' not found in archive or filesystem (at least one must exist)"@,
    }
}

impl DecodeError {
    /// Renders the error as a human-readable message.
    pub fn message(&self) -> (r: String)
        ensures
            r@ == decode_error_message(*self),
    {
        match self {
            DecodeError::DuplicateFile { name } => String::from_str("Duplicate file: ").concat(
                name.as_str(),
            ),
            DecodeError::InvalidBase64 { name } => String::from_str(
                "Failed to decode base64 for file '",
            ).concat(name.as_str()).concat("'"),
            DecodeError::EditNotUtf8 { name } => String::from_str("File '").concat(
                name.as_str(),
            ).concat("' is not valid UTF-8"),
            DecodeError::EditParse { name, error: _ } => String::from_str(
                "Failed to parse edit blocks in '",
            ).concat(name.as_str()).concat("'"),
            DecodeError::EditTargetNotFound { name } => String::from_str(
                "Edit target file '",
            ).concat(name.as_str()).concat(
                "' not found in archive or filesystem (at least one must exist)",
            ),
        }
    }
}

/// Error from encoding an archive.
#[derive(Debug, Clone, PartialEq, Eq)]
pub enum EncodeError {
    /// A file not marked binary holds bytes that are not valid UTF-8.
    NotUtf8 { name: String },
}

/// The message [`EncodeError::message`] renders.
pub open spec fn encode_error_message(e: EncodeError) -> Seq<char> {
    match e {
        EncodeError::NotUtf8 { name } => "File "@ + name@
            + " is not valid UTF-8 but not marked as binary"@,
    }
}

impl EncodeError {
    /// Renders the error as a human-readable message.
    pub fn message(&self) -> (r: String)
        ensures
            r@ == encode_error_message(*self),
    {
        match self {
            EncodeError::NotUtf8 { name } => String::from_str("File ").concat(name.as_str()).concat(
                " is not valid UTF-8 but not marked as binary",
            ),
        }
    }
}

} // verus!
