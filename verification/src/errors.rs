use vstd::prelude::*;
use vstd::string::StringExecFns;

use crate::sanitizer::Platform;
use crate::text::dec_str;
use crate::text::usize_to_string;

verus! {

/// Failure taxonomy of the publishing pipeline.
#[derive(Debug)]
pub enum PipelineError {
    /// The document has no well-formed preamble block.
    MissingPreamble,
    /// A preamble block is present but its key-value syntax is malformed.
    InvalidPreambleSyntax { detail: String },
    /// The preamble title and the leading body heading disagree; both
    /// values are carried verbatim.
    TitleConflict { preamble_title: String, body_title: String },
    /// Neither the preamble nor the body provides a title.
    MissingTitle,
    /// Content exceeded the size ceiling, before or after conversion.
    ContentTooLarge { after_conversion: bool, size: usize, limit: usize },
    /// More tags than the destination platform accepts.
    TooManyTags { destination: Platform, found: usize, ceiling: usize },
    /// An embedded image reference uses a non-absolute URL; the offending
    /// URL and the matched image reference are carried.
    InvalidImageUrl { url: String, excerpt: String },
    /// The destination does not offer the requested operation.
    UnsupportedOperation { detail: String },
    /// The request to the remote platform could not be carried out.
    RemoteRequestFailed { detail: String },
    /// The remote platform answered with a non-success status.
    RemoteRejected { status: u16, body: String },
}

/// The name under which a platform is reported in diagnostics.
pub open spec fn platform_label(p: Platform) -> Seq<char> {
    match p {
        Platform::DevTo => "dev.to"@,
        Platform::Medium => "Medium"@,
    }
}

/// The human-readable diagnostic for each failure.
pub open spec fn message_spec(e: PipelineError) -> Seq<char> {
    match e {
        PipelineError::MissingPreamble => "Failed to parse frontmatter"@,
        PipelineError::InvalidPreambleSyntax { detail } => "Failed to parse frontmatter: "@
            + detail@,
        PipelineError::TitleConflict { preamble_title, body_title } => {
            "Title mismatch: frontmatter has '"@ + preamble_title@
                + "' but content starts with '# "@ + body_title@
                + "'. Please update in one place only to avoid inconsistency."@
        },
        PipelineError::MissingTitle => {
            "Missing required 'title'. Please provide either:\n1. A 'title' field in the frontmatter, or\n2. An H1 heading (# Title) at the start of your content"@
        },
        PipelineError::ContentTooLarge { after_conversion, size, limit } => {
            (if after_conversion {
                "Converted HTML too large: "@
            } else {
                "Content too large for conversion: "@
            }) + dec_str(size as nat) + " bytes (max: "@ + dec_str(limit as nat) + ")"@
        },
        PipelineError::TooManyTags { destination, found, ceiling } => {
            platform_label(destination) + " allows maximum "@ + dec_str(ceiling as nat)
                + " tags, found "@ + dec_str(found as nat)
        },
        PipelineError::InvalidImageUrl { url, excerpt } => {
            "Invalid image URL (must be absolute): "@ + url@
        },
        PipelineError::UnsupportedOperation { detail } => detail@,
        PipelineError::RemoteRequestFailed { detail } => detail@,
        PipelineError::RemoteRejected { status, body } => {
            "Remote platform rejected the request (status "@ + dec_str(status as nat) + "): "@
                + body@
        },
    }
}

impl PipelineError {
    /// Render the diagnostic message for this failure.
    pub fn message(&self) -> (r: String)
        ensures
            r@ == message_spec(*self),
    {
        let mut m = String::new();
        match self {
            PipelineError::MissingPreamble => {
                m.append("Failed to parse frontmatter");
            },
            PipelineError::InvalidPreambleSyntax { detail } => {
                m.append("Failed to parse frontmatter: ");
                m.append(detail.as_str());
            },
            PipelineError::TitleConflict { preamble_title, body_title } => {
                m.append("Title mismatch: frontmatter has '");
                m.append(preamble_title.as_str());
                m.append("' but content starts with '# ");
                m.append(body_title.as_str());
                m.append("'. Please update in one place only to avoid inconsistency.");
            },
            PipelineError::MissingTitle => {
                m.append(
                    "Missing required 'title'. Please provide either:\n1. A 'title' field in the frontmatter, or\n2. An H1 heading (# Title) at the start of your content",
                );
            },
            PipelineError::ContentTooLarge { after_conversion, size, limit } => {
                if *after_conversion {
                    m.append("Converted HTML too large: ");
                } else {
                    m.append("Content too large for conversion: ");
                }
                let size_str = usize_to_string(*size);
                m.append(size_str.as_str());
                m.append(" bytes (max: ");
                let limit_str = usize_to_string(*limit);
                m.append(limit_str.as_str());
                m.append(")");
            },
            PipelineError::TooManyTags { destination, found, ceiling } => {
                match destination {
                    Platform::DevTo => m.append("dev.to"),
                    Platform::Medium => m.append("Medium"),
                }
                m.append(" allows maximum ");
                let ceiling_str = usize_to_string(*ceiling);
                m.append(ceiling_str.as_str());
                m.append(" tags, found ");
                let found_str = usize_to_string(*found);
                m.append(found_str.as_str());
            },
            PipelineError::InvalidImageUrl { url, excerpt } => {
                m.append("Invalid image URL (must be absolute): ");
                m.append(url.as_str());
            },
            PipelineError::UnsupportedOperation { detail } => {
                m.append(detail.as_str());
            },
            PipelineError::RemoteRequestFailed { detail } => {
                m.append(detail.as_str());
            },
            PipelineError::RemoteRejected { status, body } => {
                m.append("Remote platform rejected the request (status ");
                let status_str = usize_to_string(*status as usize);
                m.append(status_str.as_str());
                m.append("): ");
                m.append(body.as_str());
            },
        }
        assert(m@ =~= message_spec(*self));
        m
    }
}

} // verus!
