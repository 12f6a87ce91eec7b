use vstd::prelude::*;

verus! {

/// Everything that can go wrong while a site is built.
///
/// Paths are kept as text; where the operating system reported a failure, the
/// last field carries its message.
#[derive(Debug)]
pub enum Error {
    /// The configuration file could not be read.
    ConfigRead(String, String),
    /// A content file has fewer than two frontmatter delimiters.
    MalformedContent(String),
    /// A content or template file could not be read.
    ReadInput(String, String),
    /// An output file could not be written.
    WriteFile(String, String),
    /// The frontmatter of a content file does not decode into metadata.
    ParseMetadata(String, String),
    /// A directory could not be listed.
    ReadDirectory(String, String),
    /// A directory could not be created.
    CreateDirectory(String, String),
    /// A concurrent unit of work crashed instead of returning.
    Join(String),
    /// A file could not be copied from the first path to the second.
    Copy(String, String, String),
    /// The text between shortcode delimiters is no known shortcode.
    ParseShortcode(String),
    /// The file named by an include shortcode could not be had.
    IncludeShortcode(String, String),
    /// A tag names a variable that the context does not hold.
    TagNotFound(String),
}

} // verus!
