//! The configuration of a site.

use crate::paths::{join_path, joined, parent, parent_dir};
use vstd::prelude::*;

verus! {

/// Information concerning the site.
#[derive(Clone, Debug)]
pub struct SiteInfo {
    /// Site title.
    pub title: String,
    /// Short site description.
    pub description: String,
}

/// Generation configuration and global information.
#[derive(Clone, Debug)]
pub struct Config {
    /// Information about the website.
    pub site_info: SiteInfo,
    /// Directory with the website's source files.
    pub content_path: String,
    /// Directory where the built site is created.
    pub output_path: String,
}

/// The content directory of a configuration that names none.
pub fn default_content_path() -> (path: String)
    ensures
        path@ == "."@,
{
    ".".to_owned()
}

/// The output directory of a configuration that names none.
pub fn default_output_path() -> (path: String)
    ensures
        path@ == "_site"@,
{
    "_site".to_owned()
}

impl Config {
    /// The configuration that the file at `path` holds, given what the file
    /// decodes to: the two directories are taken relative to the directory of
    /// the file.
    pub fn from_file(path: &str, decoded: Config) -> (config: Config)
        ensures
            config.site_info == decoded.site_info,
            config.content_path@ == joined(parent(path@), decoded.content_path@),
            config.output_path@ == joined(parent(path@), decoded.output_path@),
    {
        let basedir = parent_dir(path);
        let content_path = join_path(basedir.as_str(), decoded.content_path.as_str());
        let output_path = join_path(basedir.as_str(), decoded.output_path.as_str());
        Config { site_info: decoded.site_info, content_path, output_path }
    }
}

} // verus!
