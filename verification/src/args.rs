use vstd::prelude::*;
use vstd::string::StringExecFns;

use crate::text::chars_of;

verus! {

/// Top-level command-line invocation.
pub struct Cli {
    pub command: Commands,
}

/// Available commands.
pub enum Commands {
    /// Post an article to one or more platforms
    Post {
        /// Path to a markdown file or a dev.to URL
        input: String,
        /// Target platforms
        platforms: Vec<Platform>,
        /// Apply AI artifact cleaning to the content
        clean_ai: bool,
        /// Override tags from the preamble
        tags: Option<Vec<String>>,
        /// Set the canonical URL
        canonical: Option<String>,
        /// Show what would be posted without posting
        dry_run: bool,
        /// Content format for the HTML-capable platform
        format: ContentFormat,
    },
    /// Preview processed content without posting
    Preview { input: String, clean_ai: bool },
    /// Manage configuration
    Config { action: ConfigAction },
}

/// Configuration management actions.
pub enum ConfigAction {
    Init,
    Show,
    Path,
}

/// Supported platforms.
#[derive(Debug, Clone, PartialEq, Eq, Structural)]
pub enum Platform {
    DevTo,
    Medium,
}

/// Content format for posts to the HTML-capable platform.
#[derive(Debug, Clone, PartialEq, Eq, Structural)]
pub enum ContentFormat {
    Markdown,
    Html,
}

/// Whether one character equals another up to ASCII case folding of the
/// first; the second is expected lower-case.
pub open spec fn ci_char(a: char, b: char) -> bool {
    let ua = a as u32;
    let ub = b as u32;
    ua == ub || (0x41 <= ua && ua <= 0x5A && ua + 0x20 == ub)
}

/// Whether the text equals the lower-case keyword up to ASCII case.
pub open spec fn eq_ci(s: Seq<char>, kw: Seq<char>) -> bool {
    s.len() == kw.len() && forall|i: int| 0 <= i < s.len() ==> ci_char(#[trigger] s[i], kw[i])
}

/// What platform a command-line name denotes.
pub open spec fn platform_from_str_spec(s: Seq<char>) -> Option<Platform> {
    if eq_ci(s, seq!['d', 'e', 'v', 't', 'o']) || eq_ci(s, seq!['d', 'e', 'v', '.', 't', 'o']) {
        Some(Platform::DevTo)
    } else if eq_ci(s, seq!['m', 'e', 'd', 'i', 'u', 'm']) {
        Some(Platform::Medium)
    } else {
        None
    }
}

/// What content format a command-line name denotes.
pub open spec fn format_from_str_spec(s: Seq<char>) -> Option<ContentFormat> {
    if eq_ci(s, seq!['m', 'a', 'r', 'k', 'd', 'o', 'w', 'n']) || eq_ci(s, seq!['m', 'd']) {
        Some(ContentFormat::Markdown)
    } else if eq_ci(s, seq!['h', 't', 'm', 'l']) {
        Some(ContentFormat::Html)
    } else {
        None
    }
}

/// Whether the characters equal the lower-case keyword up to ASCII case.
fn eq_ci_exec(s: &Vec<char>, kw: &Vec<char>) -> (r: bool)
    ensures
        r == eq_ci(s@, kw@),
{
    if s.len() != kw.len() {
        return false;
    }
    let mut i: usize = 0;
    while i < s.len()
        invariant
            i <= s.len(),
            s@.len() == kw@.len(),
            forall|k: int| 0 <= k < i ==> ci_char(#[trigger] s@[k], kw@[k]),
        decreases s.len() - i,
    {
        let ua: u32 = s[i] as u32;
        let ub: u32 = kw[i] as u32;
        if !(ua == ub || (0x41 <= ua && ua <= 0x5A && ua + 0x20 == ub)) {
            return false;
        }
        i = i + 1;
    }
    true
}

impl Platform {
    /// Parse a platform name, ignoring ASCII case.
    pub fn parse_platform(s: &str) -> (r: Result<Platform, String>)
        ensures
            match platform_from_str_spec(s@) {
                Some(p) => r matches Ok(q) && q == p,
                None => r matches Err(e) && e@ == "Unknown platform: '"@ + s@
                    + "'. Valid options: devto, medium"@,
            },
    {
        let cs = chars_of(s);
        let kw_devto = vec!['d', 'e', 'v', 't', 'o'];
        let kw_dev_to = vec!['d', 'e', 'v', '.', 't', 'o'];
        let kw_medium = vec!['m', 'e', 'd', 'i', 'u', 'm'];
        proof {
            assert(kw_devto@ =~= seq!['d', 'e', 'v', 't', 'o']);
            assert(kw_dev_to@ =~= seq!['d', 'e', 'v', '.', 't', 'o']);
            assert(kw_medium@ =~= seq!['m', 'e', 'd', 'i', 'u', 'm']);
        }
        if eq_ci_exec(&cs, &kw_devto) || eq_ci_exec(&cs, &kw_dev_to) {
            Ok(Platform::DevTo)
        } else if eq_ci_exec(&cs, &kw_medium) {
            Ok(Platform::Medium)
        } else {
            let mut m = String::new();
            m.append("Unknown platform: '");
            m.append(s);
            m.append("'. Valid options: devto, medium");
            proof {
                assert(m@ =~= "Unknown platform: '"@ + s@ + "'. Valid options: devto, medium"@);
            }
            Err(m)
        }
    }

    /// The name under which the platform is shown.
    pub fn display_name(&self) -> (r: String)
        ensures
            r@ == (match *self {
                Platform::DevTo => "dev.to"@,
                Platform::Medium => "Medium"@,
            }),
    {
        let mut m = String::new();
        match self {
            Platform::DevTo => m.append("dev.to"),
            Platform::Medium => m.append("Medium"),
        }
        m
    }
}

impl core::str::FromStr for Platform {
    type Err = String;

    fn from_str(s: &str) -> Result<Platform, String> {
        Platform::parse_platform(s)
    }
}

impl ContentFormat {
    /// Parse a content format name, ignoring ASCII case.
    pub fn parse_format(s: &str) -> (r: Result<ContentFormat, String>)
        ensures
            match format_from_str_spec(s@) {
                Some(f) => r matches Ok(g) && g == f,
                None => r matches Err(e) && e@ == "Unknown format: '"@ + s@
                    + "'. Valid options: markdown, html"@,
            },
    {
        let cs = chars_of(s);
        let kw_markdown = vec!['m', 'a', 'r', 'k', 'd', 'o', 'w', 'n'];
        let kw_md = vec!['m', 'd'];
        let kw_html = vec!['h', 't', 'm', 'l'];
        proof {
            assert(kw_markdown@ =~= seq!['m', 'a', 'r', 'k', 'd', 'o', 'w', 'n']);
            assert(kw_md@ =~= seq!['m', 'd']);
            assert(kw_html@ =~= seq!['h', 't', 'm', 'l']);
        }
        if eq_ci_exec(&cs, &kw_markdown) || eq_ci_exec(&cs, &kw_md) {
            Ok(ContentFormat::Markdown)
        } else if eq_ci_exec(&cs, &kw_html) {
            Ok(ContentFormat::Html)
        } else {
            let mut m = String::new();
            m.append("Unknown format: '");
            m.append(s);
            m.append("'. Valid options: markdown, html");
            proof {
                assert(m@ =~= "Unknown format: '"@ + s@ + "'. Valid options: markdown, html"@);
            }
            Err(m)
        }
    }

    /// The name under which the content format is shown.
    pub fn display_name(&self) -> (r: String)
        ensures
            r@ == (match *self {
                ContentFormat::Markdown => "markdown"@,
                ContentFormat::Html => "html"@,
            }),
    {
        let mut m = String::new();
        match self {
            ContentFormat::Markdown => m.append("markdown"),
            ContentFormat::Html => m.append("html"),
        }
        m
    }
}

impl core::str::FromStr for ContentFormat {
    type Err = String;

    fn from_str(s: &str) -> Result<ContentFormat, String> {
        ContentFormat::parse_format(s)
    }
}

} // verus!
