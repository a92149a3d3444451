//! What the tool is told to do.

use vstd::prelude::*;

use crate::text::{same_text, starts_with};

verus! {

/// What the tool is told to do.
#[derive(Debug)]
pub struct CaptureConfig {
    /// Llama-swap server URL (e.g. http://localhost:8080)
    pub url: String,
    /// Output folder to write capture files (use '-' for stdout)
    pub output: String,
    /// API key for authentication (optional)
    pub api_key: String,
    /// Decode conversation from base64
    pub decode: bool,
    /// Pretty print output
    pub pretty: bool,
}

/// A path of the file system.
#[verifier::external_type_specification]
#[verifier::external_body]
pub struct ExPath(std::path::Path);

/// A path that is not borrowed, such as a copy of a `std::path::Path` is.
#[verifier::external_type_specification]
#[verifier::external_body]
pub struct ExPathBuf(std::path::PathBuf);

/// The text of a path, as `std::path::Path::to_str` gives it.
pub uninterp spec fn path_text(path: &std::path::Path) -> Seq<char>;

/// Calls `std::path::Path::new`: the path with the text as it is.
#[verifier::external_body]
fn path_of(text: &str) -> (r: &std::path::Path)
    ensures
        path_text(r) == text@,
{
    std::path::Path::new(text)
}

impl CaptureConfig {
    /// Whether captures go to the standard output.
    pub open spec fn to_stdout(self) -> bool {
        self.output@ == "-"@
    }

    /// Whether captures go to the standard output.
    pub fn is_stdout(&self) -> (r: bool)
        ensures
            r == self.to_stdout(),
    {
        same_text(self.output.as_str(), "-")
    }

    /// The folder that captures go to, unless they go to the standard output.
    pub fn output_folder(&self) -> (r: Option<&std::path::Path>)
        ensures
            r is Some <==> !self.to_stdout(),
            r matches Some(folder) ==> path_text(folder) == self.output@,
    {
        if self.is_stdout() {
            None
        } else {
            Some(path_of(self.output.as_str()))
        }
    }

    /// Whether captures can be written where they are to go, and what is reported
    /// where they cannot.
    pub fn check_output(&self, is_directory: bool) -> (r: Result<(), String>)
        ensures
            r is Ok <==> self.to_stdout() || is_directory,
            r matches Err(message) ==> message@ == "output path '"@ + self.output@
                + "' is not a directory"@,
    {
        if self.is_stdout() || is_directory {
            return Ok(());
        }
        let mut message = "output path '".to_owned();
        message.append(self.output.as_str());
        message.append("' is not a directory");
        Err(message)
    }
}

/// Whether a URL names its scheme.
pub open spec fn has_scheme(url: Seq<char>) -> bool {
    "http://"@.is_prefix_of(url) || "https://"@.is_prefix_of(url)
}

/// A URL with its scheme, which is HTTP unless the URL says otherwise.
pub open spec fn with_scheme(url: Seq<char>) -> Seq<char> {
    if has_scheme(url) {
        url
    } else {
        "http://"@ + url
    }
}

/// A URL with its scheme, which is HTTP unless the URL says otherwise.
pub fn resolve_server_url(raw: &str) -> (r: String)
    ensures
        r@ == with_scheme(raw@),
{
    if starts_with(raw, "http://") || starts_with(raw, "https://") {
        raw.to_owned()
    } else {
        let mut url = "http://".to_owned();
        url.append(raw);
        url
    }
}

/// A resolved URL always names its scheme, and resolving it again changes
/// nothing.
pub proof fn resolving_is_idempotent(url: Seq<char>)
    ensures
        has_scheme(with_scheme(url)),
        with_scheme(with_scheme(url)) == with_scheme(url),
{
    if !has_scheme(url) {
        assert(("http://"@ + url).subrange(0, "http://"@.len() as int) =~= "http://"@);
    }
}

} // verus!
