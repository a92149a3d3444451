//! What holds of every configuration.

use vstd::prelude::*;

use crate::config::{path_text, resolve_server_url, CaptureConfig};

verus! {

/// Whatever `CaptureConfig::is_stdout` and `CaptureConfig::output_folder` return,
/// captures go to the standard output where the output is a dash and nothing else,
/// and otherwise to the folder with the text of the output.
pub proof fn output_is_a_dash_or_a_folder(
    config: CaptureConfig,
    is_stdout: bool,
    folder: Option<&std::path::Path>,
)
    requires
        call_ensures(CaptureConfig::is_stdout, (&config,), is_stdout),
        call_ensures(CaptureConfig::output_folder, (&config,), folder),
    ensures
        is_stdout <==> config.output@ == seq!['-'],
        folder is None <==> config.output@ == seq!['-'],
        folder matches Some(folder) ==> path_text(folder) == config.output@,
{
    reveal_strlit("-");
    assert("-"@ =~= seq!['-']);
}

/// Whatever `CaptureConfig::check_output` returns, an output is refused where it is
/// neither a dash nor a directory, with its text between quotes.
pub proof fn other_outputs_are_refused(
    config: CaptureConfig,
    is_directory: bool,
    checked: Result<(), String>,
)
    requires
        call_ensures(CaptureConfig::check_output, (&config, is_directory), checked),
    ensures
        checked is Err <==> !is_directory && config.output@ != seq!['-'],
        checked matches Err(message) ==> message@ == "output path '"@ + config.output@
            + "' is not a directory"@,
{
    reveal_strlit("-");
    assert("-"@ =~= seq!['-']);
}

/// Whatever `resolve_server_url` returns, a URL with one of the two schemes stays
/// as it is, and any other is completed by the first one.
pub proof fn urls_get_a_scheme(raw: &str, url: String)
    requires
        call_ensures(resolve_server_url, (raw,), url),
    ensures
        (exists|rest: Seq<char>| raw@ == #[trigger] ("http://"@ + rest)) ==> url@ == raw@,
        (exists|rest: Seq<char>| raw@ == #[trigger] ("https://"@ + rest)) ==> url@ == raw@,
        ({
            &&& !(exists|rest: Seq<char>| raw@ == #[trigger] ("http://"@ + rest))
            &&& !(exists|rest: Seq<char>| raw@ == #[trigger] ("https://"@ + rest))
        }) ==> url@ == "http://"@ + raw@,
{
    if exists|rest: Seq<char>| raw@ == #[trigger] ("http://"@ + rest) {
        assert(raw@.subrange(0, "http://"@.len() as int) =~= "http://"@);
    }
    if exists|rest: Seq<char>| raw@ == #[trigger] ("https://"@ + rest) {
        assert(raw@.subrange(0, "https://"@.len() as int) =~= "https://"@);
    }
    if "http://"@.is_prefix_of(raw@) {
        assert(raw@ =~= "http://"@ + raw@.skip("http://"@.len() as int));
    }
    if "https://"@.is_prefix_of(raw@) {
        assert(raw@ =~= "https://"@ + raw@.skip("https://"@.len() as int));
    }
}

} // verus!
