use path_dedot::ParseDot;
use vstd::prelude::*;
use vstd::string::*;

use crate::text::{join_path, joined, same_text};

verus! {

/// Directory that fixtures go to when none is named.
pub const DEFAULT_OUTPUT_DIR: &'static str = "fixtures";

/// `path` with its `.` and `..` components resolved, as path_dedot computes it.
pub uninterp spec fn dedotted(path: Seq<char>) -> Seq<char>;

/// Relies on path_dedot's `ParseDot::parse_dot` for `Path`. It reads the current
/// directory first and fails if that cannot be done; the current directory enters
/// the result only for a path that starts with `.` or `..`, so for a path that starts
/// at the root the result depends on the path alone.
#[verifier::external_body]
fn parse_dot(path: &str) -> (r: Option<String>)
    requires
        starts_at_root(path@),
    ensures
        r matches Some(d) ==> d@ == dedotted(path@),
{
    match std::path::Path::new(path).parse_dot() {
        Ok(p) => p.to_str().map(String::from),
        Err(_) => None,
    }
}

/// Whether a path starts at the root directory.
pub open spec fn starts_at_root(path: Seq<char>) -> bool {
    path.len() > 0 && path[0] == '/'
}

/// Whether a command-line argument asks for help.
pub fn is_help_flag(arg: &&String) -> (r: bool)
    ensures
        r == (arg@ == "-h"@ || arg@ == "--help"@),
{
    same_text(arg.as_str(), "-h") || same_text(arg.as_str(), "--help")
}

/// The output directory before dot components are resolved: the named directory (or
/// the default one) taken from the parent of `command_dir`.
pub open spec fn output_dir_chars(command_dir: Seq<char>, output_dir: Option<&str>) -> Seq<char> {
    joined(
        joined(command_dir, seq!['.', '.']),
        match output_dir {
            Some(d) => d@,
            None => DEFAULT_OUTPUT_DIR@,
        },
    )
}

pub fn output_dir_path(command_dir: &str, output_dir: Option<&str>) -> (r: String)
    ensures
        r@ == output_dir_chars(command_dir@, output_dir),
{
    proof {
        reveal_strlit("..");
    }
    let parent = join_path(command_dir, "..");
    assert(".."@ =~= seq!['.', '.']);
    match output_dir {
        Some(d) => join_path(parent.as_str(), d),
        None => join_path(parent.as_str(), DEFAULT_OUTPUT_DIR),
    }
}

/// The output directory with its dot components resolved; `None` where the joined
/// path does not start at the root, or where resolving failed.
pub fn resolve_output_dir(command_dir: &str, output_dir: Option<&str>) -> (r: Option<String>)
    ensures
        !starts_at_root(output_dir_chars(command_dir@, output_dir)) ==> r is None,
        r matches Some(d) ==> d@ == dedotted(output_dir_chars(command_dir@, output_dir)),
{
    let path = output_dir_path(command_dir, output_dir);
    let n = path.as_str().unicode_len();
    if n == 0 || path.as_str().get_char(0) != '/' {
        return None;
    }
    parse_dot(path.as_str())
}

} // verus!
