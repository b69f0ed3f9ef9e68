//! Names of the configuration files.

use crate::text::{after_last, after_last_in, chars_of, string_of};
use vstd::prelude::*;
use vstd::string::*;

verus! {

/// What follows the stem in the name of every configuration file.
pub open spec fn config_suffix() -> Seq<char> {
    "_config"@ + ".toml"@
}

/// The name of the configuration file with the given stem.
pub fn filename(file_name: &str) -> (name: String)
    ensures
        name@ == file_name@ + config_suffix(),
{
    let mut name = String::from_str(file_name);
    name.append("_config");
    name.append(".toml");
    name
}

/// The name of the configuration file of a type, from the type's path: the
/// last segment of the path is the stem.
pub fn config_file_name(type_path: &str) -> (name: String)
    ensures
        name@ == after_last(type_path@, seq![':', ':']) + config_suffix(),
{
    let v = chars_of(type_path);
    let colons: Vec<char> = vec![':', ':'];
    assert(colons@ =~= seq![':', ':']);
    let start = after_last_in(&v, &colons);
    let stem = string_of(&v, start, v.len());
    assert(v@.subrange(start as int, v.len() as int) =~= v@.skip(start as int));
    filename(stem.as_str())
}

/// Where a configuration comes from when it is loaded.
#[derive(Debug, Clone, Copy, PartialEq, Eq)]
pub enum ConfigSource {
    /// From the file.
    Stored,
    /// The default, because the file cannot be parsed; the file stays as it
    /// is, for its owner to mend.
    DefaultKept,
    /// The default, because there is no file; the default is written to it.
    DefaultSaved,
}

/// Where the configuration comes from, given whether its file could be read
/// and, if so, whether it could be parsed.
pub fn config_source(read: bool, parsed: bool) -> (source: ConfigSource)
    ensures
        source == if !read {
            ConfigSource::DefaultSaved
        } else if parsed {
            ConfigSource::Stored
        } else {
            ConfigSource::DefaultKept
        },
{
    if !read {
        ConfigSource::DefaultSaved
    } else if parsed {
        ConfigSource::Stored
    } else {
        ConfigSource::DefaultKept
    }
}

} // verus!
