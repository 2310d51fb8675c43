//! The command-line data model: what each subcommand carries once the
//! arguments are parsed. Parsing and help text live outside this crate;
//! these are the plain values the front end hands over.

use vstd::prelude::*;
use crate::error::Error;

verus! {

/// How listings are rendered.
#[derive(Clone, Copy, Debug, PartialEq, Eq, Structural)]
pub enum OutputFormat {
    Yaml,
    Json,
    Default,
}

/// Reads an output format name; any other word is invalid input.
pub fn parse_output_format(s: &str) -> (r: Result<OutputFormat, Error>)
    ensures
        match r {
            Ok(OutputFormat::Yaml) => s@ == "yaml"@,
            Ok(OutputFormat::Json) => s@ == "json"@,
            Ok(OutputFormat::Default) => s@ == "default"@,
            Err(_) => s@ != "yaml"@ && s@ != "json"@ && s@ != "default"@,
        },
{
    if crate::registry::str_eq(s, "yaml") {
        Ok(OutputFormat::Yaml)
    } else if crate::registry::str_eq(s, "json") {
        Ok(OutputFormat::Json)
    } else if crate::registry::str_eq(s, "default") {
        Ok(OutputFormat::Default)
    } else {
        Err(Error::Other(s.to_owned()))
    }
}

/// A shell whose completion script can be generated.
#[derive(Clone, Copy, Debug, PartialEq, Eq, Structural)]
pub enum Shell {
    Bash,
    Elvish,
    Fish,
    PowerShell,
    Zsh,
}

/// What to list.
#[derive(Clone, Debug)]
pub enum ListObject {
    Tags { with_files: bool },
    Files { with_tags: bool },
}

/// Arguments of the list subcommand.
#[derive(Clone, Debug)]
pub struct ListOpts {
    pub object: ListObject,
}

/// Arguments of the set (tag) subcommand.
#[derive(Clone, Debug)]
pub struct SetOpts {
    pub glob: bool,
    pub paths: Vec<String>,
    pub tags: Vec<String>,
}

/// Arguments of the get (inspect) subcommand.
#[derive(Clone, Debug)]
pub struct GetOpts {
    pub glob: bool,
    pub paths: Vec<String>,
}

/// Arguments of the rm (untag) subcommand.
#[derive(Clone, Debug)]
pub struct RmOpts {
    pub glob: bool,
    pub paths: Vec<String>,
    pub tags: Vec<String>,
}

/// What to clear.
#[derive(Clone, Debug)]
pub enum ClearObject {
    Files { paths: Vec<String>, glob: bool },
    Tags { names: Vec<String> },
    Cache,
}

/// Arguments of the clear subcommand.
#[derive(Clone, Debug)]
pub struct ClearOpts {
    pub object: ClearObject,
}

/// Arguments of the search subcommand.
#[derive(Clone, Debug)]
pub struct SearchOpts {
    pub any: bool,
    pub tags: Vec<String>,
}

/// Arguments of the cp (copy tags) subcommand.
#[derive(Clone, Debug)]
pub struct CpOpts {
    pub glob: bool,
    pub input_path: String,
    pub paths: Vec<String>,
}

/// Arguments of the edit (recolor) subcommand.
#[derive(Clone, Debug)]
pub struct EditOpts {
    pub tag: String,
    pub color: String,
}

/// Arguments of the completions subcommand.
#[derive(Clone, Debug)]
pub struct CompletionsOpts {
    pub shell: Shell,
}

/// One parsed subcommand.
#[derive(Clone, Debug)]
pub enum Command {
    List(ListOpts),
    SetTags(SetOpts),
    Get(GetOpts),
    Rm(RmOpts),
    Clear(ClearOpts),
    Search(SearchOpts),
    Cp(CpOpts),
    Edit(EditOpts),
    PrintCompletions(CompletionsOpts),
    CleanCache,
}

/// The whole parsed command line.
#[derive(Clone, Debug)]
pub struct Opts {
    pub dir: Option<String>,
    pub max_depth: Option<u64>,
    pub pretty: bool,
    pub output_format: OutputFormat,
    pub cmd: Command,
}

} // verus!
