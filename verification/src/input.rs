//! Where the input comes from, and the names that follow from it.
use crate::names::base_name;
use crate::names::basename;
use crate::names::extension;
use crate::names::last_index_of;
use crate::names::lemma_last_index_of;
use vstd::prelude::*;

verus! {

/// The argument that stands for standard input.
pub const STDIN_ARGUMENT: &'static str = "-";

/// The filename that names the output files of a run on standard input.
pub const STDIN_FILENAME: &'static str = "stdin.yaml";

/// Where the lines of a run are read from.
#[derive(Debug, PartialEq, Eq)]
pub enum InputSource {
    /// Standard input.
    Stdin,
    /// The file at this path.
    File(String),
}

/// Whether a run with this argument reads standard input: it does without
/// an argument, and with the argument `-`.
pub open spec fn reads_stdin(arg: Option<Seq<char>>) -> bool {
    arg is None || arg == Some(STDIN_ARGUMENT@)
}

/// The filename that the names of the output files are taken from.
pub open spec fn naming_filename(arg: Option<Seq<char>>) -> Seq<char> {
    if reads_stdin(arg) {
        STDIN_FILENAME@
    } else {
        arg->0
    }
}

/// The argument of a run as a value of specifications.
pub open spec fn arg_view(arg: Option<String>) -> Option<Seq<char>> {
    match arg {
        Some(path) => Some(path@),
        None => None,
    }
}

/// The output files of a run on standard input are named `stdin-0.yaml`,
/// `stdin-1.yaml` and so on.
pub proof fn lemma_stdin_names()
    ensures
        base_name(STDIN_FILENAME@) == "stdin"@,
        extension(STDIN_FILENAME@) == "yaml"@,
{
    reveal_strlit("stdin.yaml");
    reveal_strlit("stdin");
    reveal_strlit("yaml");
    let name = STDIN_FILENAME@;
    lemma_last_index_of(name, '/');
    lemma_last_index_of(name, '.');
    let slash = last_index_of(name, '/');
    let dot = last_index_of(name, '.');
    assert(slash == -1) by {
        if slash >= 0 {
            assert(name[slash] == '/');
        }
    }
    assert(name.skip(0) == name);
    assert(dot == 5) by {
        assert(name[5] == '.');
        if dot >= 0 && dot != 5 {
            assert(name[dot] == '.');
        }
    }
    assert(base_name(name) =~= "stdin"@);
    assert(extension(name) =~= "yaml"@);
}

/// Decides where a run reads from and how its output files are named.
///
/// `arg` is the path given on the command line, if one was given. The
/// result holds the source, the base name and the extension.
pub fn stdin_or_input_file(arg: Option<String>) -> (r: (InputSource, String, String))
    ensures
        match r.0 {
            InputSource::Stdin => reads_stdin(arg_view(arg)),
            InputSource::File(path) => !reads_stdin(arg_view(arg)) && arg == Some(path),
        },
        r.1@ == base_name(naming_filename(arg_view(arg))),
        r.2@ == extension(naming_filename(arg_view(arg))),
        reads_stdin(arg_view(arg)) ==> r.1@ == "stdin"@ && r.2@ == "yaml"@,
{
    proof {
        lemma_stdin_names();
    }
    let from_stdin = match &arg {
        None => true,
        Some(path) => *path == STDIN_ARGUMENT.to_owned(),
    };
    if from_stdin {
        let (base, ext) = basename(STDIN_FILENAME);
        (InputSource::Stdin, base, ext)
    } else {
        let path = arg.unwrap();
        let (base, ext) = basename(path.as_str());
        (InputSource::File(path), base, ext)
    }
}

} // verus!
