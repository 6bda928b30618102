use vstd::prelude::*;

verus! {

/// The settings that decide where a run's output is read from.
#[derive(Clone, Debug)]
pub struct Environment {
    pub read_from_file: bool,
    pub input_file_name: String,
}

impl Environment {
    pub fn new(read_from_file: bool, input_file_name: String) -> (r: Environment)
        ensures
            r.read_from_file == read_from_file,
            r.input_file_name@ == input_file_name@,
    {
        Environment { read_from_file, input_file_name }
    }
}

/// Reads the output from standard input, to its end.
#[derive(Clone, Copy, Debug)]
pub struct StdReader {}

/// Reads the output from the named file.
#[derive(Clone, Debug)]
pub struct FileReader {
    pub file_name: String,
}

/// The source that a run's output comes from.
#[derive(Clone, Debug)]
pub enum InputTypes {
    StdIn(StdReader),
    File(FileReader),
}

/// Chooses the input source.
#[derive(Clone, Copy, Debug)]
pub struct InputFactory {}

impl InputFactory {
    /// The file named in `env` when `env` asks to read from a file, else standard input.
    pub fn get(env: &Environment) -> (r: InputTypes)
        ensures
            match r {
                InputTypes::File(f) => env.read_from_file && f.file_name@ == env.input_file_name@,
                InputTypes::StdIn(_) => !env.read_from_file,
            },
    {
        if env.read_from_file {
            InputTypes::File(FileReader { file_name: env.input_file_name.clone() })
        } else {
            InputTypes::StdIn(StdReader {})
        }
    }
}

} // verus!
