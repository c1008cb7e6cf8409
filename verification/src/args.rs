use vstd::prelude::*;

verus! {

/// The command-line arguments the tool accepts, by role.
#[derive(Clone, Copy, Debug, PartialEq, Eq, Structural)]
pub enum Argument {
    Action,
    KeyFile,
    Source,
    Dest,
    Decode,
    Encode,
}

/// The argument's name on the command line.
pub open spec fn spec_arg_name(a: Argument) -> Seq<char> {
    match a {
        Argument::Action => "action"@,
        Argument::Encode => "encode"@,
        Argument::Decode => "decode"@,
        Argument::KeyFile => "keyfile"@,
        Argument::Source => "source"@,
        Argument::Dest => "dest"@,
    }
}

/// The help text shown for the argument.
pub open spec fn spec_arg_description(a: Argument) -> Seq<char> {
    match a {
        Argument::Action => "Action to execute on the source file"@,
        Argument::KeyFile => "File containing a G4C key"@,
        Argument::Source => "File to encode or decoded"@,
        Argument::Dest => "Output file"@,
        Argument::Decode => ""@,
        Argument::Encode => ""@,
    }
}

impl Argument {
    pub fn as_str(&self) -> (r: &'static str)
        ensures
            r@ == spec_arg_name(*self),
    {
        match *self {
            Argument::Action => "action",
            Argument::Encode => "encode",
            Argument::Decode => "decode",
            Argument::KeyFile => "keyfile",
            Argument::Source => "source",
            Argument::Dest => "dest",
        }
    }

    pub fn description(&self) -> (r: &'static str)
        ensures
            r@ == spec_arg_description(*self),
    {
        match *self {
            Argument::Action => "Action to execute on the source file",
            Argument::KeyFile => "File containing a G4C key",
            Argument::Source => "File to encode or decoded",
            Argument::Dest => "Output file",
            Argument::Decode => "",
            Argument::Encode => "",
        }
    }
}

} // verus!
