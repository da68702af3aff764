//! Recognition of spoken commands.
use vstd::prelude::*;
use vstd::string::*;

verus! {

/// Turns the text of a spoken command into a toolchain command.
pub struct VoiceCommandParser {}

impl VoiceCommandParser {
    /// A command parser.
    pub fn new() -> (p: VoiceCommandParser) {
        VoiceCommandParser {}
    }

    /// The command `build` for the text `build`, and nothing for any other text.
    pub fn parse(&self, command: &str) -> (r: Option<String>)
        ensures
            r is Some <==> command@ == "build"@,
            r matches Some(c) ==> c@ == "build"@,
    {
        let text = String::from_str(command);
        let build = String::from_str("build");
        if text.eq(&build) {
            Some(build)
        } else {
            None
        }
    }
}

} // verus!
