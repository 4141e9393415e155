//! The command line's one argument: the input path, which must exist.
use vstd::prelude::*;

verus! {

/// The parsed command line.
pub struct Cli {
    /// Path of the FASTQ file, plain or compressed.
    pub input: String,
}

/// The message for a path that does not exist.
pub open spec fn missing_message(s: Seq<char>) -> Seq<char> {
    seq!['F', 'i', 'l', 'e', ' ', 'd', 'o', 'e', 's', ' ', 'n', 'o', 't', ' ', 'e', 'x', 'i', 's', 't', ':', ' '] + s
}

/// Relies on `std::path::Path::exists`; what it answers depends on the
/// file system at the time of the call.
#[verifier::external_body]
fn path_exists(s: &str) -> (r: bool) {
    std::path::Path::new(s).exists()
}

/// The verdict on `s` given whether it exists: the path itself, or the
/// message that it does not exist.
pub fn input_verdict(s: &str, exists: bool) -> (r: Result<String, String>)
    ensures
        exists ==> (r matches Ok(p) && p@ == s@),
        !exists ==> (r matches Err(m) && m@ == missing_message(s@)),
{
    if exists {
        Ok(s.to_owned())
    } else {
        proof {
            reveal_strlit("File does not exist: ");
        }
        let m = "File does not exist: ".to_owned().concat(s);
        assert(m@ =~= missing_message(s@));
        Err(m)
    }
}

/// Checks that the input path exists on disk.
pub fn check_input_exists(s: &str) -> (r: Result<String, String>)
    ensures
        r matches Ok(p) ==> p@ == s@,
        r matches Err(m) ==> m@ == missing_message(s@),
{
    let exists = path_exists(s);
    input_verdict(s, exists)
}

} // verus!
