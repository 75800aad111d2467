use vstd::prelude::*;

verus! {

#[derive(Debug)]
pub enum UtilsError {
    /// An external command failed; the text is what it wrote to its error stream.
    CommandError(String),
}

/// The text `String::from_utf8_lossy` makes of `bytes`.
pub uninterp spec fn utf8_lossy(bytes: Seq<u8>) -> Seq<char>;

/// `bytes` read as UTF-8, invalid sequences replaced by U+FFFD.
/// Calls `String::from_utf8_lossy`. The contract names its result and states only what its
/// documentation gives for ASCII input, where every byte is the character of that code.
#[verifier::external_body]
fn lossy_text(bytes: &[u8]) -> (s: String)
    ensures
        s@ == utf8_lossy(bytes@),
        (forall|i: int| 0 <= i < bytes@.len() ==> #[trigger] bytes@[i] < 128) ==> s@ == bytes@.map(
            |i: int, b: u8| b as char,
        ),
{
    String::from_utf8_lossy(bytes).to_string()
}

/// Whether an external command succeeded: it did when it exited with status 0; otherwise
/// the error carries its error output as text.
pub fn check_command_result(status_code: Option<i32>, stderr: &[u8]) -> (r: Result<(), UtilsError>)
    ensures
        r is Ok <==> status_code == Some(0i32),
        r matches Err(UtilsError::CommandError(text)) ==> text@ == utf8_lossy(stderr@),
{
    match status_code {
        Some(0) => Ok(()),
        _ => Err(UtilsError::CommandError(lossy_text(stderr))),
    }
}

} // verus!
