use vstd::prelude::*;

use crate::args::views;

verus! {

#[verifier::external_type_specification]
#[verifier::external_body]
pub struct ExJsonError(serde_json::Error);

/// The JSON array text that serde_json writes for a list of strings.
pub uninterp spec fn json_text(args: Seq<Seq<char>>) -> Seq<char>;

/// Relies on serde_json::to_string: on a list of strings it writes a JSON array whose
/// text depends on the strings alone. It writes into a `Vec<u8>`, which cannot fail,
/// and strings raise no serialization error, so the call always succeeds.
#[verifier::external_body]
fn json_of_strings(args: &Vec<String>) -> (r: Result<String, serde_json::Error>)
    ensures
        r is Ok,
        r matches Ok(t) ==> t@ == json_text(views(args@)),
{
    serde_json::to_string(args)
}

/// Relies on serde_json::from_str: the JSON array text that to_string writes for a
/// list of strings reads back as exactly those strings.
#[verifier::external_body]
fn strings_of_json(s: &str) -> (r: Result<Vec<String>, serde_json::Error>)
    ensures
        r is Ok || !exists|v: Seq<Seq<char>>| s@ == json_text(v),
        r matches Ok(x) ==> forall|v: Seq<Seq<char>>| s@ == json_text(v) ==> views(x@) == v,
{
    serde_json::from_str(s)
}

/// The argument payload could not be read back.
#[derive(Debug, PartialEq, Eq, Structural)]
pub enum ChannelError {
    Decode,
}

/// Packs the analyzer's arguments into one string that survives a trip through the
/// process environment.
pub fn encode_args(args: &Vec<String>) -> (r: String)
    ensures
        r@ == json_text(views(args@)),
{
    match json_of_strings(args) {
        Ok(t) => t,
        Err(_) => {
            proof {
                assert(false);
            }
            String::new()
        },
    }
}

/// Unpacks the analyzer's arguments. Whatever `encode_args` produced decodes to the
/// very list it was given, the empty list and strings with control characters
/// included; text that is not such a list is refused as a whole.
pub fn decode_args(s: &str) -> (r: Result<Vec<String>, ChannelError>)
    ensures
        forall|v: Seq<Seq<char>>| s@ == json_text(v) ==> (r matches Ok(x) && views(x@) == v),
        r matches Err(e) ==> e == ChannelError::Decode,
{
    match strings_of_json(s) {
        Ok(x) => Ok(x),
        Err(_) => Err(ChannelError::Decode),
    }
}

} // verus!
