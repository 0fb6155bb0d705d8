//! What the runtime says of itself.

use vstd::prelude::*;

verus! {

/// The report of a runtime that is connected to an isolation backend.
pub open spec fn mediated_report(ipv6_egress: bool) -> Seq<char> {
    "Policy DNS connected to isolation boundary (IPv6 egress "@ + (if ipv6_egress {
        "enabled"@
    } else {
        "disabled"@
    }) + ")"@
}

/// Say that the runtime is connected to an isolation backend.
pub fn mediated_ready_message(ipv6_egress: bool) -> (message: String)
    ensures
        message@ == mediated_report(ipv6_egress),
{
    let mut message = "Policy DNS connected to isolation boundary (IPv6 egress ".to_owned();
    message.append(
        if ipv6_egress {
            "enabled"
        } else {
            "disabled"
        },
    );
    message.append(")");
    message
}

/// Say that the runtime listens on a socket address.
pub fn listening_message(address: &str) -> (message: String)
    ensures
        message@ == "Policy DNS listening on "@ + address@,
{
    let mut message = "Policy DNS listening on ".to_owned();
    message.append(address);
    message
}

/// Say to an isolation backend why its query has no answer.
pub fn response_failure_message(error: &str) -> (message: String)
    ensures
        message@ == "policy DNS response failed: "@ + error@,
{
    let mut message = "policy DNS response failed: ".to_owned();
    message.append(error);
    message
}

/// What an isolation backend gets back for a query: the answer as it is, or why there is none.
pub fn mediated_response(answer: Result<Vec<u8>, String>) -> (response: Result<Vec<u8>, String>)
    ensures
        match answer {
            Ok(message) => response == Ok::<Vec<u8>, String>(message),
            Err(error) => response matches Err(text) && text@ == "policy DNS response failed: "@
                + error@,
        },
{
    match answer {
        Ok(message) => Ok(message),
        Err(error) => Err(response_failure_message(error.as_str())),
    }
}

/// The reports for IPv6 answers and for none differ in one word alone.
pub proof fn law_report_tells_of_ipv6_egress(ipv6_egress: bool)
    ensures
        mediated_report(ipv6_egress) == "Policy DNS connected to isolation boundary (IPv6 egress "@
            + (if ipv6_egress {
            seq!['e', 'n', 'a', 'b', 'l', 'e', 'd']
        } else {
            seq!['d', 'i', 's', 'a', 'b', 'l', 'e', 'd']
        }) + seq![')'],
{
    reveal_strlit("enabled");
    reveal_strlit("disabled");
    reveal_strlit(")");
    assert("enabled"@ == seq!['e', 'n', 'a', 'b', 'l', 'e', 'd']);
    assert("disabled"@ == seq!['d', 'i', 's', 'a', 'b', 'l', 'e', 'd']);
    assert(")"@ == seq![')']);
}

/// An isolation backend gets every answer byte for byte, and for every failure the words of the
/// failure behind the same few others.
pub proof fn law_backend_gets_the_answer(
    answer: Result<Vec<u8>, String>,
    response: Result<Vec<u8>, String>,
)
    requires
        call_ensures(mediated_response, (answer,), response),
    ensures
        response is Ok <==> answer is Ok,
        answer is Ok ==> response->Ok_0@ == answer->Ok_0@,
        answer is Err ==> {
            &&& response->Err_0@.len() == 28 + answer->Err_0@.len()
            &&& response->Err_0@.take(28) == "policy DNS response failed: "@
            &&& response->Err_0@.skip(28) == answer->Err_0@
        },
{
    reveal_strlit("policy DNS response failed: ");
    if let Err(error) = answer {
        let text = response->Err_0@;
        assert(text.skip(28) == error@);
        assert(text.take(28) == "policy DNS response failed: "@);
    }
}

/// What a runtime says of the address that it listens on ends with that address.
pub proof fn law_listening_message_ends_with_the_address(address: &str, message: String)
    requires
        call_ensures(listening_message, (address,), message),
    ensures
        message@.len() == 24 + address@.len(),
        message@.skip(24) == address@,
        message@.take(24) == "Policy DNS listening on "@,
{
    reveal_strlit("Policy DNS listening on ");
    assert(message@.skip(24) == address@);
    assert(message@.take(24) == "Policy DNS listening on "@);
}

}
