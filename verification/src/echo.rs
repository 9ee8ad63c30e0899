//! A pure model of the demonstration echo service.
//!
//! The end-to-end scenarios run against an echo server whose four methods all
//! carry a single `message` string. The response computations live here as
//! verified functions, so a test (or a server harness) can hold the observed
//! responses to exactly these values: the unary echo returns its input, the
//! server-streaming echo numbers three copies, the client-streaming echo
//! concatenates, and the bidirectional echo prefixes each message.

use vstd::prelude::*;
use vstd::string::*;

use crate::text::dec_digits;

verus! {

/// The concatenation of all entries.
pub open spec fn concat_views(ss: Seq<Seq<char>>) -> Seq<char>
    decreases ss.len(),
{
    if ss.len() == 0 {
        Seq::<char>::empty()
    } else {
        concat_views(ss.drop_last()) + ss.last()
    }
}

/// The echo service's response logic.
pub struct EchoServiceImpl;

impl EchoServiceImpl {
    /// The unary echo returns the request message unchanged.
    pub fn unary_echo(message: String) -> (r: String)
        ensures
            r == message,
    {
        message
    }

    /// The server-streaming echo sends three numbered copies, in order:
    /// `<message> - seq 0`, `<message> - seq 1`, `<message> - seq 2`.
    pub fn server_streaming_echo(message: &str) -> (r: Vec<String>)
        ensures
            r@.len() == 3,
            forall|i: int|
                0 <= i < 3 ==> (#[trigger] r@[i])@ == message@ + " - seq "@ + dec_digits(i as nat),
    {
        let mut out: Vec<String> = Vec::new();
        let mut i: u64 = 0;
        while i < 3
            invariant
                0 <= i <= 3,
                out@.len() == i,
                forall|j: int|
                    0 <= j < i ==> (#[trigger] out@[j])@ == message@ + " - seq "@ + dec_digits(
                        j as nat,
                    ),
            decreases 3 - i,
        {
            let mut line = String::from_str(message);
            line.append(" - seq ");
            line.append(crate::text::u64_to_string(i).as_str());
            out.push(line);
            i += 1;
        }
        out
    }

    /// The client-streaming echo answers once, with the concatenation of all
    /// request messages in order.
    pub fn client_streaming_echo(messages: &Vec<String>) -> (r: String)
        ensures
            r@ == concat_views(crate::descriptor::str_views(messages@)),
    {
        let n: usize = messages.len();
        let mut out = String::new();
        let mut i: usize = 0;
        while i < n
            invariant
                0 <= i <= n,
                n == messages@.len(),
                out@ == concat_views(crate::descriptor::str_views(messages@).take(i as int)),
            decreases n - i,
        {
            out.append(messages[i].as_str());
            proof {
                let vs = crate::descriptor::str_views(messages@);
                assert(vs.take(i + 1).drop_last() =~= vs.take(i as int));
                assert(vs.take(i + 1).last() == messages@[i as int]@);
            }
            i += 1;
        }
        proof {
            let vs = crate::descriptor::str_views(messages@);
            assert(vs.take(n as int) =~= vs);
        }
        out
    }

    /// The bidirectional echo answers each request message in order with
    /// `echo: <message>`.
    pub fn bidirectional_echo(messages: &Vec<String>) -> (r: Vec<String>)
        ensures
            r@.len() == messages@.len(),
            forall|i: int|
                0 <= i < r@.len() ==> (#[trigger] r@[i])@ == "echo: "@ + messages@[i]@,
    {
        let n: usize = messages.len();
        let mut out: Vec<String> = Vec::new();
        let mut i: usize = 0;
        while i < n
            invariant
                0 <= i <= n,
                n == messages@.len(),
                out@.len() == i,
                forall|j: int| 0 <= j < i ==> (#[trigger] out@[j])@ == "echo: "@ + messages@[j]@,
            decreases n - i,
        {
            let mut line = String::from_str("echo: ");
            line.append(messages[i].as_str());
            out.push(line);
            i += 1;
        }
        out
    }
}

} // verus!
