//! The loopback callback of a sign-in: what the request asks for, and what
//! is answered.

use crate::ids::{decimal, push_decimal};
use crate::scan::{lines_of, second_word, split_lines, word_after_first};
use vstd::prelude::*;
use vstd::string::*;

verus! {

/// A callback request that cannot be read.
#[derive(Clone, Copy, Debug, PartialEq, Eq, Structural)]
pub enum CallbackError {
    /// The first line of the request names no target.
    InvalidRequest,
}

impl CallbackError {
    pub fn message(self) -> (r: &'static str)
        ensures
            r@ == "Invalid callback request."@,
    {
        "Invalid callback request."
    }
}

/// The first line of a request; empty where the request is.
pub open spec fn request_line(request: Seq<char>) -> Seq<char> {
    if lines_of(request).len() > 0 {
        lines_of(request)[0]
    } else {
        Seq::empty()
    }
}

/// The target that a request asks for: the second word of its first line.
pub open spec fn callback_target(request: Seq<char>) -> Option<Seq<char>> {
    second_word(request_line(request))
}

/// The address under which a target was asked for on the loopback
/// interface.
pub open spec fn callback_address(port: u16, target: Seq<char>) -> Seq<char> {
    "http://127.0.0.1:"@ + decimal(port as nat) + target
}

/// The address that a callback request was sent to; an error where the
/// first line of the request has fewer than two words.
pub fn callback_url(request: &str, port: u16) -> (r: Result<String, CallbackError>)
    ensures
        match r {
            Ok(url) => callback_target(request@) matches Some(target) && url@ == callback_address(
                port,
                target,
            ),
            Err(_) => callback_target(request@) is None,
        },
{
    let lines = split_lines(request);
    let target = if lines.len() > 0 {
        word_after_first(lines[0].as_str())
    } else {
        word_after_first("")
    };
    proof {
        reveal_strlit("");
        assert(""@ =~= Seq::<char>::empty());
    }
    match target {
        Some(target) => {
            let mut url = "http://127.0.0.1:".to_owned();
            push_decimal(&mut url, port as u128);
            url.append(target.as_str());
            Ok(url)
        },
        None => Err(CallbackError::InvalidRequest),
    }
}

/// How many seconds the callback is waited for: two minutes unless said
/// otherwise.
pub fn callback_timeout_secs(timeout_secs: Option<u64>) -> (r: u64)
    ensures
        r == match timeout_secs {
            Some(secs) => secs,
            None => 120,
        },
{
    match timeout_secs {
        Some(secs) => secs,
        None => 120,
    }
}

} // verus!
