//! Turning a failure into a sentence that the user can act on.

use vstd::prelude::*;

use crate::json;
use crate::json::str_at;
use crate::text;
use crate::text::{cat2, cat3, cat4, chars_of, find, strip_prefix, text_of, trim, truncate_chars};

verus! {

/// What stands before and after the first colon; all of it and nothing where
/// there is none.
pub open spec fn split_at_colon(s: Seq<char>) -> (Seq<char>, Seq<char>) {
    match text::found(s, ":"@) {
        Some(i) => (s.take(i), s.skip(i + 1)),
        None => (s, seq![]),
    }
}

fn at_colon(s: &str) -> (r: (String, String))
    ensures
        r.0@ == split_at_colon(s@).0,
        r.1@ == split_at_colon(s@).1,
{
    proof {
        reveal_strlit(":");
        text::lemma_found(s@, ":"@);
    }
    match find(s, ":") {
        Some(i) => {
            let cs: Vec<char> = chars_of(s);
            let n: usize = cs.len();
            proof {
                assert(text::occurs_at(s@, ":"@, i as int));
                assert(cs@.subrange(0, i as int) =~= s@.take(i as int));
                assert(cs@.subrange(i + 1, cs@.len() as int) =~= s@.skip(i + 1));
            }
            (text_of(&cs, 0, i), text_of(&cs, i + 1, n))
        },
        None => {
            let empty: String = String::new();
            proof {
                assert(empty@ =~= seq![]);
            }
            (s.to_owned(), empty)
        },
    }
}

/// The message in a provider's error body, where it carries one.
pub open spec fn provider_message(body: Seq<char>) -> Option<Seq<char>> {
    match json::json_str_at(body, "/error/message"@) {
        Some(m) => Some(m),
        None => json::json_str_at(body, "/message"@),
    }
}

/// The sentence for a status line and the message that came with it.
pub open spec fn status_sentence(code: Seq<char>, message: Option<Seq<char>>) -> Seq<char> {
    match message {
        Some(m) => "the model provider answered HTTP "@ + code + ": "@ + text::clipped(m, 160),
        None => "the model provider answered HTTP "@ + code,
    }
}

/// The cause of a model-side error, in words.
pub open spec fn explained(detail: Seq<char>) -> Seq<char> {
    let d = match text::stripped(detail, "transport: "@) {
        Some(rest) => rest,
        None => detail,
    };
    match text::stripped(d, "malformed: "@) {
        Some(rest) => "the model's answer was unusable ("@ + text::clipped(rest, 120) + ")"@,
        None => match text::stripped(d, "status "@) {
            Some(rest) => {
                let parts = split_at_colon(rest);
                status_sentence(text::trimmed(parts.0), provider_message(text::trimmed(parts.1)))
            },
            None => "couldn't reach the model provider ("@ + text::clipped(d, 120) + ")"@,
        },
    }
}

pub fn describe_status(code: &str, message: Option<&str>) -> (r: String)
    ensures
        r@ == status_sentence(code@, message.deep_view()),
{
    match message {
        Some(m) => {
            let short: String = truncate_chars(m, 160);
            cat4("the model provider answered HTTP ", code, ": ", short.as_str())
        },
        None => cat2("the model provider answered HTTP ", code),
    }
}

/// Turn a model-side error into a short cause. A provider's own message is
/// quoted where the body carries one.
pub fn explain_error(detail: &str) -> (r: String)
    ensures
        r@ == explained(detail@),
{
    let d: String = match strip_prefix(detail, "transport: ") {
        Some(rest) => rest,
        None => detail.to_owned(),
    };
    if let Some(rest) = strip_prefix(d.as_str(), "malformed: ") {
        let short: String = truncate_chars(rest.as_str(), 120);
        return cat3("the model's answer was unusable (", short.as_str(), ")");
    }
    if let Some(rest) = strip_prefix(d.as_str(), "status ") {
        let (code, body) = at_colon(rest.as_str());
        let code: String = trim(code.as_str());
        let body: String = trim(body.as_str());
        let message: Option<String> = match str_at(body.as_str(), "/error/message") {
            Some(m) => Some(m),
            None => str_at(body.as_str(), "/message"),
        };
        return match message {
            Some(m) => describe_status(code.as_str(), Some(m.as_str())),
            None => describe_status(code.as_str(), None),
        };
    }
    let short: String = truncate_chars(d.as_str(), 120);
    cat3("couldn't reach the model provider (", short.as_str(), ")")
}

} // verus!
