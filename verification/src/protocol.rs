//! The wire protocol between a connection and the coordinator: the login
//! frame, the replies to it and the close codes.

use vstd::prelude::*;
use vstd::string::{StrSliceExecFns, StringExecFns};
use crate::random::random_alphanumeric;
use crate::text::push_char;

verus! {

/// Close code sent to every connection when the game is won. The reason
/// text of the close is the name of the winner.
pub const CLOSE_GAME_WON: u16 = 4000;

/// Close code sent to a connection that broke the protocol or the rules of
/// the game.
pub const CLOSE_PROTOCOL_ERROR: u16 = 4002;

/// The reply to a login that is admitted.
pub const REPLY_OK: &'static str = "ok";

/// The reason text of a close for a protocol error.
pub const PROTOCOL_ERROR_REASON: &'static str = "protocol error";

/// The payload of the ping that probes the holder of a username.
pub const LIVENESS_PROBE: &'static str = "live-check";

/// The character that separates the two fields of a login frame.
pub const FIELD_SEPARATOR: char = '\n';

/// Whether `at` is the position of the one separator in `frame`.
pub open spec fn splits_at(frame: Seq<char>, at: int) -> bool {
    &&& 0 <= at < frame.len()
    &&& forall|i: int|
        0 <= i < frame.len() ==> (#[trigger] frame[i] == FIELD_SEPARATOR <==> i == at)
}

/// Whether `frame` is a login frame: two fields with one separator between
/// them.
pub open spec fn is_login(frame: Seq<char>) -> bool {
    exists|at: int| splits_at(frame, at)
}

/// Where the separator of a login frame stands.
pub open spec fn separator_of(frame: Seq<char>) -> int {
    choose|at: int| splits_at(frame, at)
}

/// The username of a login frame: what stands before the separator.
pub open spec fn login_username(frame: Seq<char>) -> Seq<char> {
    frame.take(separator_of(frame))
}

/// The join code of a login frame: what stands behind the separator.
pub open spec fn login_join_code(frame: Seq<char>) -> Seq<char> {
    frame.skip(separator_of(frame) + 1)
}

/// Whether `text` can be a field of a login frame: it holds no separator.
pub open spec fn is_field(text: Seq<char>) -> bool {
    forall|i: int| 0 <= i < text.len() ==> #[trigger] text[i] != FIELD_SEPARATOR
}

/// Write a login frame: the username, the separator and the join code.
pub fn login_frame(username: &str, join_code: &str) -> (frame: String)
    ensures
        frame@ == username@ + seq![FIELD_SEPARATOR] + join_code@,
{
    let mut frame = username.to_owned();
    push_char(&mut frame, FIELD_SEPARATOR);
    frame.append(join_code);
    frame
}

/// Read a login frame: a username and a join code, separated by one line
/// break. A frame with no line break, or with more than one, is malformed.
pub fn parse_login(frame: &str) -> (login: Option<(String, String)>)
    ensures
        login is Some <==> is_login(frame@),
        login matches Some((username, join_code)) ==> {
            &&& username@ == login_username(frame@)
            &&& join_code@ == login_join_code(frame@)
        },
{
    let chars = chars_of(frame);
    let mut found: Option<usize> = None;
    let mut i: usize = 0;
    while i < chars.len()
        invariant
            i <= chars@.len(),
            chars@ == frame@,
            match found {
                Some(at) => {
                    &&& at < i
                    &&& forall|j: int|
                        0 <= j < i ==> (#[trigger] chars@[j] == FIELD_SEPARATOR <==> j == at)
                },
                None => forall|j: int| 0 <= j < i ==> #[trigger] chars@[j] != FIELD_SEPARATOR,
            },
        decreases chars@.len() - i,
    {
        if chars[i] == FIELD_SEPARATOR {
            if found.is_some() {
                assert forall|at: int| !splits_at(frame@, at) by {
                    if splits_at(frame@, at) {
                        assert(frame@[i as int] == FIELD_SEPARATOR);
                        assert(frame@[found->0 as int] == FIELD_SEPARATOR);
                    }
                }
                return None;
            }
            found = Some(i);
        }
        i += 1;
    }
    match found {
        Some(at) => {
            assert(splits_at(frame@, at as int));
            proof {
                lemma_separator_is_unique(frame@, at as int);
            }
            let username = frame.substring_char(0, at);
            let join_code = frame.substring_char(at + 1, chars.len());
            Some((username.to_owned(), join_code.to_owned()))
        },
        None => {
            assert forall|at: int| !splits_at(frame@, at) by {
                if splits_at(frame@, at) {
                    assert(frame@[at] == FIELD_SEPARATOR);
                }
            }
            None
        },
    }
}

/// The characters of a text, one by one.
fn chars_of(text: &str) -> (chars: Vec<char>)
    ensures
        chars@ == text@,
{
    let mut chars: Vec<char> = Vec::new();
    let letters = text.chars();
    for letter in it: letters
        invariant
            chars@ == it.seq().take(it.index() as int),
            it.seq() == text@,
    {
        chars.push(letter);
    }
    chars
}

/// A frame has its one separator in one place only.
pub proof fn lemma_separator_is_unique(frame: Seq<char>, at: int)
    requires
        splits_at(frame, at),
    ensures
        is_login(frame),
        separator_of(frame) == at,
{
    let chosen = separator_of(frame);
    assert(frame[chosen] == FIELD_SEPARATOR);
}

/// What a login frame of fields without a separator reads as: the frame is
/// a login frame, and its fields are the fields it was made of.
pub proof fn lemma_login_round_trip(username: Seq<char>, join_code: Seq<char>)
    requires
        is_field(username),
        is_field(join_code),
    ensures
        is_login(username + seq![FIELD_SEPARATOR] + join_code),
        login_username(username + seq![FIELD_SEPARATOR] + join_code) == username,
        login_join_code(username + seq![FIELD_SEPARATOR] + join_code) == join_code,
{
    let frame = username + seq![FIELD_SEPARATOR] + join_code;
    let at = username.len() as int;
    assert forall|i: int| 0 <= i < frame.len() implies (#[trigger] frame[i] == FIELD_SEPARATOR
        <==> i == at) by {
        if i < at {
            assert(frame[i] == username[i]);
        } else if i > at {
            assert(frame[i] == join_code[i - at - 1]);
        }
    }
    lemma_separator_is_unique(frame, at);
    assert(frame.take(at) == username);
    assert(frame.skip(at + 1) == join_code);
}

/// Number of characters of a join code.
pub const JOIN_CODE_LENGTH: usize = 16;

/// Whether `letter` is an ASCII letter or digit.
pub open spec fn is_alphanumeric_char(letter: char) -> bool {
    ||| '0' <= letter <= '9'
    ||| 'A' <= letter <= 'Z'
    ||| 'a' <= letter <= 'z'
}

/// Draw a join code: `JOIN_CODE_LENGTH` ASCII letters and digits, each
/// picked by chance.
pub fn generate_join_code() -> (code: String)
    ensures
        code@.len() == JOIN_CODE_LENGTH,
        forall|i: int| 0 <= i < code@.len() ==> is_alphanumeric_char(#[trigger] code@[i]),
{
    let mut code = String::new();
    let mut drawn: usize = 0;
    while drawn < JOIN_CODE_LENGTH
        invariant
            drawn <= JOIN_CODE_LENGTH,
            code@.len() == drawn,
            forall|i: int| 0 <= i < code@.len() ==> is_alphanumeric_char(#[trigger] code@[i]),
        decreases JOIN_CODE_LENGTH - drawn,
    {
        let byte = random_alphanumeric();
        push_char(&mut code, byte as char);
        drawn += 1;
    }
    code
}

} // verus!
