//! The wire-message conventions of the broadcast service.
//!
//! Every frame is UTF-8 text. A frame is either a relayed user message,
//! conventionally `"<name>: <body>"`, or a synthetic system notice,
//! `"-- <text> --"`, emitted by the server when a peer joins or leaves.
//! The protocol does not frame these structurally: consumers tell them
//! apart by the leading and trailing double hyphen, and split user
//! messages at the first `": "` separator. A display name that itself
//! contains `": "` is misparsed by this convention; that ambiguity is
//! part of the protocol and deliberately not resolved here.

use vstd::prelude::*;
use vstd::string::*;

verus! {

/// The join notice broadcast when a peer named `name` enters.
pub open spec fn join_notice_seq(name: Seq<char>) -> Seq<char> {
    "-- "@ + name + " is entering. --"@
}

/// The leave notice broadcast when a peer named `name` departs.
pub open spec fn exit_notice_seq(name: Seq<char>) -> Seq<char> {
    "-- "@ + name + " is exited. --"@
}

/// A user message as the sending client formats it.
pub open spec fn user_message_seq(name: Seq<char>, body: Seq<char>) -> Seq<char> {
    name + ": "@ + body
}

/// Builds the join notice for `name`.
pub fn join_notice(name: &str) -> (r: String)
    ensures
        r@ == join_notice_seq(name@),
{
    let mut s = String::from_str("-- ");
    s.append(name);
    s.append(" is entering. --");
    proof {
        assert(s@ =~= join_notice_seq(name@));
    }
    s
}

/// Builds the leave notice for `name`.
pub fn exit_notice(name: &str) -> (r: String)
    ensures
        r@ == exit_notice_seq(name@),
{
    let mut s = String::from_str("-- ");
    s.append(name);
    s.append(" is exited. --");
    proof {
        assert(s@ =~= exit_notice_seq(name@));
    }
    s
}

/// Formats a user message the way the sending client does, `"<name>: <body>"`.
pub fn format_user_message(name: &str, body: &str) -> (r: String)
    ensures
        r@ == user_message_seq(name@, body@),
{
    let mut s = String::from_str(name);
    s.append(": ");
    s.append(body);
    proof {
        assert(s@ =~= user_message_seq(name@, body@));
    }
    s
}

/// The consumer convention for telling frames apart: a system notice
/// begins and ends with a double hyphen.
pub open spec fn is_system_notice_seq(t: Seq<char>) -> bool {
    &&& t.len() >= 2
    &&& t[0] == '-'
    &&& t[1] == '-'
    &&& t[t.len() - 2] == '-'
    &&& t[t.len() - 1] == '-'
}

/// Whether `text` begins and ends with a double hyphen, the mark of a
/// synthetic join or leave notice.
pub fn is_system_notice(text: &str) -> (r: bool)
    ensures
        r == is_system_notice_seq(text@),
{
    let n = text.unicode_len();
    if n < 2 {
        return false;
    }
    text.get_char(0) == '-' && text.get_char(1) == '-' && text.get_char(n - 2) == '-'
        && text.get_char(n - 1) == '-'
}

/// A name-body separator `": "` stands at position `i` of `t`.
pub open spec fn sep_at(t: Seq<char>, i: int) -> bool {
    &&& 0 <= i
    &&& i + 2 <= t.len()
    &&& t[i] == ':'
    &&& t[i + 1] == ' '
}

/// `t` holds a `": "` separator somewhere.
pub open spec fn has_separator(t: Seq<char>) -> bool {
    exists|i: int| sep_at(t, i)
}

/// Splits a relayed user message at the first `": "` into the sender's
/// name and the body, exactly as a consuming client does. Returns `None`
/// if and only if the frame holds no separator at all.
pub fn split_user_message(text: &str) -> (r: Option<(String, String)>)
    ensures
        r is Some <==> has_separator(text@),
        match r {
            Some((name, body)) => exists|i: int|
                {
                    &&& #[trigger] sep_at(text@, i)
                    &&& forall|j: int| 0 <= j < i ==> !sep_at(text@, j)
                    &&& name@ == text@.subrange(0, i)
                    &&& body@ == text@.subrange(i + 2, text@.len() as int)
                },
            None => true,
        },
{
    let n = text.unicode_len();
    let mut i: usize = 0;
    while i + 1 < n
        invariant
            n == text@.len(),
            n == 0 ==> i == 0,
            n > 0 ==> i < n,
            forall|j: int| 0 <= j < i ==> !sep_at(text@, j),
        decreases n - i,
    {
        if text.get_char(i) == ':' && text.get_char(i + 1) == ' ' {
            let name = text.substring_char(0, i);
            let body = text.substring_char(i + 2, n);
            proof {
                assert(sep_at(text@, i as int));
            }
            return Some((String::from_str(name), String::from_str(body)));
        }
        i = i + 1;
    }
    proof {
        assert forall|j: int| !sep_at(text@, j) by {
            if 0 <= j && j + 2 <= text@.len() {
                assert(j < i);
            }
        }
    }
    None
}

/// What a consuming client makes of one inbound frame.
#[derive(Debug, PartialEq, Eq)]
pub enum FrameKind {
    /// A synthetic join or leave notice, shown under the system's name.
    Notice,
    /// A relayed user message, split into the sender's name and the body.
    User(String, String),
    /// Neither convention matches; the frame is ignored.
    Unrecognised,
}

/// Sorts one inbound frame the way a consuming client does: a frame in
/// double hyphens is a system notice; otherwise a frame with a `": "`
/// separator is a user message, split at the first separator; anything
/// else is ignored.
pub fn classify_frame(text: &str) -> (r: FrameKind)
    ensures
        match r {
            FrameKind::Notice => is_system_notice_seq(text@),
            FrameKind::User(name, body) => !is_system_notice_seq(text@) && exists|i: int|
                {
                    &&& #[trigger] sep_at(text@, i)
                    &&& forall|j: int| 0 <= j < i ==> !sep_at(text@, j)
                    &&& name@ == text@.subrange(0, i)
                    &&& body@ == text@.subrange(i + 2, text@.len() as int)
                },
            FrameKind::Unrecognised => !is_system_notice_seq(text@) && !has_separator(text@),
        },
{
    if is_system_notice(text) {
        return FrameKind::Notice;
    }
    match split_user_message(text) {
        Some((name, body)) => FrameKind::User(name, body),
        None => FrameKind::Unrecognised,
    }
}

/// Law: a user message formatted from a name that holds no `": "`
/// separator parses back to exactly that name and body: the first
/// separator of the framed message is the inserted one. A name that
/// itself contains `": "` is misparsed by the convention; the protocol
/// keeps that ambiguity deliberately, so such names are excluded here.
pub proof fn lemma_user_message_round_trip(name: Seq<char>, body: Seq<char>)
    requires
        forall|j: int| !sep_at(name, j),
    ensures
        sep_at(user_message_seq(name, body), name.len() as int),
        forall|j: int| 0 <= j < name.len() ==> !sep_at(user_message_seq(name, body), j),
        user_message_seq(name, body).subrange(0, name.len() as int) == name,
        user_message_seq(name, body).subrange(
            name.len() as int + 2,
            user_message_seq(name, body).len() as int,
        ) == body,
{
    reveal_strlit(": ");
    let t = user_message_seq(name, body);
    assert(": "@.len() == 2);
    assert(": "@[0] == ':' && ": "@[1] == ' ');
    assert(t.len() == name.len() + 2 + body.len());
    assert(t[name.len() as int] == ':');
    assert(t[name.len() as int + 1] == ' ');
    assert(sep_at(t, name.len() as int));
    assert forall|j: int| 0 <= j < name.len() implies !sep_at(t, j) by {
        assert(t[j] == name[j]);
        if j + 1 < name.len() {
            assert(t[j + 1] == name[j + 1]);
            assert(!sep_at(name, j));
        } else {
            assert(t[j + 1] == ':');
        }
    }
    assert(t.subrange(0, name.len() as int) =~= name);
    assert(t.subrange(name.len() as int + 2, t.len() as int) =~= body);
}

/// Law: every join and leave notice the server emits is recognised as a
/// system notice by the consumer convention, whatever the name.
pub proof fn lemma_notices_are_system(name: Seq<char>)
    ensures
        is_system_notice_seq(join_notice_seq(name)),
        is_system_notice_seq(exit_notice_seq(name)),
{
    reveal_strlit("-- ");
    reveal_strlit(" is entering. --");
    reveal_strlit(" is exited. --");
    let j = join_notice_seq(name);
    assert("-- "@.len() == 3 && "-- "@[0] == '-' && "-- "@[1] == '-');
    assert(" is entering. --"@.len() == 16);
    assert(" is entering. --"@[14] == '-' && " is entering. --"@[15] == '-');
    assert(j.len() == 19 + name.len());
    assert(j[0] == '-' && j[1] == '-');
    assert(j[j.len() - 2] == " is entering. --"@[14]);
    assert(j[j.len() - 1] == " is entering. --"@[15]);
    let e = exit_notice_seq(name);
    assert(" is exited. --"@.len() == 14);
    assert(" is exited. --"@[12] == '-' && " is exited. --"@[13] == '-');
    assert(e.len() == 17 + name.len());
    assert(e[0] == '-' && e[1] == '-');
    assert(e[e.len() - 2] == " is exited. --"@[12]);
    assert(e[e.len() - 1] == " is exited. --"@[13]);
}

} // verus!
