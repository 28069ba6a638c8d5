//! Rendering of the protocols' literal lines — every rendered line is
//! pinned down exactly, character for character, by a spec function —
//! and character-exact string comparison.

use vstd::prelude::*;
use vstd::string::{StrSliceExecFns, StringExecFns};

verus! {

/// Character-for-character string equality.
pub fn str_eq(a: &str, b: &str) -> (r: bool)
    ensures
        r == (a@ == b@),
{
    let la = a.unicode_len();
    let lb = b.unicode_len();
    if la != lb {
        return false;
    }
    for i in 0..la
        invariant
            la == a@.len(),
            la == b@.len(),
            forall|j: int| 0 <= j < i ==> a@[j] == b@[j],
    {
        if a.get_char(i) != b.get_char(i) {
            return false;
        }
    }
    proof {
        assert(a@ =~= b@);
    }
    true
}

/// The greeting sent to a client as soon as it connects.
pub open spec fn prompt_text() -> Seq<char> {
    "What is your name?\n"@
}

/// The reply sent to a client whose chosen name is unacceptable.
pub open spec fn invalid_text() -> Seq<char> {
    "Invalid name!\n"@
}

/// The notice broadcast to prior members when `name` joins.
pub open spec fn joined_text(name: Seq<char>) -> Seq<char> {
    "* "@ + name + " joined!\n"@
}

/// The notice broadcast to remaining members when `name` leaves.
pub open spec fn left_text(name: Seq<char>) -> Seq<char> {
    "* "@ + name + " left!\n"@
}

/// The chat line delivered to everyone but the sender.
pub open spec fn chat_text(name: Seq<char>, message: Seq<char>) -> Seq<char> {
    "["@ + name + "] "@ + message + "\n"@
}

/// The names already in the room, comma-space separated, in join order.
pub open spec fn comma_joined(names: Seq<Seq<char>>) -> Seq<char>
    decreases names.len(),
{
    if names.len() == 0 {
        Seq::empty()
    } else if names.len() == 1 {
        names[0]
    } else {
        comma_joined(names.drop_last()) + ", "@ + names.last()
    }
}

/// The roster sent to a member right after it joins: the names that were
/// present before it, in join order.
pub open spec fn roster_text(names: Seq<Seq<char>>) -> Seq<char> {
    "* Already here: "@ + comma_joined(names) + "\n"@
}

/// Renders the connect-time greeting.
pub fn prompt_line() -> (r: String)
    ensures
        r@ == prompt_text(),
{
    String::from_str("What is your name?\n")
}

/// Renders the rejection reply for an unacceptable name.
pub fn invalid_line() -> (r: String)
    ensures
        r@ == invalid_text(),
{
    String::from_str("Invalid name!\n")
}

/// Renders the join notice for `name`.
pub fn joined_line(name: &str) -> (r: String)
    ensures
        r@ == joined_text(name@),
{
    let mut s = String::from_str("* ");
    s.append(name);
    s.append(" joined!\n");
    s
}

/// Renders the leave notice for `name`.
pub fn left_line(name: &str) -> (r: String)
    ensures
        r@ == left_text(name@),
{
    let mut s = String::from_str("* ");
    s.append(name);
    s.append(" left!\n");
    s
}

/// Renders the chat line `message` as sent by `name`.
pub fn chat_line(name: &str, message: &str) -> (r: String)
    ensures
        r@ == chat_text(name@, message@),
{
    let mut s = String::from_str("[");
    s.append(name);
    s.append("] ");
    s.append(message);
    s.append("\n");
    s
}

/// Renders the roster line listing `names` in order.
pub fn roster_line(names: &Vec<String>) -> (r: String)
    ensures
        r@ == roster_text(names.deep_view()),
{
    let mut s = String::from_str("* Already here: ");
    let ghost all = names.deep_view();
    for i in 0..names.len()
        invariant
            all == names.deep_view(),
            all.len() == names.len(),
            s@ == "* Already here: "@ + comma_joined(all.subrange(0, i as int)),
    {
        if i > 0 {
            s.append(", ");
        }
        s.append(names[i].as_str());
        proof {
            let pre = all.subrange(0, i as int);
            let post = all.subrange(0, i + 1 as int);
            assert(post.drop_last() =~= pre);
            assert(post.last() == all[i as int]);
            if i == 0 {
                assert(comma_joined(post) == all[0]);
                assert(s@ =~= "* Already here: "@ + comma_joined(post));
            } else {
                assert(comma_joined(post) == comma_joined(pre) + ", "@ + all[i as int]);
                assert(s@ =~= "* Already here: "@ + comma_joined(post));
            }
        }
    }
    proof {
        assert(names.deep_view().subrange(0, names.len() as int) =~= names.deep_view());
    }
    s.append("\n");
    s
}

} // verus!
