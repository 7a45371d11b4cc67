//! A chat message as shown on screen: `[time]author:contents`.
use vstd::prelude::*;

verus! {

/// The on-screen line of a message.
pub open spec fn record_line(time: Seq<char>, author: Seq<char>, contents: Seq<char>) -> Seq<char> {
    seq!['['] + time + seq![']'] + author + seq![':'] + contents
}

#[derive(Clone)]
struct Timestamp {
    time: String,
}

impl Timestamp {
    /// The time in brackets.
    fn to_line(&self) -> (r: String)
        ensures
            r@ == seq!['['] + self.time@ + seq![']'],
    {
        let mut r = String::from_str("[");
        r.append(self.time.as_str());
        r.append("]");
        proof {
            reveal_strlit("[");
            reveal_strlit("]");
        }
        r
    }
}

#[derive(Clone)]
pub struct Message {
    timestamp: Timestamp,
    author: String,
    contents: String,
}

impl View for Message {
    /// Time, author and contents.
    type V = (Seq<char>, Seq<char>, Seq<char>);

    closed spec fn view(&self) -> (Seq<char>, Seq<char>, Seq<char>) {
        (self.timestamp.time@, self.author@, self.contents@)
    }
}

impl Message {
    pub fn from_strings(time: String, author: String, contents: String) -> (r: Message)
        ensures
            r@ == (time@, author@, contents@),
    {
        Message::from_raw(Timestamp { time }, author, contents)
    }

    fn from_raw(timestamp: Timestamp, author: String, contents: String) -> (r: Message)
        ensures
            r@ == (timestamp.time@, author@, contents@),
    {
        Message { timestamp, author, contents }
    }

    /// The message as one line of text: `[time]author:contents`.
    pub fn to_line(&self) -> (r: String)
        ensures
            r@ == record_line(self@.0, self@.1, self@.2),
    {
        let mut r = self.timestamp.to_line();
        r.append(self.author.as_str());
        r.append(":");
        r.append(self.contents.as_str());
        proof {
            reveal_strlit(":");
        }
        r
    }
}

} // verus!
