//! The decisions of a chat session: judging the authentication reply, what
//! the outbound duty does with a typed line, and what the inbound duty does
//! with a received frame.
use vstd::prelude::*;
use vstd::utf8::encode_utf8;
use crate::frame::{encode_frame, encoded};
use crate::text::{lossy_text, text_of, trim_text, trimmed};
use crate::wrap::texts;

verus! {

/// The reply that accepts the credentials: `correct`.
pub open spec fn accept_reply() -> Seq<u8> {
    seq![99, 111, 114, 114, 101, 99, 116]
}

/// The frame body a peer sends when it leaves: `/exit`.
pub open spec fn exit_body() -> Seq<u8> {
    seq![47, 101, 120, 105, 116]
}

/// The command the user types to leave: `/exit`.
pub open spec fn exit_command() -> Seq<char> {
    seq!['/', 'e', 'x', 'i', 't']
}

fn same_bytes(a: &[u8], b: &[u8]) -> (r: bool)
    ensures
        r == (a@ == b@),
{
    if a.len() != b.len() {
        return false;
    }
    let mut i: usize = 0;
    while i < a.len()
        invariant
            a@.len() == b@.len(),
            i <= a@.len(),
            forall|k: int| 0 <= k < i ==> a@[k] == b@[k],
        decreases a@.len() - i,
    {
        if a[i] != b[i] {
            return false;
        }
        i = i + 1;
    }
    assert(a@ =~= b@);
    true
}

/// What the server's reply to a login attempt means.
pub enum AuthVerdict {
    /// The credentials were accepted: the chat begins.
    Accepted,
    /// Refused; the text to show the user before asking again.
    Rejected(String),
}

/// Judges the reply frame to a login attempt: exactly `correct` accepts,
/// anything else is shown to the user, trimmed, and the login is asked again.
pub fn judge_auth_response(reply: &[u8]) -> (r: AuthVerdict)
    ensures
        match r {
            AuthVerdict::Accepted => reply@ == accept_reply(),
            AuthVerdict::Rejected(f) => reply@ != accept_reply() && f@ == trimmed(lossy_text(reply@)),
        },
{
    let word: Vec<u8> = vec![99, 111, 114, 114, 101, 99, 116];
    if same_bytes(reply, word.as_slice()) {
        AuthVerdict::Accepted
    } else {
        let text = text_of(reply);
        AuthVerdict::Rejected(trim_text(text.as_str()))
    }
}

/// The frame that carries a login attempt: the typed line, trimmed.
pub fn login_frame(line: &str) -> (r: Vec<u8>)
    ensures
        r@ == encoded(encode_utf8(trimmed(line@))),
{
    let t = trim_text(line);
    encode_frame(t.as_str().as_bytes())
}

/// What the outbound duty does with a line the user typed.
pub enum Outbound {
    /// The user leaves: the duty ends and nothing is sent.
    Leave,
    /// These bytes go on the wire.
    Send(Vec<u8>),
}

/// Decides on an already trimmed line: `/exit` leaves, anything else is
/// sent as one frame.
pub fn outbound_decision(text: &str) -> (r: Outbound)
    ensures
        match r {
            Outbound::Leave => text@ == exit_command(),
            Outbound::Send(b) => text@ != exit_command() && b@ == encoded(encode_utf8(text@)),
        },
{
    let t = String::from_str(text);
    let exit = String::from_str("/exit");
    proof {
        reveal_strlit("/exit");
    }
    assert("/exit"@ =~= exit_command());
    if t == exit {
        Outbound::Leave
    } else {
        Outbound::Send(encode_frame(text.as_bytes()))
    }
}

/// Decides on a line as typed: it is trimmed first.
pub fn outbound_step(line: &str) -> (r: Outbound)
    ensures
        match r {
            Outbound::Leave => trimmed(line@) == exit_command(),
            Outbound::Send(b) => trimmed(line@) != exit_command() && b@ == encoded(
                encode_utf8(trimmed(line@)),
            ),
        },
{
    let t = trim_text(line);
    outbound_decision(t.as_str())
}

/// What the inbound duty does after a frame arrived.
pub enum Inbound {
    /// The peer left: the duty ends.
    Leave,
    /// An empty frame: nothing to show.
    Ignore,
    /// The frame became the newest record: redraw the history.
    Show,
}

/// The received messages, newest first.
pub struct Inbox {
    history: Vec<String>,
}

impl View for Inbox {
    type V = Seq<Seq<char>>;

    closed spec fn view(&self) -> Seq<Seq<char>> {
        texts(self.history@)
    }
}

impl Inbox {
    /// An empty history.
    pub fn new() -> (r: Inbox)
        ensures
            r@ == Seq::<Seq<char>>::empty(),
    {
        let r = Inbox { history: Vec::new() };
        assert(r@ =~= Seq::<Seq<char>>::empty());
        r
    }

    /// Takes in one frame: `/exit` ends the duty and an empty frame is
    /// skipped, both leaving the history as it was; any other frame goes to
    /// the front of the history as text.
    pub fn receive(&mut self, frame: &[u8]) -> (r: Inbound)
        ensures
            match r {
                Inbound::Leave => frame@ == exit_body() && final(self)@ == old(self)@,
                Inbound::Ignore => frame@.len() == 0 && final(self)@ == old(self)@,
                Inbound::Show => {
                    &&& frame@ != exit_body()
                    &&& frame@.len() > 0
                    &&& final(self)@ == seq![lossy_text(frame@)] + old(self)@
                },
            },
    {
        let word: Vec<u8> = vec![47, 101, 120, 105, 116];
        if same_bytes(frame, word.as_slice()) {
            return Inbound::Leave;
        }
        if frame.len() == 0 {
            return Inbound::Ignore;
        }
        let text = text_of(frame);
        let ghost before = self@;
        self.history.insert(0, text);
        assert(self@ =~= seq![lossy_text(frame@)] + before);
        Inbound::Show
    }

    /// A copy of the history, newest first, for drawing.
    pub fn records(&self) -> (r: Vec<String>)
        ensures
            texts(r@) == self@,
    {
        let mut r: Vec<String> = Vec::new();
        let mut i: usize = 0;
        while i < self.history.len()
            invariant
                i <= self.history@.len(),
                texts(r@) == texts(self.history@).take(i as int),
            decreases self.history@.len() - i,
        {
            let ghost prev = texts(r@);
            r.push(self.history[i].clone());
            assert(texts(r@) == prev.push(texts(self.history@)[i as int]));
            i = i + 1;
            assert(texts(r@) =~= texts(self.history@).take(i as int));
        }
        assert(texts(self.history@).take(i as int) =~= texts(self.history@));
        r
    }
}

} // verus!
