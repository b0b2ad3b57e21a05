use vstd::prelude::*;
use crate::params::Params;
use crate::text::chars_of;

verus! {

/// How many empty reads in a row a connection waits through before it closes.
pub const IDLE_READS: u8 = 5;

/// What a read from the peer gave.
#[derive(PartialEq, Eq, Structural, Clone, Copy, Debug)]
pub enum ReadEvent {
    /// The read failed, or the peer closed.
    Failed,
    /// The read timed out with no bytes.
    Empty,
    /// Some bytes arrived.
    Data,
}

/// What the connection loop does next.
#[derive(PartialEq, Eq, Structural, Clone, Copy, Debug)]
pub enum ConnAction {
    /// Stop serving this connection.
    Close,
    /// Read again.
    Wait,
    /// Parse and answer what arrived, then read again.
    Handle,
}

/// The state that a connection keeps between reads.
#[derive(PartialEq, Eq, Structural, Clone, Copy, Debug)]
pub struct Connection {
    /// Empty reads that may still come before the connection closes.
    pub idle_left: u8,
}

impl Connection {
    /// A fresh connection, with its whole idle budget.
    pub fn new() -> (r: Connection)
        ensures
            r.idle_left == IDLE_READS,
    {
        Connection { idle_left: IDLE_READS }
    }

    /// Decides what follows a read. A failed read closes. Bytes are handled
    /// and renew the idle budget. An empty read spends one unit of the
    /// budget, and closes once none is left.
    pub fn step(&mut self, event: ReadEvent) -> (r: ConnAction)
        ensures
            event == ReadEvent::Failed ==> r == ConnAction::Close && *final(self) == *old(self),
            event == ReadEvent::Data ==> r == ConnAction::Handle && final(self).idle_left
                == IDLE_READS,
            event == ReadEvent::Empty && old(self).idle_left > 0 ==> r == ConnAction::Wait
                && final(self).idle_left == old(self).idle_left - 1,
            event == ReadEvent::Empty && old(self).idle_left == 0 ==> r == ConnAction::Close
                && *final(self) == *old(self),
    {
        match event {
            ReadEvent::Failed => ConnAction::Close,
            ReadEvent::Data => {
                self.idle_left = IDLE_READS;
                ConnAction::Handle
            },
            ReadEvent::Empty => {
                if self.idle_left > 0 {
                    self.idle_left = self.idle_left - 1;
                    ConnAction::Wait
                } else {
                    ConnAction::Close
                }
            },
        }
    }
}

/// Where reading a request's body stands.
#[derive(PartialEq, Eq, Structural, Clone, Copy, Debug)]
pub enum BodyState {
    /// The header has not been read yet.
    AwaitingHeaders,
    /// This many body bytes are still to come.
    ReadingBody(usize),
    /// The whole body is there.
    Complete,
}

/// Where body reading stands once the header is read, given the declared
/// length and how many body bytes came with the header.
pub fn body_after_headers(declared: Option<usize>, have: usize) -> (r: BodyState)
    ensures
        declared is None ==> r == BodyState::Complete,
        declared matches Some(n) ==> (have >= n ==> r == BodyState::Complete),
        declared matches Some(n) ==> (have < n ==> r == BodyState::ReadingBody(
            (n - have) as usize,
        )),
{
    match declared {
        None => BodyState::Complete,
        Some(n) => {
            if have >= n {
                BodyState::Complete
            } else {
                BodyState::ReadingBody(n - have)
            }
        },
    }
}

/// Where body reading stands after `n` more bytes arrived.
pub fn on_body_bytes(state: BodyState, n: usize) -> (r: BodyState)
    ensures
        state matches BodyState::ReadingBody(rem) ==> (n >= rem ==> r == BodyState::Complete),
        state matches BodyState::ReadingBody(rem) ==> (n < rem ==> r == BodyState::ReadingBody(
            (rem - n) as usize,
        )),
        !(state is ReadingBody) ==> r == state,
{
    match state {
        BodyState::ReadingBody(rem) => {
            if n >= rem {
                BodyState::Complete
            } else {
                BodyState::ReadingBody(rem - n)
            }
        },
        _ => state,
    }
}

/// Whether a character is an ASCII decimal digit.
pub open spec fn is_digit(c: char) -> bool {
    '0' <= c <= '9'
}

/// The number that a string of decimal digits spells.
pub open spec fn decimal_value(s: Seq<char>) -> nat
    decreases s.len(),
{
    if s.len() == 0 {
        0
    } else {
        decimal_value(s.drop_last()) * 10 + (s.last() as nat - '0' as nat) as nat
    }
}

proof fn lemma_decimal_prefix_grows(s: Seq<char>, k: int)
    requires
        0 <= k <= s.len(),
        forall|i: int| 0 <= i < s.len() ==> is_digit(#[trigger] s[i]),
    ensures
        decimal_value(s.take(k)) <= decimal_value(s),
    decreases s.len() - k,
{
    if k < s.len() {
        lemma_decimal_prefix_grows(s, k + 1);
        assert(s.take(k + 1).drop_last() =~= s.take(k));
    } else {
        assert(s.take(k) =~= s);
    }
}

/// The number a text of decimal digits spells: `None` where it is empty,
/// holds anything but digits, or does not fit a `usize`.
pub fn parse_decimal(s: &str) -> (r: Option<usize>)
    ensures
        r is Some <==> (s@.len() > 0 && (forall|i: int| 0 <= i < s@.len() ==> is_digit(
            #[trigger] s@[i],
        )) && decimal_value(s@) <= usize::MAX),
        r matches Some(v) ==> v == decimal_value(s@),
{
    let cs = chars_of(s);
    if cs.len() == 0 {
        return None;
    }
    let mut acc: usize = 0;
    let mut i: usize = 0;
    assert(cs@.take(0) =~= Seq::<char>::empty());
    while i < cs.len()
        invariant
            i <= cs.len(),
            cs@ == s@,
            acc == decimal_value(cs@.take(i as int)),
            forall|j: int| 0 <= j < i ==> is_digit(#[trigger] cs@[j]),
        decreases cs.len() - i,
    {
        let c = cs[i];
        if !('0' <= c && c <= '9') {
            return None;
        }
        let d = (c as u32 - '0' as u32) as usize;
        assert(cs@.take(i + 1).drop_last() =~= cs@.take(i as int));
        if acc > (usize::MAX - d) / 10 {
            proof {
                assert(decimal_value(cs@.take(i + 1)) == acc * 10 + d);
                assert(acc * 10 + d > usize::MAX) by (nonlinear_arith)
                    requires
                        acc > (usize::MAX - d) / 10,
                        d <= 9,
                ;
                if forall|j: int| 0 <= j < cs@.len() ==> is_digit(#[trigger] cs@[j]) {
                    lemma_decimal_prefix_grows(cs@, i + 1);
                }
            }
            return None;
        }
        assert(acc * 10 + d <= usize::MAX) by (nonlinear_arith)
            requires
                acc <= (usize::MAX - d) / 10,
                d <= 9,
        ;
        acc = acc * 10 + d;
        i = i + 1;
    }
    assert(cs@.take(i as int) =~= cs@);
    Some(acc)
}

/// The body length that a request's headers declare: its `Content-Length`,
/// where that header is there and spells a number.
pub fn content_length(header: &Params) -> (r: Option<usize>)
    ensures
        !header@.contains_key("Content-Length"@) ==> r is None,
        header@.contains_key("Content-Length"@) ==> {
            let v = header@["Content-Length"@];
            &&& r is Some <==> (v.len() > 0 && (forall|i: int|
                0 <= i < v.len() ==> is_digit(#[trigger] v[i])) && decimal_value(v) <= usize::MAX)
            &&& r matches Some(n) ==> n == decimal_value(v)
        },
{
    proof {
        reveal_strlit("Content-Length");
    }
    match header.get("Content-Length") {
        Some(v) => parse_decimal(v.as_str()),
        None => None,
    }
}

/// Whether the four bytes from `i` on end a header: `\r\n\r\n`.
pub open spec fn blank_line_at(b: Seq<u8>, i: int) -> bool {
    0 <= i && i + 4 <= b.len() && b[i] == 13 && b[i + 1] == 10 && b[i + 2] == 13 && b[i + 3] == 10
}

/// Where the body starts in what was read: just after the first
/// `\r\n\r\n`, if there is one.
pub fn body_offset(bytes: &[u8]) -> (r: Option<usize>)
    ensures
        r matches Some(k) ==> k >= 4 && blank_line_at(bytes@, k - 4) && forall|j: int|
            0 <= j < k - 4 ==> !blank_line_at(bytes@, j),
        r is None ==> forall|j: int| 0 <= j < bytes@.len() ==> !blank_line_at(bytes@, j),
{
    let n = bytes.len();
    let mut i: usize = 0;
    while i < n && n - i >= 4
        invariant
            i <= n,
            n == bytes@.len(),
            forall|j: int| 0 <= j < i ==> !blank_line_at(bytes@, j),
        decreases n - i,
    {
        if bytes[i] == 13 && bytes[i + 1] == 10 && bytes[i + 2] == 13 && bytes[i + 3] == 10 {
            return Some(i + 4);
        }
        i = i + 1;
    }
    None
}

} // verus!
