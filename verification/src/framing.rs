//! The framing of messages on the wire: one message per line, each line
//! ended by a line feed. A message that holds a line feed cannot be sent,
//! and a line that does not end in one is not a message.

use vstd::prelude::*;

verus! {

/// The byte that ends a line.
pub const LINE_FEED: u8 = 10;

/// The line that carries `payload`.
pub open spec fn framed(payload: Seq<u8>) -> Seq<u8> {
    payload.push(LINE_FEED)
}

/// Whether `line` is one complete line: it ends in a line feed and holds no
/// other.
pub open spec fn is_framed(line: Seq<u8>) -> bool {
    &&& line.len() > 0
    &&& line.last() == LINE_FEED
    &&& !line.drop_last().contains(LINE_FEED)
}

/// Whether `bytes` holds a line feed.
pub fn holds_line_feed(bytes: &Vec<u8>) -> (found: bool)
    ensures
        found == bytes@.contains(LINE_FEED),
{
    let mut i: usize = 0;
    while i < bytes.len()
        invariant
            i <= bytes.len(),
            forall|j: int| 0 <= j < i ==> bytes@[j] != LINE_FEED,
        decreases bytes.len() - i,
    {
        if bytes[i] == LINE_FEED {
            return true;
        }
        i += 1;
    }
    false
}

/// Puts a message on a line of its own. A message that holds a line feed
/// would be read as two, and gets no line.
pub fn frame(payload: &Vec<u8>) -> (r: Option<Vec<u8>>)
    ensures
        match r {
            Some(line) => !payload@.contains(LINE_FEED) && line@ == framed(payload@),
            None => payload@.contains(LINE_FEED),
        },
{
    if holds_line_feed(payload) {
        return None;
    }
    let mut line: Vec<u8> = Vec::new();
    let mut i: usize = 0;
    while i < payload.len()
        invariant
            i <= payload.len(),
            line@ == payload@.take(i as int),
        decreases payload.len() - i,
    {
        line.push(payload[i]);
        proof {
            assert(payload@.take(i as int + 1) =~= payload@.take(i as int).push(payload@[i as int]));
        }
        i += 1;
    }
    proof {
        assert(payload@.take(payload@.len() as int) =~= payload@);
    }
    line.push(LINE_FEED);
    Some(line)
}

/// Takes the message from a line that was read. A line that is not
/// complete, or that holds more than one line, carries no message.
pub fn unframe(line: &Vec<u8>) -> (r: Option<Vec<u8>>)
    ensures
        match r {
            Some(payload) => is_framed(line@) && payload@ == line@.drop_last(),
            None => !is_framed(line@),
        },
{
    let n = line.len();
    if n == 0 || line[n - 1] != LINE_FEED {
        return None;
    }
    let mut payload: Vec<u8> = Vec::new();
    let mut i: usize = 0;
    while i < n - 1
        invariant
            n == line.len(),
            n > 0,
            i <= n - 1,
            payload@ == line@.take(i as int),
            !payload@.contains(LINE_FEED),
        decreases n - 1 - i,
    {
        if line[i] == LINE_FEED {
            proof {
                assert(line@.drop_last()[i as int] == LINE_FEED);
            }
            return None;
        }
        let ghost before = payload@;
        payload.push(line[i]);
        proof {
            assert(line@.take(i as int + 1) =~= line@.take(i as int).push(line@[i as int]));
            if payload@.contains(LINE_FEED) {
                let k = choose|k: int| 0 <= k < payload@.len() && payload@[k] == LINE_FEED;
                if k < before.len() {
                    assert(before[k] == LINE_FEED);
                }
            }
        }
        i += 1;
    }
    proof {
        assert(line@.take(n as int - 1) =~= line@.drop_last());
    }
    Some(payload)
}

/// What was framed comes back unchanged when the line is taken apart, and
/// a line that was taken apart is the frame of what came out.
pub proof fn lemma_frame_round_trip(payload: Seq<u8>, line: Seq<u8>)
    ensures
        !payload.contains(LINE_FEED) ==> is_framed(framed(payload)) && framed(
            payload,
        ).drop_last() == payload,
        is_framed(line) ==> framed(line.drop_last()) == line,
{
    assert(framed(payload).drop_last() =~= payload);
    if is_framed(line) {
        assert(framed(line.drop_last()) =~= line);
    }
}

} // verus!
