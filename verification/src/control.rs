//! Local control: one bounded JSON exchange per connection, between processes of one user.

pub mod activity;
pub mod state;
pub mod stats;

use crate::json;
use crate::json::{Json, Tree};
use vstd::prelude::*;
use vstd::string::*;

verus! {

/// What a client can ask of a running server.
#[derive(Debug, Clone, Copy, PartialEq, Eq, Structural)]
pub enum Command {
    Status,
    ConfigShow,
    ConfigReload,
    StatsSummary,
    StatsLayers { offset: usize, limit: usize },
    StatsExperts { layer: usize, offset: usize, limit: usize },
}

/// The most bytes of a frame, its line break not counted.
pub const MAX_FRAME: usize = 65536;

/// The nanoseconds that a whole frame may take, even if a client dribbles bytes.
pub const TIMEOUT_NS: u64 = 2_000_000_000;

/// Why an exchange fails.
#[derive(Debug)]
pub enum FrameError {
    Incomplete,
    RequestTooLarge,
    ResponseTooLarge,
    TimedOut,
    Write(String),
    PeerUnknown,
    PeerForeign,
}

impl FrameError {
    pub open spec fn text(self) -> Seq<char> {
        match self {
            FrameError::Incomplete => "incomplete control frame"@,
            FrameError::RequestTooLarge => "control frame exceeds 64 KiB"@,
            FrameError::ResponseTooLarge => "control response exceeds 64 KiB"@,
            FrameError::TimedOut => "control request timed out"@,
            FrameError::Write(e) => e@,
            FrameError::PeerUnknown => "cannot determine control peer identity"@,
            FrameError::PeerForeign => "control peer must have the server's UID"@,
        }
    }

    pub fn message(&self) -> (r: String)
        ensures
            r@ == self.text(),
    {
        match self {
            FrameError::Incomplete => "incomplete control frame".to_owned(),
            FrameError::RequestTooLarge => "control frame exceeds 64 KiB".to_owned(),
            FrameError::ResponseTooLarge => "control response exceeds 64 KiB".to_owned(),
            FrameError::TimedOut => "control request timed out".to_owned(),
            FrameError::Write(e) => e.clone(),
            FrameError::PeerUnknown => "cannot determine control peer identity".to_owned(),
            FrameError::PeerForeign => "control peer must have the server's UID".to_owned(),
        }
    }
}

/// Where the first line break stands at or behind a place; the length where there is none.
pub open spec fn line_break(bytes: Seq<u8>, from: int) -> int
    decreases bytes.len() - from,
{
    if from >= bytes.len() || bytes[from] == 10 {
        from
    } else {
        line_break(bytes, from + 1)
    }
}

/// A frame as it comes in.
#[derive(Debug)]
pub struct Frame {
    pub bytes: Vec<u8>,
}

/// What a frame holds after one more piece of it; nothing where it is too large then.
pub open spec fn extended(bytes: Seq<u8>, chunk: Seq<u8>) -> Option<Seq<u8>> {
    let longer = bytes + chunk.take(line_break(chunk, 0));
    if longer.len() <= MAX_FRAME {
        Some(longer)
    } else {
        None
    }
}

impl Frame {
    pub fn new() -> (r: Frame)
        ensures
            r.bytes@.len() == 0,
    {
        Frame { bytes: Vec::new() }
    }

    /// Takes what one read brought; an empty read is the stream's end. True where the frame
    /// is complete.
    pub fn feed(&mut self, chunk: &[u8]) -> (r: Result<bool, FrameError>)
        ensures
            match r {
                Ok(done) => {
                    &&& chunk@.len() > 0
                    &&& extended(old(self).bytes@, chunk@) == Some(final(self).bytes@)
                    &&& done == (line_break(chunk@, 0) < chunk@.len())
                },
                Err(FrameError::Incomplete) => chunk@.len() == 0 && final(self).bytes@ == old(self).bytes@,
                Err(e) => {
                    &&& e is RequestTooLarge
                    &&& chunk@.len() > 0
                    &&& extended(old(self).bytes@, chunk@) is None
                    &&& final(self).bytes@ == old(self).bytes@ + chunk@.take(line_break(chunk@, 0))
                },
            },
    {
        if chunk.len() == 0 {
            return Err(FrameError::Incomplete);
        }
        let ghost start = self.bytes@;
        let mut end: usize = 0;
        while end < chunk.len() && chunk[end] != 10
            invariant
                end <= chunk@.len(),
                line_break(chunk@, 0) == line_break(chunk@, end as int),
            decreases chunk@.len() - end,
        {
            end = end + 1;
        }
        self.bytes.extend_from_slice(vstd::slice::slice_subrange(chunk, 0, end));
        assert(self.bytes@ =~= start + chunk@.take(end as int));
        if self.bytes.len() > MAX_FRAME {
            return Err(FrameError::RequestTooLarge);
        }
        Ok(end < chunk.len())
    }
}

/// The bytes of a frame that carries a value's text, its line break at the end.
pub fn frame(text: Vec<u8>) -> (r: Result<Vec<u8>, FrameError>)
    ensures
        if text@.len() <= MAX_FRAME {
            r matches Ok(out) && out@ == text@.push(10u8)
        } else {
            r matches Err(FrameError::ResponseTooLarge)
        },
{
    let mut bytes: Vec<u8> = text;
    if bytes.len() > MAX_FRAME {
        return Err(FrameError::ResponseTooLarge);
    }
    bytes.push(10);
    Ok(bytes)
}

/// The bytes of a frame that carries a value, its line break at the end.
pub fn encode_frame(value: &Json) -> (r: Result<Vec<u8>, FrameError>)
    ensures
        match json::json_bytes(value.tree()) {
            Ok(bytes) => if bytes.len() <= MAX_FRAME {
                r matches Ok(out) && out@ == bytes.push(10u8) && !bytes.contains(10u8)
            } else {
                r matches Err(FrameError::ResponseTooLarge)
            },
            Err(e) => r matches Err(FrameError::Write(f)) && f@ == e,
        },
{
    match json::write(value) {
        Ok(text) => frame(text),
        Err(e) => Err(FrameError::Write(e)),
    }
}

/// What pieces of a frame hold together.
pub open spec fn joined(chunks: Seq<Seq<u8>>) -> Seq<u8>
    decreases chunks.len(),
{
    if chunks.len() == 0 {
        Seq::empty()
    } else {
        joined(chunks.drop_last()) + chunks.last()
    }
}

/// What a frame holds after pieces of it; nothing where it became too large.
pub open spec fn fed(chunks: Seq<Seq<u8>>) -> Option<Seq<u8>>
    decreases chunks.len(),
{
    if chunks.len() == 0 {
        Some(Seq::empty())
    } else {
        match fed(chunks.drop_last()) {
            Some(bytes) => extended(bytes, chunks.last()),
            None => None,
        }
    }
}

proof fn lemma_no_break(bytes: Seq<u8>, from: int)
    requires
        0 <= from <= bytes.len(),
        !bytes.contains(10u8),
    ensures
        line_break(bytes, from) == bytes.len(),
    decreases bytes.len() - from,
{
    if from < bytes.len() {
        assert(bytes.contains(bytes[from]));
        lemma_no_break(bytes, from + 1);
    }
}

proof fn lemma_break_last(bytes: Seq<u8>, from: int)
    requires
        0 <= from < bytes.len(),
        bytes.last() == 10,
        !bytes.drop_last().contains(10u8),
    ensures
        line_break(bytes, from) == bytes.len() - 1,
    decreases bytes.len() - from,
{
    if from < bytes.len() - 1 {
        assert(bytes.drop_last().contains(bytes.drop_last()[from]));
        lemma_break_last(bytes, from + 1);
    }
}

proof fn lemma_fed_whole(chunks: Seq<Seq<u8>>)
    requires
        !joined(chunks).contains(10u8),
        joined(chunks).len() <= MAX_FRAME,
    ensures
        fed(chunks) == Some(joined(chunks)),
    decreases chunks.len(),
{
    if chunks.len() > 0 {
        let front = joined(chunks.drop_last());
        let last = chunks.last();
        let all = joined(chunks);
        assert forall|x: u8| front.contains(x) || last.contains(x) implies all.contains(x) by {
            if front.contains(x) {
                let i = choose|i: int| 0 <= i < front.len() && front[i] == x;
                assert(all[i] == x);
            } else {
                let i = choose|i: int| 0 <= i < last.len() && last[i] == x;
                assert(all[front.len() + i] == x);
            }
        }
        lemma_fed_whole(chunks.drop_last());
        lemma_no_break(last, 0);
        assert(last.take(last.len() as int) =~= last);
    }
}

/// A frame that was written is read back as it was, however the bytes are cut into pieces,
/// and its line break ends the reading.
pub proof fn law_frame_round_trip(bytes: Seq<u8>, chunks: Seq<Seq<u8>>)
    requires
        bytes.len() <= MAX_FRAME,
        !bytes.contains(10u8),
        chunks.len() > 0,
        chunks.last().len() > 0,
        joined(chunks) == bytes.push(10u8),
    ensures
        fed(chunks) == Some(bytes),
        line_break(chunks.last(), 0) < chunks.last().len(),
        forall|i: int|
            0 <= i < chunks.len() - 1 ==> line_break(#[trigger] chunks[i], 0) == chunks[i].len(),
{
    let front = joined(chunks.drop_last());
    let last = chunks.last();
    let whole = joined(chunks);
    assert(whole == front + last);
    assert(whole.last() == last.last());
    assert(bytes =~= whole.drop_last()) by {
        assert(whole.drop_last() =~= bytes.push(10u8).drop_last());
    }
    assert(whole.drop_last() =~= front + last.drop_last());
    assert forall|x: u8| front.contains(x) || last.drop_last().contains(x) implies bytes.contains(x) by {
        if front.contains(x) {
            let i = choose|i: int| 0 <= i < front.len() && front[i] == x;
            assert(bytes[i] == x);
        } else {
            let i = choose|i: int| 0 <= i < last.drop_last().len() && last.drop_last()[i] == x;
            assert(bytes[front.len() + i] == x);
        }
    }
    lemma_fed_whole(chunks.drop_last());
    lemma_break_last(last, 0);
    assert(last.take(last.len() - 1) =~= last.drop_last());
    assert forall|i: int| 0 <= i < chunks.len() - 1 implies line_break(#[trigger] chunks[i], 0) == chunks[i].len() by {
        lemma_piece_in_joined(chunks.drop_last(), i);
        assert(chunks.drop_last()[i] == chunks[i]);
        assert(!chunks.drop_last()[i].contains(10u8));
        lemma_no_break(chunks[i], 0);
    }
}

proof fn lemma_piece_in_joined(chunks: Seq<Seq<u8>>, i: int)
    requires
        0 <= i < chunks.len(),
    ensures
        forall|x: u8| #[trigger] chunks[i].contains(x) ==> joined(chunks).contains(x),
    decreases chunks.len(),
{
    let all = joined(chunks);
    let front = joined(chunks.drop_last());
    if i < chunks.len() - 1 {
        lemma_piece_in_joined(chunks.drop_last(), i);
        assert forall|x: u8| #[trigger] chunks[i].contains(x) implies all.contains(x) by {
            assert(chunks.drop_last()[i].contains(x));
            let k = choose|k: int| 0 <= k < front.len() && front[k] == x;
            assert(all[k] == x);
        }
    } else {
        assert forall|x: u8| #[trigger] chunks[i].contains(x) implies all.contains(x) by {
            let k = choose|k: int| 0 <= k < chunks[i].len() && chunks[i][k] == x;
            assert(all[front.len() + k] == x);
        }
    }
}

/// What follows from waiting for bytes.
#[derive(Debug, Clone, Copy, PartialEq, Eq, Structural)]
pub enum Waited {
    Ready,
    Again,
    TimedOut,
    Failed,
}

/// What follows from one wait: the count of ready streams, or less than zero where the wait
/// failed or was interrupted.
pub fn after_wait(ready: i32, interrupted: bool) -> (r: Waited)
    ensures
        r == if ready > 0 {
            Waited::Ready
        } else if ready == 0 {
            Waited::TimedOut
        } else if interrupted {
            Waited::Again
        } else {
            Waited::Failed
        },
{
    if ready > 0 {
        Waited::Ready
    } else if ready == 0 {
        Waited::TimedOut
    } else if interrupted {
        Waited::Again
    } else {
        Waited::Failed
    }
}

/// How many milliseconds to wait for bytes, rounded up, given what has passed of the time
/// that a frame may take; nothing where it has all passed.
pub fn wait_milliseconds(elapsed_ns: u64) -> (r: Option<i32>)
    ensures
        match r {
            Some(ms) => elapsed_ns <= TIMEOUT_NS && ms == (TIMEOUT_NS - elapsed_ns) / 1_000_000 + 1,
            None => elapsed_ns > TIMEOUT_NS,
        },
{
    if elapsed_ns > TIMEOUT_NS {
        return None;
    }
    Some(((TIMEOUT_NS - elapsed_ns) / 1_000_000) as i32 + 1)
}

/// Accepts a peer, given whether the system could name it and its user.
pub fn same_user(named: bool, uid: u32, own: u32) -> (r: Result<(), FrameError>)
    ensures
        match r {
            Ok(()) => named && uid == own,
            Err(FrameError::PeerUnknown) => !named,
            Err(e) => e is PeerForeign && named && uid != own,
        },
{
    if !named {
        return Err(FrameError::PeerUnknown);
    }
    if uid != own {
        return Err(FrameError::PeerForeign);
    }
    Ok(())
}

/// Whether the socket's directory is a private one of this user.
pub fn private_directory(is_dir: bool, uid: u32, mode: u32, own: u32) -> (r: bool)
    ensures
        r == (is_dir && uid == own && mode & 0o777 == 0o700),
{
    is_dir && uid == own && mode & 0o777 == 0o700
}

/// Whether the lock is a private file of this user.
pub fn private_lock(is_file: bool, uid: u32, mode: u32, own: u32) -> (r: bool)
    ensures
        r == (is_file && uid == own && mode & 0o777 == 0o600),
{
    is_file && uid == own && mode & 0o777 == 0o600
}

/// What stands where the socket is to be.
#[derive(Debug, Clone, Copy, PartialEq, Eq, Structural)]
pub enum Standing {
    Nothing,
    /// A socket of this user that refuses connections.
    Stale,
    /// A socket of this user that may be in use.
    Live,
    /// Anything else.
    Foreign,
}

/// What follows from what stands there.
#[derive(Debug, Clone, Copy, PartialEq, Eq, Structural)]
pub enum Taking {
    Bind,
    RemoveAndBind,
    InUse,
    Refuse,
}

/// What to do about what stands where the socket is to be: only a stale socket of this user
/// is replaced.
pub fn take_place(standing: Standing) -> (r: Taking)
    ensures
        r == match standing {
            Standing::Nothing => Taking::Bind,
            Standing::Stale => Taking::RemoveAndBind,
            Standing::Live => Taking::InUse,
            Standing::Foreign => Taking::Refuse,
        },
{
    match standing {
        Standing::Nothing => Taking::Bind,
        Standing::Stale => Taking::RemoveAndBind,
        Standing::Live => Taking::InUse,
        Standing::Foreign => Taking::Refuse,
    }
}

/// What a server answers.
pub open spec fn reply_tree(result: Result<Tree, Seq<char>>) -> Tree {
    Tree::Object(
        Map::<Seq<char>, Tree>::empty().insert("ok"@, Tree::Bool(result is Ok)).insert(
            "data"@,
            match result {
                Ok(data) => data,
                Err(_) => Tree::Null,
            },
        ).insert(
            "error"@,
            match result {
                Ok(_) => Tree::Null,
                Err(e) => Tree::Text(e),
            },
        ),
    )
}

/// What a result holds.
pub open spec fn outcome(result: Result<Json, String>) -> Result<Tree, Seq<char>> {
    match result {
        Ok(data) => Ok(data.tree()),
        Err(e) => Err(e@),
    }
}

/// The answer to a command.
pub fn reply(result: Result<Json, String>) -> (r: Json)
    ensures
        r.tree() == reply_tree(outcome(result)),
{
    match result {
        Ok(data) => Json::object().with("ok", Json::Bool(true)).with("data", data).with("error", Json::Null),
        Err(e) => Json::object().with("ok", Json::Bool(false)).with("data", Json::Null).with("error", Json::Text(e)),
    }
}

/// What a client makes of an answer.
pub open spec fn understood(response: Tree) -> Result<Tree, Seq<char>> {
    if json::at(response, "ok"@) == Tree::Bool(true) {
        Ok(json::at(response, "data"@))
    } else {
        match json::at(response, "error"@) {
            Tree::Text(e) => Err(e),
            _ => Err("invalid control response"@),
        }
    }
}

/// Reads an answer.
pub fn understand(response: &Json) -> (r: Result<Json, String>)
    ensures
        outcome(r) == understood(response.tree()),
{
    let ok: bool = match response.get("ok") {
        Some(Json::Bool(b)) => *b,
        _ => false,
    };
    if ok {
        return match response.get("data") {
            Some(data) => Ok(data.copy()),
            None => Ok(Json::Null),
        };
    }
    match response.text_at("error") {
        Some(e) => Err(e.to_owned()),
        None => Err("invalid control response".to_owned()),
    }
}

/// A client understands what a server answers: the data, or the error.
pub proof fn law_reply_understood(result: Result<Tree, Seq<char>>)
    ensures
        understood(reply_tree(result)) == result,
{
    reveal_strlit("ok");
    reveal_strlit("data");
    reveal_strlit("error");
    assert("ok"@.len() != "data"@.len());
    assert("ok"@.len() != "error"@.len());
    assert("data"@.len() != "error"@.len());
}

/// The place of the first line break at or behind a place, and the end where there is none.
proof fn lemma_line_break(bytes: Seq<u8>, from: int)
    requires
        0 <= from <= bytes.len(),
    ensures
        from <= line_break(bytes, from) <= bytes.len(),
        line_break(bytes, from) < bytes.len() ==> bytes[line_break(bytes, from)] == 10,
        forall|i: int| from <= i < line_break(bytes, from) ==> #[trigger] bytes[i] != 10,
    decreases bytes.len() - from,
{
    if from < bytes.len() && bytes[from] != 10 {
        lemma_line_break(bytes, from + 1);
    }
}

/// A frame takes what a chunk holds before its first line break, which ends the frame. It has at
/// most 65536 bytes; an empty chunk means that the peer is gone.
pub proof fn law_frame_fed(f: &mut Frame, chunk: &[u8], r: Result<bool, FrameError>) -> (taken: int)
    requires
        call_ensures(Frame::feed, (f, chunk), r),
    ensures
        0 <= taken <= chunk@.len(),
        chunk@.len() == 0 <==> r matches Err(FrameError::Incomplete),
        chunk@.len() == 0 ==> taken == 0,
        final(f).bytes@ == old(f).bytes@ + chunk@.take(taken),
        forall|i: int| 0 <= i < taken ==> #[trigger] chunk@[i] != 10,
        taken < chunk@.len() ==> chunk@[taken] == 10,
        chunk@.len() > 0 ==> (r is Ok <==> old(f).bytes@.len() + taken <= 65536),
        chunk@.len() > 0 && r is Err ==> r->Err_0 is RequestTooLarge,
        r matches Ok(done) ==> (done <==> chunk@.contains(10u8)),
{
    let n = line_break(chunk@, 0);
    lemma_line_break(chunk@, 0);
    if n < chunk@.len() {
        assert(chunk@.contains(chunk@[n]));
    }
    if chunk@.len() == 0 {
        assert(old(f).bytes@ + chunk@.take(0) =~= old(f).bytes@);
        0
    } else {
        n
    }
}

/// A text of at most 65536 bytes is sent with a line feed behind it, and a longer one is refused.
pub proof fn law_frame_made(text: Vec<u8>, r: Result<Vec<u8>, FrameError>)
    requires
        call_ensures(frame, (text,), r),
    ensures
        r is Ok <==> text@.len() <= 65536,
        r matches Ok(out) ==> out@ == text@ + seq![10u8],
        r matches Err(e) ==> e is ResponseTooLarge,
{
    if r is Ok {
        assert(text@.push(10u8) =~= text@ + seq![10u8]);
    }
}

/// Whatever was framed is read back whole by one who is fed all of it at once.
pub proof fn law_frame_sent_and_fed(text: Vec<u8>, out: Vec<u8>, f: &mut Frame, chunk: &[u8], r: Result<bool, FrameError>)
    requires
        call_ensures(frame, (text,), Ok(out)),
        !text@.contains(10u8),
        old(f).bytes@.len() == 0,
        chunk@ == out@,
        call_ensures(Frame::feed, (f, chunk), r),
    ensures
        r == Ok::<bool, FrameError>(true),
        final(f).bytes@ == text@,
{
    lemma_line_break(chunk@, 0);
    let n = line_break(chunk@, 0);
    if n < text@.len() {
        assert(text@[n] == 10);
        assert(text@.contains(10u8));
    }
    assert(chunk@[text@.len() as int] == 10);
    assert(n == text@.len());
    assert(old(f).bytes@ + chunk@.take(n) =~= text@);
}

/// A wait is never longer than what is left of two seconds, rounded up to the next millisecond,
/// and there is none behind them.
pub proof fn law_wait_within_timeout(elapsed_ns: u64, r: Option<i32>)
    requires
        call_ensures(wait_milliseconds, (elapsed_ns,), r),
    ensures
        r is Some <==> elapsed_ns <= 2_000_000_000,
        r matches Some(ms) ==> ms >= 1 && (ms - 1) * 1_000_000 <= 2_000_000_000 - elapsed_ns < ms * 1_000_000,
{
}

/// A wait that was ready goes on; one that was not has timed out; a failed one is tried again only
/// where it was interrupted.
pub proof fn law_after_wait(ready: i32, interrupted: bool, r: Waited)
    requires
        call_ensures(after_wait, (ready, interrupted), r),
    ensures
        r is Ready <==> ready > 0,
        r is TimedOut <==> ready == 0,
        r is Again <==> ready < 0 && interrupted,
        r is Failed <==> ready < 0 && !interrupted,
{
}

/// A peer is accepted exactly where it is known and is the server's own user.
pub proof fn law_peer_is_the_user(named: bool, uid: u32, own: u32, r: Result<(), FrameError>)
    requires
        call_ensures(same_user, (named, uid, own), r),
    ensures
        r is Ok <==> named && uid == own,
        !named ==> r is Err && r->Err_0 is PeerUnknown,
        named && uid != own ==> r is Err && r->Err_0 is PeerForeign,
{
}

/// The socket's directory is the user's own, for nobody else; so is its lock.
pub proof fn law_private_places(kind: bool, uid: u32, mode: u32, own: u32, dir: bool, lock: bool)
    requires
        call_ensures(private_directory, (kind, uid, mode, own), dir),
        call_ensures(private_lock, (kind, uid, mode, own), lock),
    ensures
        dir ==> kind && uid == own && mode & 0o077 == 0 && mode & 0o700 == 0o700,
        lock ==> kind && uid == own && mode & 0o077 == 0 && mode & 0o600 == 0o600 && mode & 0o100 == 0,
        kind && uid == own && mode & 0o777 == 0o700 ==> dir,
        kind && uid == own && mode & 0o777 == 0o600 ==> lock,
{
    assert(mode & 0o777 == 0o700 ==> mode & 0o077 == 0 && mode & 0o700 == 0o700) by (bit_vector);
    assert(mode & 0o777 == 0o600 ==> mode & 0o077 == 0 && mode & 0o600 == 0o600 && mode & 0o100 == 0) by (bit_vector);
}

/// A place is taken where nothing stands in it or what stands there is stale; a live server's is
/// in use, and anything else is left alone.
pub proof fn law_place_taken(standing: Standing, r: Taking)
    requires
        call_ensures(take_place, (standing,), r),
    ensures
        standing is Nothing <==> r is Bind,
        standing is Stale <==> r is RemoveAndBind,
        standing is Live <==> r is InUse,
        standing is Foreign <==> r is Refuse,
{
}

/// What a server answers, its client understands: the same data, or the same error.
pub proof fn law_answer_round_trip(result: Result<Json, String>, sent: Json, got: Result<Json, String>)
    requires
        call_ensures(reply, (result,), sent),
        call_ensures(understand, (&sent,), got),
    ensures
        result matches Ok(data) ==> (got matches Ok(d) && d.tree() == data.tree()),
        result matches Err(e) ==> (got matches Err(f) && f@ == e@),
        json::at(sent.tree(), "ok"@) == Tree::Bool(result is Ok),
{
    law_reply_understood(outcome(result));
    reveal_strlit("ok");
    reveal_strlit("data");
    reveal_strlit("error");
    assert("ok"@.len() != "data"@.len());
    assert("ok"@.len() != "error"@.len());
}

} // verus!
