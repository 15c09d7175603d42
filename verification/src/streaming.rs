//! Following a board's messages as they arrive. The caller polls the board
//! and hands each poll's messages to a [`MessageStream`], which says which
//! of them are new (by author and time) and whether the stream has shown
//! as many new messages as it was asked for.
use vstd::prelude::*;

use crate::ids::MemberId;
use crate::message::{AuthorizedMessageV1, Timestamp};

verus! {

/// What tells two messages apart in a stream: their author and time.
pub type StreamKey = (MemberId, Timestamp);

/// The key of a message.
pub open spec fn stream_key(m: AuthorizedMessageV1) -> StreamKey {
    (m.message.author, m.message.time)
}

/// The keys of a list of messages.
pub open spec fn stream_keys(ms: Seq<AuthorizedMessageV1>) -> Seq<StreamKey> {
    ms.map_values(|m: AuthorizedMessageV1| stream_key(m))
}

/// The state of a stream: the keys it has shown, how many new messages it
/// has shown, and how many it shows before it ends (0: no end).
pub struct MessageStream {
    pub seen: Vec<StreamKey>,
    pub new_count: usize,
    pub max_messages: usize,
}

/// The outcome of handing the first `n` messages of a poll to a stream
/// that had seen `seen` and shown `count` new messages: the keys seen
/// after, the count after, the positions shown, and whether the stream
/// reached its end.
pub open spec fn poll_prefix(
    keys: Seq<StreamKey>,
    seen: Seq<StreamKey>,
    count: int,
    max: int,
    n: nat,
) -> (Seq<StreamKey>, int, Seq<int>, bool)
    decreases n,
{
    if n == 0 {
        (seen, count, Seq::empty(), false)
    } else {
        let (s, c, shown, ended) = poll_prefix(keys, seen, count, max, (n - 1) as nat);
        let k = keys[n - 1];
        if ended || s.contains(k) {
            (s, c, shown, ended)
        } else {
            (s.push(k), c + 1, shown.push(n - 1), max > 0 && c + 1 >= max)
        }
    }
}

/// Whether a stream that has shown `count` new messages has reached the
/// end it was given.
pub open spec fn stream_done(count: int, max: int) -> bool {
    max > 0 && count >= max
}

/// A stream never shows a message twice: each message a poll shows has a
/// key the stream had not seen, the keys seen grow by exactly the keys
/// shown, in order, and no key is seen twice.
pub proof fn lemma_poll_never_repeats(
    keys: Seq<StreamKey>,
    seen: Seq<StreamKey>,
    count: int,
    max: int,
    n: nat,
)
    requires
        n <= keys.len(),
        seen.no_duplicates(),
    ensures
        ({
            let (s, c, shown, ended) = poll_prefix(keys, seen, count, max, n);
            &&& s.no_duplicates()
            &&& s.len() == seen.len() + shown.len()
            &&& s.subrange(0, seen.len() as int) == seen
            &&& c == count + shown.len()
            &&& forall|j: int|
                0 <= j < shown.len() ==> 0 <= #[trigger] shown[j] < n && !seen.contains(keys[shown[j]])
                    && s[seen.len() + j] == keys[shown[j]]
        }),
    decreases n,
{
    if n > 0 {
        lemma_poll_never_repeats(keys, seen, count, max, (n - 1) as nat);
        let (s, c, shown, ended) = poll_prefix(keys, seen, count, max, (n - 1) as nat);
        let k = keys[n - 1];
        if !(ended || s.contains(k)) {
            let s2 = s.push(k);
            assert(s2.subrange(0, seen.len() as int) =~= s.subrange(0, seen.len() as int));
            assert forall|a: int, b: int| 0 <= a < s2.len() && 0 <= b < s2.len() && a != b implies s2[a]
                != s2[b] by {
                if a < s.len() && b < s.len() {
                } else if a == s.len() {
                    assert(s[b] == s2[b]);
                } else {
                    assert(s[a] == s2[a]);
                }
            }
            assert(!seen.contains(k)) by {
                if seen.contains(k) {
                    let i = choose|i: int| 0 <= i < seen.len() && seen[i] == k;
                    assert(s[i] == s.subrange(0, seen.len() as int)[i]);
                }
            }
        }
    }
}

fn contains_key(seen: &Vec<StreamKey>, k: StreamKey) -> (r: bool)
    ensures
        r == seen@.contains(k),
{
    let mut i: usize = 0;
    while i < seen.len()
        invariant
            i <= seen@.len(),
            forall|j: int| 0 <= j < i ==> seen@[j] != k,
        decreases seen.len() - i,
    {
        if seen[i].0 == k.0 && seen[i].1 == k.1 {
            assert(seen@[i as int] == k);
            return true;
        }
        i = i + 1;
    }
    false
}

impl MessageStream {
    /// A stream that has shown nothing and ends after `max_messages` new
    /// messages (never, where it is 0).
    pub fn new(max_messages: usize) -> (r: Self)
        ensures
            r.seen@ == Seq::<StreamKey>::empty(),
            r.new_count == 0,
            r.max_messages == max_messages,
    {
        MessageStream { seen: Vec::new(), new_count: 0, max_messages }
    }

    /// Whether the stream has shown as many new messages as it was asked
    /// for.
    pub fn is_done(&self) -> (r: bool)
        ensures
            r == stream_done(self.new_count as int, self.max_messages as int),
    {
        self.max_messages > 0 && self.new_count >= self.max_messages
    }

    /// Shows the last `n` of `messages` (all, where there are fewer): marks
    /// them seen and returns their positions, in order. They do not count
    /// as new messages.
    pub fn show_initial(&mut self, messages: &Vec<AuthorizedMessageV1>, n: usize) -> (r: Vec<usize>)
        ensures
            ({
                let start = if messages@.len() <= n {
                    0
                } else {
                    messages@.len() - n
                };
                &&& r@.len() == messages@.len() - start
                &&& forall|i: int| 0 <= i < r@.len() ==> r@[i] == start + i
                &&& final(self).seen@ == old(self).seen@ + stream_keys(
                    messages@.subrange(start, messages@.len() as int),
                )
            }),
            final(self).new_count == old(self).new_count,
            final(self).max_messages == old(self).max_messages,
    {
        let start: usize = if messages.len() <= n {
            0
        } else {
            messages.len() - n
        };
        let ghost seen0 = self.seen@;
        let mut shown: Vec<usize> = Vec::new();
        let mut i = start;
        while i < messages.len()
            invariant
                start <= i <= messages@.len(),
                shown@.len() == i - start,
                forall|j: int| 0 <= j < shown@.len() ==> shown@[j] == start + j,
                self.seen@ == seen0 + stream_keys(messages@.subrange(start as int, i as int)),
                self.new_count == old(self).new_count,
                self.max_messages == old(self).max_messages,
            decreases messages.len() - i,
        {
            let m = &messages[i];
            self.seen.push((m.message.author, m.message.time));
            shown.push(i);
            proof {
                assert(messages@.subrange(start as int, i + 1) =~= messages@.subrange(
                    start as int,
                    i as int,
                ).push(messages@[i as int]));
                assert(stream_keys(messages@.subrange(start as int, i + 1)) =~= stream_keys(
                    messages@.subrange(start as int, i as int),
                ).push(stream_key(messages@[i as int])));
            }
            i = i + 1;
        }
        shown
    }

    /// Hands one poll's messages to the stream: the positions of those
    /// whose key it has not seen, in order, each marked seen and counted,
    /// stopping after the one that brings the count to the end the stream
    /// was given; and whether the stream has reached that end.
    pub fn poll(&mut self, messages: &Vec<AuthorizedMessageV1>) -> (r: (Vec<usize>, bool))
        requires
            old(self).new_count + messages@.len() <= usize::MAX,
        ensures
            ({
                let (s, c, shown, ended) = poll_prefix(
                    stream_keys(messages@),
                    old(self).seen@,
                    old(self).new_count as int,
                    old(self).max_messages as int,
                    messages@.len(),
                );
                &&& final(self).seen@ == s
                &&& final(self).new_count == c
                &&& r.0@.map_values(|p: usize| p as int) == shown
                &&& r.1 == ended
            }),
            final(self).max_messages == old(self).max_messages,
    {
        let ghost keys = stream_keys(messages@);
        let ghost seen0 = self.seen@;
        let ghost count0 = self.new_count as int;
        let mut shown: Vec<usize> = Vec::new();
        let mut ended = false;
        let mut i: usize = 0;
        while i < messages.len()
            invariant
                i <= messages@.len(),
                keys == stream_keys(messages@),
                self.max_messages == old(self).max_messages,
                count0 == old(self).new_count,
                count0 + messages@.len() <= usize::MAX,
                self.new_count <= count0 + i,
                ({
                    let (s, c, sh, e) = poll_prefix(keys, seen0, count0, self.max_messages as int, i as nat);
                    &&& self.seen@ == s
                    &&& self.new_count == c
                    &&& shown@.map_values(|p: usize| p as int) == sh
                    &&& ended == e
                }),
            decreases messages.len() - i,
        {
            let ghost before = shown@;
            let m = &messages[i];
            let k = (m.message.author, m.message.time);
            assert(keys[i as int] == k);
            if !ended && !contains_key(&self.seen, k) {
                self.seen.push(k);
                self.new_count = self.new_count + 1;
                shown.push(i);
                ended = self.max_messages > 0 && self.new_count >= self.max_messages;
                assert(shown@.map_values(|p: usize| p as int) =~= before.map_values(|p: usize| p as int).push(
                    i as int,
                ));
            }
            i = i + 1;
        }
        (shown, ended)
    }
}

} // verus!
