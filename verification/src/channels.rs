use vstd::prelude::*;

use crate::text::{chars_of, owned, str_eq, string_of_range, views};

verus! {

/// Type of chat (direct message or group).
#[derive(PartialEq, Eq, Structural)]
pub enum ChatType {
    Direct,
    Group,
}

/// An inbound message received from a channel.
pub struct InboundMessage {
    /// Message ID (used for deduplication).
    pub id: String,
    /// Channel identifier (e.g. "feishu").
    pub channel: String,
    /// Chat / conversation ID.
    pub chat_id: String,
    /// Direct message or group chat.
    pub chat_type: ChatType,
    /// Sender's platform-specific ID.
    pub sender_id: String,
    /// Sender's display name, if available.
    pub sender_name: Option<String>,
    /// Text content of the message.
    pub text: String,
    /// ID of the message being replied to, if any.
    pub reply_to: Option<String>,
    /// Whether the bot was mentioned in this message.
    pub mentions_bot: bool,
    /// Unix timestamp in milliseconds.
    pub timestamp: i64,
}

/// An outbound message to send through a channel.
pub struct OutboundMessage {
    /// Target channel identifier.
    pub channel: String,
    /// Target chat / conversation ID.
    pub chat_id: String,
    /// Text content to send.
    pub text: String,
    /// Message ID to reply to, if any.
    pub reply_to: Option<String>,
}

/// Channel health status.
pub struct ChannelHealth {
    pub connected: bool,
    pub latency_ms: Option<u64>,
    pub error: Option<String>,
}

// ---------------------------------------------------------------------------
// Splitting long text into message-sized chunks
// ---------------------------------------------------------------------------

/// Index of the last newline of `s`.
pub open spec fn last_newline(s: Seq<char>) -> Option<int>
    decreases s.len(),
{
    if s.len() == 0 {
        None
    } else if s.last() == '\n' {
        Some(s.len() - 1)
    } else {
        last_newline(s.drop_last())
    }
}

/// `s` without its leading newlines.
pub open spec fn trim_newlines(s: Seq<char>) -> Seq<char>
    decreases s.len(),
{
    if s.len() > 0 && s[0] == '\n' {
        trim_newlines(s.drop_first())
    } else {
        s
    }
}

/// Dropping leading newlines never lengthens a text.
pub proof fn lemma_trim_newlines_len(s: Seq<char>)
    ensures
        trim_newlines(s).len() <= s.len(),
    decreases s.len(),
{
    if s.len() > 0 && s[0] == '\n' {
        lemma_trim_newlines_len(s.drop_first());
    }
}

/// Where a chunk of `s` ends: at the last newline among the first `max`
/// characters when there is one past position 0, else after `max` characters.
pub open spec fn cut_point(s: Seq<char>, max: nat) -> int {
    match last_newline(s.take(max as int)) {
        Some(p) => if p > 0 {
            p
        } else {
            max as int
        },
        None => max as int,
    }
}

/// The chunks that the splitting loop produces from `s`.
pub open spec fn chunk_loop(s: Seq<char>, max: nat) -> Seq<Seq<char>>
    decreases s.len(),
{
    if s.len() == 0 {
        Seq::empty()
    } else if s.len() <= max || max == 0 {
        seq![s]
    } else {
        let cut = cut_point(s, max);
        if 0 < cut <= s.len() {
            proof {
                lemma_trim_newlines_len(s.skip(cut));
            }
            seq![s.take(cut)] + chunk_loop(trim_newlines(s.skip(cut)), max)
        } else {
            seq![s]
        }
    }
}

/// The chunks of `s` of at most `max` characters each, preferring to break
/// at newlines; newlines at a break are dropped.
pub open spec fn split_spec(s: Seq<char>, max: nat) -> Seq<Seq<char>> {
    if s.len() <= max {
        seq![s]
    } else {
        chunk_loop(s, max)
    }
}

proof fn lemma_last_newline_bounds(s: Seq<char>)
    ensures
        last_newline(s) matches Some(p) ==> 0 <= p < s.len() && s[p] == '\n',
        last_newline(s) is None ==> forall|i: int| 0 <= i < s.len() ==> s[i] != '\n',
    decreases s.len(),
{
    if s.len() > 0 && s.last() != '\n' {
        lemma_last_newline_bounds(s.drop_last());
        if last_newline(s) is None {
            assert forall|i: int| 0 <= i < s.len() implies s[i] != '\n' by {
                if i < s.len() - 1 {
                    assert(s.drop_last()[i] == s[i]);
                }
            }
        }
    }
}

proof fn lemma_last_newline_take(s: Seq<char>, j: int)
    requires
        0 <= j <= s.len(),
        forall|i: int| j <= i < s.len() ==> s[i] != '\n',
    ensures
        last_newline(s) == last_newline(s.take(j)),
    decreases s.len() - j,
{
    if j < s.len() {
        assert(s.drop_last().take(j) =~= s.take(j));
        lemma_last_newline_take(s.drop_last(), j);
    } else {
        assert(s.take(j) =~= s);
    }
}

/// Where the chunk that starts at `start` ends, counted from `start` (the
/// rest of `cs` longer than `max > 0`).
fn find_cut(cs: &[char], start: usize, max: usize) -> (cut: usize)
    requires
        start <= cs@.len(),
        0 < max < cs@.len() - start,
    ensures
        cut == cut_point(cs@.skip(start as int), max as nat),
        0 < cut <= max,
{
    let ghost r = cs@.skip(start as int);
    let ghost t = r.take(max as int);
    let mut j: usize = max;
    while j > 0 && cs[start + j - 1] != '\n'
        invariant
            start <= cs@.len(),
            j <= max,
            start + max < cs@.len(),
            cs@.len() == cs.len(),
            r == cs@.skip(start as int),
            t == r.take(max as int),
            forall|i: int| j <= i < max ==> r[i] != '\n',
        decreases j,
    {
        assert(r[j - 1] == cs@[start + j - 1]);
        j = j - 1;
    }
    proof {
        assert forall|i: int| j <= i < t.len() implies t[i] != '\n' by {
            assert(t[i] == r[i]);
        }
        lemma_last_newline_take(t, j as int);
        if j > 0 {
            assert(r[j - 1] == cs@[start + j - 1]);
            assert(t.take(j as int).last() == r[j - 1]);
            assert(t.take(j as int).len() == j);
        } else {
            assert(t.take(0) =~= Seq::<char>::empty());
        }
    }
    if j == 0 {
        max
    } else if j - 1 > 0 {
        j - 1
    } else {
        max
    }
}

/// The position after the newlines that start at `from`.
fn skip_newlines(cs: &[char], from: usize) -> (k: usize)
    requires
        from <= cs@.len(),
    ensures
        from <= k <= cs@.len(),
        cs@.skip(k as int) == trim_newlines(cs@.skip(from as int)),
{
    let mut k = from;
    while k < cs.len() && cs[k] == '\n'
        invariant
            from <= k <= cs@.len(),
            trim_newlines(cs@.skip(from as int)) == trim_newlines(cs@.skip(k as int)),
        decreases cs@.len() - k,
    {
        assert(cs@.skip(k as int)[0] == cs@[k as int]);
        assert(cs@.skip(k as int).drop_first() =~= cs@.skip(k + 1));
        k = k + 1;
    }
    proof {
        if k < cs@.len() {
            assert(cs@.skip(k as int)[0] == cs@[k as int]);
        } else {
            assert(cs@.skip(k as int) =~= Seq::<char>::empty());
        }
    }
    k
}

/// Split text into chunks of at most `max_len` characters, preferring to
/// break at newlines.
pub fn split_text(text: &str, max_len: usize) -> (r: Vec<String>)
    requires
        text@.len() <= max_len || max_len > 0,
    ensures
        views(r@) == split_spec(text@, max_len as nat),
{
    let cs = chars_of(text);
    let mut chunks: Vec<String> = Vec::new();
    if cs.len() <= max_len {
        chunks.push(owned(text));
        assert(views(chunks@) =~= seq![text@]);
        return chunks;
    }
    let mut start: usize = 0;
    assert(cs@.skip(0) =~= cs@);
    assert(views(chunks@) =~= Seq::<Seq<char>>::empty());
    loop
        invariant
            max_len > 0,
            cs@ == text@,
            text@.len() > max_len,
            start <= cs@.len(),
            split_spec(text@, max_len as nat) == views(chunks@) + chunk_loop(
                cs@.skip(start as int),
                max_len as nat,
            ),
        decreases cs@.len() - start,
    {
        let ghost b = cs@.skip(start as int);
        let ghost before = views(chunks@);
        if start == cs.len() {
            assert(b =~= Seq::<char>::empty());
            assert(before + chunk_loop(b, max_len as nat) =~= before);
            return chunks;
        }
        if cs.len() - start <= max_len {
            chunks.push(string_of_range(cs.as_slice(), start, cs.len()));
            assert(cs@.subrange(start as int, cs@.len() as int) =~= b);
            assert(views(chunks@) =~= before.push(b));
            assert(before + chunk_loop(b, max_len as nat) =~= views(chunks@));
            return chunks;
        }
        let cut = find_cut(cs.as_slice(), start, max_len);
        chunks.push(string_of_range(cs.as_slice(), start, start + cut));
        assert(cs@.subrange(start as int, start + cut) =~= b.take(cut as int));
        assert(views(chunks@) =~= before.push(b.take(cut as int)));
        assert(cs@.skip(start + cut) =~= b.skip(cut as int));
        let k = skip_newlines(cs.as_slice(), start + cut);
        start = k;
        assert(before + chunk_loop(b, max_len as nat) =~= views(chunks@) + chunk_loop(
            cs@.skip(start as int),
            max_len as nat,
        ));
    }
}

/// `s` without any newlines.
pub open spec fn strip_newlines(s: Seq<char>) -> Seq<char>
    decreases s.len(),
{
    if s.len() == 0 {
        Seq::empty()
    } else if s[0] == '\n' {
        strip_newlines(s.drop_first())
    } else {
        seq![s[0]] + strip_newlines(s.drop_first())
    }
}

/// The chunks joined end to end.
pub open spec fn join_chunks(cs: Seq<Seq<char>>) -> Seq<char>
    decreases cs.len(),
{
    if cs.len() == 0 {
        Seq::empty()
    } else {
        cs[0] + join_chunks(cs.drop_first())
    }
}

proof fn lemma_strip_concat(a: Seq<char>, b: Seq<char>)
    ensures
        strip_newlines(a + b) == strip_newlines(a) + strip_newlines(b),
    decreases a.len(),
{
    if a.len() == 0 {
        assert(a + b =~= b);
    } else {
        assert((a + b).drop_first() =~= a.drop_first() + b);
        lemma_strip_concat(a.drop_first(), b);
        if a[0] == '\n' {
        } else {
            assert(seq![a[0]] + (strip_newlines(a.drop_first()) + strip_newlines(b)) =~= (seq![
                a[0],
            ] + strip_newlines(a.drop_first())) + strip_newlines(b));
        }
    }
}

proof fn lemma_strip_trim(s: Seq<char>)
    ensures
        strip_newlines(trim_newlines(s)) == strip_newlines(s),
    decreases s.len(),
{
    if s.len() > 0 && s[0] == '\n' {
        lemma_strip_trim(s.drop_first());
    }
}

proof fn lemma_chunk_loop_laws(s: Seq<char>, max: nat)
    requires
        max > 0,
    ensures
        forall|i: int|
            0 <= i < chunk_loop(s, max).len() ==> (#[trigger] chunk_loop(s, max)[i]).len() <= max
                && chunk_loop(s, max)[i].len() > 0,
        strip_newlines(join_chunks(chunk_loop(s, max))) == strip_newlines(s),
    decreases s.len(),
{
    let cs = chunk_loop(s, max);
    if s.len() == 0 {
        assert(join_chunks(cs) =~= Seq::<char>::empty());
    } else if s.len() <= max {
        assert(cs =~= seq![s]);
        assert(cs.drop_first() =~= Seq::<Seq<char>>::empty());
        assert(join_chunks(cs.drop_first()) =~= Seq::<char>::empty());
        assert(cs[0] == s);
        assert(join_chunks(cs) =~= s);
    } else {
        let cut = cut_point(s, max);
        lemma_last_newline_bounds(s.take(max as int));
        assert(0 < cut <= max);
        let rest = trim_newlines(s.skip(cut));
        lemma_trim_newlines_len(s.skip(cut));
        lemma_chunk_loop_laws(rest, max);
        assert(cs =~= seq![s.take(cut)] + chunk_loop(rest, max));
        assert(cs.drop_first() =~= chunk_loop(rest, max));
        assert forall|i: int| 0 <= i < cs.len() implies (#[trigger] cs[i]).len() <= max
            && cs[i].len() > 0 by {
            if i > 0 {
                assert(cs[i] == chunk_loop(rest, max)[i - 1]);
            }
        }
        assert(s =~= s.take(cut) + s.skip(cut));
        lemma_strip_concat(s.take(cut), s.skip(cut));
        lemma_strip_trim(s.skip(cut));
        lemma_strip_concat(s.take(cut), join_chunks(chunk_loop(rest, max)));
    }
}

/// Every chunk that `split_text` produces holds at most `max_len` characters
/// and none is empty, unless the whole text already fits (then the text itself
/// is the single chunk); and apart from the newlines dropped at the breaks,
/// the chunks joined in order give back the text.
pub proof fn split_text_laws(s: Seq<char>, max: nat)
    requires
        max > 0,
    ensures
        s.len() <= max ==> split_spec(s, max) == seq![s],
        forall|i: int|
            0 <= i < split_spec(s, max).len() ==> (#[trigger] split_spec(s, max)[i]).len() <= max,
        s.len() > max ==> forall|i: int|
            0 <= i < split_spec(s, max).len() ==> (#[trigger] split_spec(s, max)[i]).len() > 0,
        strip_newlines(join_chunks(split_spec(s, max))) == strip_newlines(s),
{
    if s.len() <= max {
        let cs = split_spec(s, max);
        assert(cs.drop_first() =~= Seq::<Seq<char>>::empty());
        assert(join_chunks(cs.drop_first()) =~= Seq::<char>::empty());
        assert(cs[0] == s);
        assert(join_chunks(cs) =~= s);
    } else {
        lemma_chunk_loop_laws(s, max);
    }
}

// ---------------------------------------------------------------------------
// Delivering an outbound message
// ---------------------------------------------------------------------------

/// Maximum text length per Feishu message, in characters.
pub const MAX_TEXT_LEN: usize = 4000;

/// One API call that delivers part of an outbound message.
pub enum DeliveryStep {
    /// Reply to message `message_id` with `text`.
    Reply { message_id: String, text: String },
    /// Send `text` to chat `chat_id`.
    Send { chat_id: String, text: String },
}

impl DeliveryStep {
    /// The text that this step delivers.
    pub open spec fn text_of(&self) -> Seq<char> {
        match self {
            DeliveryStep::Reply { text, .. } => text@,
            DeliveryStep::Send { text, .. } => text@,
        }
    }
}

/// The calls that deliver `msg`, in order: its text split into chunks of at
/// most `MAX_TEXT_LEN` characters; the first chunk is a reply to `reply_to` when
/// the message has one, every other chunk is sent to the chat. Delivery stops
/// at the first call that fails.
pub fn plan_delivery(msg: &OutboundMessage) -> (steps: Vec<DeliveryStep>)
    ensures
        steps@.len() == split_spec(msg.text@, MAX_TEXT_LEN as nat).len(),
        forall|i: int|
            0 <= i < steps@.len() ==> (#[trigger] steps@[i]).text_of() == split_spec(
                msg.text@,
                MAX_TEXT_LEN as nat,
            )[i],
        forall|i: int|
            0 <= i < steps@.len() ==> match #[trigger] steps@[i] {
                DeliveryStep::Reply { message_id, .. } => i == 0 && (msg.reply_to matches Some(r)
                    && message_id@ == r@),
                DeliveryStep::Send { chat_id, .. } => (i > 0 || msg.reply_to is None) && chat_id@
                    == msg.chat_id@,
            },
{
    let chunks = split_text(msg.text.as_str(), MAX_TEXT_LEN);
    let ghost cs = split_spec(msg.text@, MAX_TEXT_LEN as nat);
    let mut steps: Vec<DeliveryStep> = Vec::new();
    let mut i: usize = 0;
    while i < chunks.len()
        invariant
            views(chunks@) == cs,
            cs == split_spec(msg.text@, MAX_TEXT_LEN as nat),
            i <= chunks@.len(),
            steps@.len() == i,
            forall|j: int| 0 <= j < i ==> (#[trigger] steps@[j]).text_of() == cs[j],
            forall|j: int|
                0 <= j < i ==> match #[trigger] steps@[j] {
                    DeliveryStep::Reply { message_id, .. } => j == 0 && (msg.reply_to matches Some(
                        r,
                    ) && message_id@ == r@),
                    DeliveryStep::Send { chat_id, .. } => (j > 0 || msg.reply_to is None)
                        && chat_id@ == msg.chat_id@,
                },
        decreases chunks@.len() - i,
    {
        assert(cs[i as int] == chunks@[i as int]@);
        let text = chunks[i].clone();
        let step = if i == 0 {
            match &msg.reply_to {
                Some(r) => DeliveryStep::Reply { message_id: r.clone(), text },
                None => DeliveryStep::Send { chat_id: msg.chat_id.clone(), text },
            }
        } else {
            DeliveryStep::Send { chat_id: msg.chat_id.clone(), text }
        };
        steps.push(step);
        i = i + 1;
    }
    steps
}

/// Index of the first channel whose identifier is `target`.
pub open spec fn channel_index(ids: Seq<Seq<char>>, target: Seq<char>) -> Option<int>
    decreases ids.len(),
{
    if ids.len() == 0 {
        None
    } else if ids[0] == target {
        Some(0)
    } else {
        match channel_index(ids.drop_first(), target) {
            Some(k) => Some(k + 1),
            None => None,
        }
    }
}

/// The channel that an outbound message goes through: the first registered
/// channel whose identifier equals the message's channel.
pub fn find_channel(ids: &Vec<String>, target: &str) -> (r: Option<usize>)
    ensures
        match r {
            Some(k) => channel_index(crate::text::views(ids@), target@) == Some(k as int),
            None => channel_index(crate::text::views(ids@), target@) is None,
        },
{
    let ghost vs = crate::text::views(ids@);
    let mut i: usize = 0;
    while i < ids.len()
        invariant
            vs == crate::text::views(ids@),
            i <= ids@.len(),
            forall|j: int| 0 <= j < i ==> vs[j] != target@,
        decreases ids@.len() - i,
    {
        if str_eq(ids[i].as_str(), target) {
            proof {
                lemma_channel_index_first(vs, target@, i as int);
            }
            return Some(i);
        }
        i = i + 1;
    }
    proof {
        lemma_channel_index_none(vs, target@);
    }
    None
}

proof fn lemma_channel_index_first(ids: Seq<Seq<char>>, target: Seq<char>, k: int)
    requires
        0 <= k < ids.len(),
        ids[k] == target,
        forall|j: int| 0 <= j < k ==> ids[j] != target,
    ensures
        channel_index(ids, target) == Some(k),
    decreases k,
{
    if k > 0 {
        lemma_channel_index_first(ids.drop_first(), target, k - 1);
    }
}

proof fn lemma_channel_index_none(ids: Seq<Seq<char>>, target: Seq<char>)
    requires
        forall|j: int| 0 <= j < ids.len() ==> ids[j] != target,
    ensures
        channel_index(ids, target) is None,
    decreases ids.len(),
{
    if ids.len() > 0 {
        lemma_channel_index_none(ids.drop_first(), target);
    }
}

} // verus!
