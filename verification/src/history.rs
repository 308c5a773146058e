//! Conversation persistence and compaction: an append-only log of messages,
//! rollup summaries and transcript archives, keyed by channel identity.
//!
//! Writes are fire-and-forget: a `log_*`, `save_*` or `archive_*` call only
//! queues the write and returns — the caller never observes its success or
//! failure. A background executor later runs each queued write against the
//! store ([`ConversationLogger::run_pending_write`]); a failed write is
//! dropped, never retried and never surfaced. Reads are synchronous and
//! order-preserving.
//!
//! The store assigns creation times: a monotonic clock that advances on
//! every committed write, so each table is strictly ascending in
//! `created_at`.

use vstd::prelude::*;

verus! {

/// A persisted conversation message.
#[derive(Debug)]
pub struct ConversationMessage {
    pub id: String,
    pub channel_id: String,
    /// `"user"` or `"assistant"`.
    pub role: String,
    pub sender_name: Option<String>,
    pub sender_id: Option<String>,
    pub content: String,
    /// An open key-value document, serialized as JSON text. The key
    /// `discord_channel_name` carries a display name for the channel.
    pub metadata: Option<String>,
    pub created_at: u64,
}

/// A stored compaction summary: a rollup that replaces a prefix of a
/// channel's message history.
#[derive(Debug)]
pub struct CompactionSummary {
    pub id: String,
    pub channel_id: String,
    pub summary: String,
    pub turns_covered: usize,
    pub created_at: u64,
}

/// A raw transcript snapshot, preserved before a compaction rolls up the
/// corresponding messages.
#[derive(Debug)]
pub struct ArchiveRecord {
    pub id: String,
    pub channel_id: String,
    pub transcript: String,
    pub created_at: u64,
}

/// A known channel with its display name, latest activity and message count.
#[derive(Debug)]
pub struct ChannelInfo {
    pub channel_id: String,
    /// The most recent `discord_channel_name` from metadata, if available.
    pub channel_name: Option<String>,
    pub last_activity: u64,
    pub message_count: u64,
}

/// A message write handed to the background executor, before the store has
/// assigned its creation time.
#[derive(Debug)]
pub struct MessageDraft {
    pub id: String,
    pub channel_id: String,
    pub role: String,
    pub sender_name: Option<String>,
    pub sender_id: Option<String>,
    pub content: String,
    pub metadata: Option<String>,
}

/// A summary write handed to the background executor.
#[derive(Debug)]
pub struct SummaryDraft {
    pub id: String,
    pub channel_id: String,
    pub summary: String,
    pub turns_covered: usize,
}

/// An archive write handed to the background executor.
#[derive(Debug)]
pub struct ArchiveDraft {
    pub id: String,
    pub channel_id: String,
    pub transcript: String,
}

/// One queued fire-and-forget write.
#[derive(Debug)]
pub enum PendingWrite {
    Message(MessageDraft),
    Summary(SummaryDraft),
    Archive(ArchiveDraft),
}

/// The abstract state of the store: its three tables, the queue of writes
/// not yet executed, and the clock from which creation times are assigned.
pub ghost struct LogState {
    pub messages: Seq<ConversationMessage>,
    pub summaries: Seq<CompactionSummary>,
    pub archives: Seq<ArchiveRecord>,
    pub pending: Seq<PendingWrite>,
    pub clock: u64,
}

/// Message rows in strictly ascending creation order.
pub open spec fn msgs_ascending(s: Seq<ConversationMessage>) -> bool {
    forall|i: int, j: int| 0 <= i < j < s.len() ==> s[i].created_at < s[j].created_at
}

/// Summary rows in strictly ascending creation order.
pub open spec fn sums_ascending(s: Seq<CompactionSummary>) -> bool {
    forall|i: int, j: int| 0 <= i < j < s.len() ==> s[i].created_at < s[j].created_at
}

/// Archive rows in strictly ascending creation order.
pub open spec fn archs_ascending(s: Seq<ArchiveRecord>) -> bool {
    forall|i: int, j: int| 0 <= i < j < s.len() ==> s[i].created_at < s[j].created_at
}

/// The message row a committed draft becomes.
pub open spec fn message_of_draft(d: MessageDraft, created_at: u64) -> ConversationMessage {
    ConversationMessage {
        id: d.id,
        channel_id: d.channel_id,
        role: d.role,
        sender_name: d.sender_name,
        sender_id: d.sender_id,
        content: d.content,
        metadata: d.metadata,
        created_at,
    }
}

/// The summary row a committed draft becomes.
pub open spec fn summary_of_draft(d: SummaryDraft, created_at: u64) -> CompactionSummary {
    CompactionSummary {
        id: d.id,
        channel_id: d.channel_id,
        summary: d.summary,
        turns_covered: d.turns_covered,
        created_at,
    }
}

/// The archive row a committed draft becomes.
pub open spec fn archive_of_draft(d: ArchiveDraft, created_at: u64) -> ArchiveRecord {
    ArchiveRecord {
        id: d.id,
        channel_id: d.channel_id,
        transcript: d.transcript,
        created_at,
    }
}

/// What every fire-and-forget call leaves untouched: the durable tables and
/// the clock. Only the pending queue changes.
pub open spec fn tables_unchanged(pre: LogState, post: LogState) -> bool {
    &&& post.messages == pre.messages
    &&& post.summaries == pre.summaries
    &&& post.archives == pre.archives
    &&& post.clock == pre.clock
}

/// The messages of `channel` in `msgs`, in stored order.
pub open spec fn messages_in(
    msgs: Seq<ConversationMessage>,
    channel: Seq<char>,
) -> Seq<ConversationMessage>
    decreases msgs.len(),
{
    if msgs.len() == 0 {
        Seq::empty()
    } else {
        messages_in(msgs.drop_last(), channel) + (if msgs.last().channel_id@ == channel {
            seq![msgs.last()]
        } else {
            Seq::<ConversationMessage>::empty()
        })
    }
}

/// The summaries of `channel` in `sums`, in stored order.
pub open spec fn summaries_in(
    sums: Seq<CompactionSummary>,
    channel: Seq<char>,
) -> Seq<CompactionSummary>
    decreases sums.len(),
{
    if sums.len() == 0 {
        Seq::empty()
    } else {
        summaries_in(sums.drop_last(), channel) + (if sums.last().channel_id@ == channel {
            seq![sums.last()]
        } else {
            Seq::<CompactionSummary>::empty()
        })
    }
}

/// The last `limit` elements of `s` — all of them when `limit >= s.len()`.
pub open spec fn last_n<T>(s: Seq<T>, limit: int) -> Seq<T> {
    if limit >= s.len() {
        s
    } else {
        s.skip(s.len() - limit)
    }
}

/// Filtering by channel preserves the strictly ascending creation order,
/// and filtered rows are never newer than the last row of the log.
proof fn lemma_messages_in_ascending(msgs: Seq<ConversationMessage>, channel: Seq<char>)
    requires
        msgs_ascending(msgs),
    ensures
        msgs_ascending(messages_in(msgs, channel)),
        msgs.len() > 0 ==> forall|k: int|
            0 <= k < messages_in(msgs, channel).len() ==> (#[trigger] messages_in(
                msgs,
                channel,
            )[k]).created_at <= msgs.last().created_at,
    decreases msgs.len(),
{
    if msgs.len() > 0 {
        assert(msgs_ascending(msgs.drop_last())) by {
            assert(forall|i: int|
                0 <= i < msgs.len() - 1 ==> msgs.drop_last()[i] == msgs[i]);
        }
        lemma_messages_in_ascending(msgs.drop_last(), channel);
        if msgs.len() > 1 {
            assert(msgs.drop_last().last() == msgs[msgs.len() - 2]);
            assert(msgs[msgs.len() - 2].created_at < msgs.last().created_at);
        }
        if msgs.last().channel_id@ != channel {
            assert(messages_in(msgs, channel) =~= messages_in(msgs.drop_last(), channel));
        }
    }
}

/// The summaries counterpart of [`lemma_messages_in_ascending`].
proof fn lemma_summaries_in_ascending(sums: Seq<CompactionSummary>, channel: Seq<char>)
    requires
        sums_ascending(sums),
    ensures
        sums_ascending(summaries_in(sums, channel)),
        sums.len() > 0 ==> forall|k: int|
            0 <= k < summaries_in(sums, channel).len() ==> (#[trigger] summaries_in(
                sums,
                channel,
            )[k]).created_at <= sums.last().created_at,
    decreases sums.len(),
{
    if sums.len() > 0 {
        assert(sums_ascending(sums.drop_last())) by {
            assert(forall|i: int|
                0 <= i < sums.len() - 1 ==> sums.drop_last()[i] == sums[i]);
        }
        lemma_summaries_in_ascending(sums.drop_last(), channel);
        if sums.len() > 1 {
            assert(sums.drop_last().last() == sums[sums.len() - 2]);
            assert(sums[sums.len() - 2].created_at < sums.last().created_at);
        }
        if sums.last().channel_id@ != channel {
            assert(summaries_in(sums, channel) =~= summaries_in(sums.drop_last(), channel));
        }
    }
}

/// Clone an optional string, preserving its value.
fn clone_opt_string(o: &Option<String>) -> (r: Option<String>)
    ensures
        r == *o,
{
    match o {
        Some(s) => Some(s.clone()),
        None => None,
    }
}

impl Clone for ConversationMessage {
    fn clone(&self) -> (res: Self)
        ensures
            res == *self,
    {
        ConversationMessage {
            id: self.id.clone(),
            channel_id: self.channel_id.clone(),
            role: self.role.clone(),
            sender_name: clone_opt_string(&self.sender_name),
            sender_id: clone_opt_string(&self.sender_id),
            content: self.content.clone(),
            metadata: clone_opt_string(&self.metadata),
            created_at: self.created_at,
        }
    }
}

impl Clone for CompactionSummary {
    fn clone(&self) -> (res: Self)
        ensures
            res == *self,
    {
        CompactionSummary {
            id: self.id.clone(),
            channel_id: self.channel_id.clone(),
            summary: self.summary.clone(),
            turns_covered: self.turns_covered,
            created_at: self.created_at,
        }
    }
}

/// What `extract_channel_name` yields for a metadata document: a value that
/// depends on the document text alone.
pub uninterp spec fn channel_name_in(doc: Seq<char>) -> Option<Seq<char>>;

/// Relies on `serde_json::from_str`, `Value::get` and `Value::as_str`: the
/// extracted field depends on the document text alone. Yields the string
/// value at key `discord_channel_name`; `None` when the document does not
/// parse, holds no such key, or the value there is not a string.
#[verifier::external_body]
fn extract_channel_name(doc: &str) -> (r: Option<String>)
    ensures
        r.deep_view() == channel_name_in(doc@),
{
    let value: serde_json::Value = match serde_json::from_str(doc) {
        Ok(v) => v,
        Err(_) => return None,
    };
    value.get("discord_channel_name").and_then(|v| v.as_str()).map(|s| s.to_string())
}

/// The newest metadata document among the messages of `channel`, if any
/// message of the channel carries one.
pub open spec fn latest_metadata(
    msgs: Seq<ConversationMessage>,
    channel: Seq<char>,
) -> Option<Seq<char>>
    decreases msgs.len(),
{
    if msgs.len() == 0 {
        None
    } else if msgs.last().channel_id@ == channel && msgs.last().metadata is Some {
        Some(msgs.last().metadata.unwrap()@)
    } else {
        latest_metadata(msgs.drop_last(), channel)
    }
}

/// The display name the store resolves for `channel`: the
/// `discord_channel_name` field of the newest metadata document.
pub open spec fn spec_resolved_name(
    msgs: Seq<ConversationMessage>,
    channel: Seq<char>,
) -> Option<Seq<char>> {
    match latest_metadata(msgs, channel) {
        None => None,
        Some(doc) => channel_name_in(doc),
    }
}

/// Number of messages of `channel` in `msgs[lo..]`.
pub open spec fn count_in(msgs: Seq<ConversationMessage>, lo: int, channel: Seq<char>) -> int
    decreases msgs.len() - lo,
{
    if lo < 0 || lo >= msgs.len() {
        0
    } else {
        (if msgs[lo].channel_id@ == channel {
            1int
        } else {
            0int
        }) + count_in(msgs, lo + 1, channel)
    }
}

/// The creation time of the newest message of `channel` in `msgs[lo..]`.
pub open spec fn last_activity_in(
    msgs: Seq<ConversationMessage>,
    lo: int,
    channel: Seq<char>,
) -> Option<u64>
    decreases msgs.len() - lo,
{
    if lo < 0 || lo >= msgs.len() {
        None
    } else {
        match last_activity_in(msgs, lo + 1, channel) {
            Some(t) => Some(t),
            None => if msgs[lo].channel_id@ == channel {
                Some(msgs[lo].created_at)
            } else {
                None
            },
        }
    }
}

/// Whether some message of `channel` lies in `msgs[lo..]`.
pub open spec fn channel_present(msgs: Seq<ConversationMessage>, lo: int, channel: Seq<char>) -> bool {
    exists|p: int| lo <= p < msgs.len() && (#[trigger] msgs[p]).channel_id@ == channel
}

/// The distinct channels of `msgs[lo..]`, ordered by newest activity first.
pub open spec fn channels_in(msgs: Seq<ConversationMessage>, lo: int) -> Seq<Seq<char>>
    decreases msgs.len() - lo,
{
    if lo < 0 || lo >= msgs.len() {
        Seq::empty()
    } else {
        let rest = channels_in(msgs, lo + 1);
        if rest.contains(msgs[lo].channel_id@) {
            rest
        } else {
            rest.push(msgs[lo].channel_id@)
        }
    }
}

/// Ghost image of a [`ChannelInfo`] row.
pub ghost struct ChannelAbs {
    pub channel_id: Seq<char>,
    pub channel_name: Option<Seq<char>>,
    pub last_activity: u64,
    pub message_count: int,
}

/// The channel directory of `msgs[lo..]`: one row per distinct channel, with
/// its message count and newest activity taken over that range and its
/// display name resolved over the whole log, ordered by newest activity
/// first.
pub open spec fn channel_directory_at(msgs: Seq<ConversationMessage>, lo: int) -> Seq<ChannelAbs> {
    Seq::new(
        channels_in(msgs, lo).len(),
        |k: int|
            ChannelAbs {
                channel_id: channels_in(msgs, lo)[k],
                channel_name: spec_resolved_name(msgs, channels_in(msgs, lo)[k]),
                last_activity: last_activity_in(msgs, lo, channels_in(msgs, lo)[k]).unwrap(),
                message_count: count_in(msgs, lo, channels_in(msgs, lo)[k]),
            },
    )
}

/// The channel directory of the whole log.
pub open spec fn channel_directory(msgs: Seq<ConversationMessage>) -> Seq<ChannelAbs> {
    channel_directory_at(msgs, 0)
}

impl ChannelInfo {
    /// Ghost image of this row.
    pub open spec fn abs(self) -> ChannelAbs {
        ChannelAbs {
            channel_id: self.channel_id@,
            channel_name: self.channel_name.deep_view(),
            last_activity: self.last_activity,
            message_count: self.message_count as int,
        }
    }
}

/// Ghost images of the rows of a channel listing.
pub open spec fn abs_of(rows: Seq<ChannelInfo>) -> Seq<ChannelAbs> {
    rows.map_values(|c: ChannelInfo| c.abs())
}

/// The count of a range is never negative and never exceeds its length.
proof fn lemma_count_bounds(msgs: Seq<ConversationMessage>, lo: int, channel: Seq<char>)
    ensures
        0 <= count_in(msgs, lo, channel),
        0 <= lo <= msgs.len() ==> count_in(msgs, lo, channel) <= msgs.len() - lo,
    decreases msgs.len() - lo,
{
    if 0 <= lo < msgs.len() {
        lemma_count_bounds(msgs, lo + 1, channel);
    }
}

/// The channel of every row in the range is listed for that range.
proof fn lemma_row_channel_listed(msgs: Seq<ConversationMessage>, lo: int, p: int)
    requires
        0 <= lo <= p < msgs.len(),
    ensures
        channels_in(msgs, lo).contains(msgs[p].channel_id@),
    decreases p - lo,
{
    let rest = channels_in(msgs, lo + 1);
    if p == lo {
        if !rest.contains(msgs[lo].channel_id@) {
            assert(channels_in(msgs, lo).last() == msgs[lo].channel_id@);
        }
    } else {
        lemma_row_channel_listed(msgs, lo + 1, p);
        let k = choose|k: int| 0 <= k < rest.len() && rest[k] == msgs[p].channel_id@;
        assert(channels_in(msgs, lo)[k] == msgs[p].channel_id@);
    }
}

/// A channel not listed for a range has no rows and no activity there.
proof fn lemma_unlisted_channel(msgs: Seq<ConversationMessage>, lo: int, channel: Seq<char>)
    requires
        !channels_in(msgs, lo).contains(channel),
    ensures
        count_in(msgs, lo, channel) == 0,
        last_activity_in(msgs, lo, channel) is None,
        lo >= 0 ==> !channel_present(msgs, lo, channel),
    decreases msgs.len() - lo,
{
    if 0 <= lo < msgs.len() {
        let rest = channels_in(msgs, lo + 1);
        assert(msgs[lo].channel_id@ != channel) by {
            lemma_row_channel_listed(msgs, lo, lo);
        }
        assert(!rest.contains(channel)) by {
            if rest.contains(channel) {
                let k = choose|k: int| 0 <= k < rest.len() && rest[k] == channel;
                assert(channels_in(msgs, lo)[k] == channel);
            }
        }
        lemma_unlisted_channel(msgs, lo + 1, channel);
        assert(!channel_present(msgs, lo, channel)) by {
            if channel_present(msgs, lo, channel) {
                let p = choose|p: int|
                    lo <= p < msgs.len() && (#[trigger] msgs[p]).channel_id@ == channel;
                assert(p >= lo + 1);
                assert(channel_present(msgs, lo + 1, channel));
            }
        }
    }
}

/// A channel listed for a range has rows and activity there.
proof fn lemma_listed_channel(msgs: Seq<ConversationMessage>, lo: int, channel: Seq<char>)
    requires
        channels_in(msgs, lo).contains(channel),
    ensures
        channel_present(msgs, lo, channel),
        count_in(msgs, lo, channel) >= 1,
        last_activity_in(msgs, lo, channel) is Some,
    decreases msgs.len() - lo,
{
    assert(0 <= lo < msgs.len());
    lemma_count_bounds(msgs, lo + 1, channel);
    if msgs[lo].channel_id@ == channel {
        assert(lo <= lo < msgs.len() && msgs[lo].channel_id@ == channel);
    } else {
        let rest = channels_in(msgs, lo + 1);
        assert(rest.contains(channel)) by {
            let k = choose|k: int|
                0 <= k < channels_in(msgs, lo).len() && channels_in(msgs, lo)[k] == channel;
            if k < rest.len() {
                assert(rest[k] == channel);
            }
        }
        lemma_listed_channel(msgs, lo + 1, channel);
        let p = choose|p: int| lo + 1 <= p < msgs.len() && (#[trigger] msgs[p]).channel_id@ == channel;
        assert(lo <= p < msgs.len() && msgs[p].channel_id@ == channel);
    }
}

/// The channel listing of a range holds no duplicates.
proof fn lemma_channels_distinct(msgs: Seq<ConversationMessage>, lo: int)
    ensures
        forall|k1: int, k2: int|
            0 <= k1 < k2 < channels_in(msgs, lo).len() ==> channels_in(msgs, lo)[k1] != channels_in(
                msgs,
                lo,
            )[k2],
    decreases msgs.len() - lo,
{
    if 0 <= lo < msgs.len() {
        lemma_channels_distinct(msgs, lo + 1);
        let rest = channels_in(msgs, lo + 1);
        if !rest.contains(msgs[lo].channel_id@) {
            assert(forall|k: int| 0 <= k < rest.len() ==> rest[k] != msgs[lo].channel_id@);
            assert(forall|k: int|
                0 <= k < rest.len() ==> channels_in(msgs, lo)[k] == rest[k]);
        }
    }
}

/// An activity reported for a range is the creation time of one of its rows.
proof fn lemma_last_activity_witness(msgs: Seq<ConversationMessage>, lo: int, channel: Seq<char>)
    requires
        last_activity_in(msgs, lo, channel) is Some,
    ensures
        exists|p: int|
            lo <= p < msgs.len() && (#[trigger] msgs[p]).channel_id@ == channel && msgs[p].created_at
                == last_activity_in(msgs, lo, channel).unwrap(),
    decreases msgs.len() - lo,
{
    assert(0 <= lo < msgs.len());
    if last_activity_in(msgs, lo + 1, channel) is Some {
        lemma_last_activity_witness(msgs, lo + 1, channel);
        let p = choose|p: int|
            lo + 1 <= p < msgs.len() && (#[trigger] msgs[p]).channel_id@ == channel
                && msgs[p].created_at == last_activity_in(msgs, lo + 1, channel).unwrap();
        assert(lo <= p < msgs.len() && msgs[p].channel_id@ == channel && msgs[p].created_at
            == last_activity_in(msgs, lo, channel).unwrap());
    } else {
        assert(lo <= lo < msgs.len() && msgs[lo].channel_id@ == channel && msgs[lo].created_at
            == last_activity_in(msgs, lo, channel).unwrap());
    }
}

/// A channel directory ordered by newest activity first, strictly.
pub open spec fn activity_descending(d: Seq<ChannelAbs>) -> bool {
    forall|k1: int, k2: int|
        0 <= k1 < k2 < d.len() ==> d[k1].last_activity > d[k2].last_activity
}

/// On a log in ascending creation order, the channel directory lists the
/// most recently active channel first, strictly descending.
pub proof fn lemma_directory_activity_descending(msgs: Seq<ConversationMessage>, lo: int)
    requires
        msgs_ascending(msgs),
        lo >= 0,
    ensures
        activity_descending(channel_directory_at(msgs, lo)),
    decreases msgs.len() - lo,
{
    if lo < msgs.len() {
        lemma_directory_activity_descending(msgs, lo + 1);
        let pre = channels_in(msgs, lo + 1);
        let d0 = channel_directory_at(msgs, lo + 1);
        let d1 = channel_directory_at(msgs, lo);
        let ch = msgs[lo].channel_id@;
        assert forall|k: int|
            0 <= k < pre.len() implies last_activity_in(msgs, lo, pre[k]) == last_activity_in(
            msgs,
            lo + 1,
            pre[k],
        ) && last_activity_in(msgs, lo + 1, pre[k]) is Some by {
            assert(0 <= k < pre.len() && pre[k] == pre[k]);
            lemma_listed_channel(msgs, lo + 1, pre[k]);
        }
        if pre.contains(ch) {
            assert(channels_in(msgs, lo) == pre);
            assert forall|k1: int, k2: int|
                0 <= k1 < k2 < d1.len() implies d1[k1].last_activity > d1[k2].last_activity by {
                assert(d0[k1].last_activity > d0[k2].last_activity);
                assert(d1[k1].last_activity == d0[k1].last_activity);
                assert(d1[k2].last_activity == d0[k2].last_activity);
            }
        } else {
            assert(channels_in(msgs, lo) == pre.push(ch));
            lemma_unlisted_channel(msgs, lo + 1, ch);
            assert forall|k: int|
                0 <= k < pre.len() implies d1[k].last_activity > msgs[lo].created_at by {
                assert(0 <= k < pre.len() && pre[k] == pre[k]);
                lemma_last_activity_witness(msgs, lo + 1, pre[k]);
                let p = choose|p: int|
                    lo + 1 <= p < msgs.len() && (#[trigger] msgs[p]).channel_id@ == pre[k]
                        && msgs[p].created_at == last_activity_in(msgs, lo + 1, pre[k]).unwrap();
                assert(msgs[lo].created_at < msgs[p].created_at);
                assert(d1[k].last_activity == last_activity_in(msgs, lo, pre[k]).unwrap());
            }
            assert forall|k1: int, k2: int|
                0 <= k1 < k2 < d1.len() implies d1[k1].last_activity > d1[k2].last_activity by {
                if k2 < pre.len() {
                    assert(d0[k1].last_activity > d0[k2].last_activity);
                    assert(d1[k1].last_activity == d0[k1].last_activity);
                    assert(d1[k2].last_activity == d0[k2].last_activity);
                } else {
                    assert(d1[k2].last_activity == msgs[lo].created_at);
                }
            }
        }
    }
}

/// First channel at or after `lo` whose resolved display name, case-folded,
/// equals the folded query.
pub open spec fn find_exact(chs: Seq<ChannelAbs>, lo: int, q: Seq<char>) -> Option<Seq<char>>
    decreases chs.len() - lo,
{
    if lo < 0 || lo >= chs.len() {
        None
    } else if chs[lo].channel_name matches Some(n) && crate::text::lower_of(n) == q {
        Some(chs[lo].channel_id)
    } else {
        find_exact(chs, lo + 1, q)
    }
}

/// First channel at or after `lo` whose folded display name begins with the
/// folded query.
pub open spec fn find_prefix(chs: Seq<ChannelAbs>, lo: int, q: Seq<char>) -> Option<Seq<char>>
    decreases chs.len() - lo,
{
    if lo < 0 || lo >= chs.len() {
        None
    } else if chs[lo].channel_name matches Some(n) && crate::text::starts_with(
        crate::text::lower_of(n),
        q,
    ) {
        Some(chs[lo].channel_id)
    } else {
        find_prefix(chs, lo + 1, q)
    }
}

/// First channel at or after `lo` whose folded display name contains the
/// folded query.
pub open spec fn find_name_contains(chs: Seq<ChannelAbs>, lo: int, q: Seq<char>) -> Option<
    Seq<char>,
>
    decreases chs.len() - lo,
{
    if lo < 0 || lo >= chs.len() {
        None
    } else if chs[lo].channel_name matches Some(n) && crate::text::contains_seq(
        crate::text::lower_of(n),
        q,
    ) {
        Some(chs[lo].channel_id)
    } else {
        find_name_contains(chs, lo + 1, q)
    }
}

/// First channel at or after `lo` whose raw identifier contains the folded
/// query.
pub open spec fn find_id_contains(chs: Seq<ChannelAbs>, lo: int, q: Seq<char>) -> Option<Seq<char>>
    decreases chs.len() - lo,
{
    if lo < 0 || lo >= chs.len() {
        None
    } else if crate::text::contains_seq(chs[lo].channel_id, q) {
        Some(chs[lo].channel_id)
    } else {
        find_id_contains(chs, lo + 1, q)
    }
}

/// The cascading name match over a channel directory: exact display-name
/// match, then prefix, then substring of the display name, then substring of
/// the raw channel identifier — each tier tried only when every previous one
/// found nothing; within a tier the first match wins.
pub open spec fn spec_find_channel(chs: Seq<ChannelAbs>, q: Seq<char>) -> Option<Seq<char>> {
    if find_exact(chs, 0, q) is Some {
        find_exact(chs, 0, q)
    } else if find_prefix(chs, 0, q) is Some {
        find_prefix(chs, 0, q)
    } else if find_name_contains(chs, 0, q) is Some {
        find_name_contains(chs, 0, q)
    } else {
        find_id_contains(chs, 0, q)
    }
}

/// Relies on `uuid::Uuid::new_v4` and its hyphenated `Display` form: a fresh
/// random version-4 UUID rendered as 36 characters. Nothing more can be
/// promised of a random identifier.
#[verifier::external_body]
fn new_write_id() -> (r: String)
    ensures
        r@.len() == 36,
{
    uuid::Uuid::new_v4().to_string()
}

/// Persists conversation messages, compaction summaries and transcript
/// archives, keyed by channel identity.
pub struct ConversationLogger {
    messages: Vec<ConversationMessage>,
    summaries: Vec<CompactionSummary>,
    archives: Vec<ArchiveRecord>,
    pending: Vec<PendingWrite>,
    clock: u64,
}

impl View for ConversationLogger {
    type V = LogState;

    closed spec fn view(&self) -> LogState {
        LogState {
            messages: self.messages@,
            summaries: self.summaries@,
            archives: self.archives@,
            pending: self.pending@,
            clock: self.clock,
        }
    }
}

/// Well-formedness of the store: each table is strictly ascending in
/// `created_at`, and no stored creation time exceeds the clock.
pub open spec fn inv(s: LogState) -> bool {
    &&& msgs_ascending(s.messages)
    &&& sums_ascending(s.summaries)
    &&& archs_ascending(s.archives)
    &&& forall|i: int| 0 <= i < s.messages.len() ==> (#[trigger] s.messages[i]).created_at <= s.clock
    &&& forall|i: int|
        0 <= i < s.summaries.len() ==> (#[trigger] s.summaries[i]).created_at <= s.clock
    &&& forall|i: int| 0 <= i < s.archives.len() ==> (#[trigger] s.archives[i]).created_at <= s.clock
}

impl ConversationLogger {
    /// See [`inv`].
    pub open spec fn wf(&self) -> bool {
        inv(self@)
    }

    /// An empty store.
    pub fn new() -> (r: ConversationLogger)
        ensures
            r.wf(),
            r@.messages == Seq::<ConversationMessage>::empty(),
            r@.summaries == Seq::<CompactionSummary>::empty(),
            r@.archives == Seq::<ArchiveRecord>::empty(),
            r@.pending == Seq::<PendingWrite>::empty(),
            r@.clock == 0,
    {
        ConversationLogger {
            messages: Vec::new(),
            summaries: Vec::new(),
            archives: Vec::new(),
            pending: Vec::new(),
            clock: 0,
        }
    }

    /// Queue a user message for persistence. Fire-and-forget: the call never
    /// blocks on the store and never reports an error — it only appends one
    /// message write to the pending queue.
    pub fn log_user_message(
        &mut self,
        channel_id: &str,
        sender_name: &str,
        sender_id: &str,
        content: &str,
        metadata: Option<String>,
    )
        ensures
            old(self).wf() ==> final(self).wf(),
            tables_unchanged(old(self)@, final(self)@),
            final(self)@.pending.len() == old(self)@.pending.len() + 1,
            final(self)@.pending.drop_last() == old(self)@.pending,
            (final(self)@.pending.last() matches PendingWrite::Message(d) && {
                &&& d.channel_id@ == channel_id@
                &&& d.role@ == "user"@
                &&& (d.sender_name matches Some(n) && n@ == sender_name@)
                &&& (d.sender_id matches Some(n) && n@ == sender_id@)
                &&& d.content@ == content@
                &&& d.metadata == metadata
                &&& d.id@.len() == 36
            }),
    {
        let id = new_write_id();
        self.pending.push(
            PendingWrite::Message(
                MessageDraft {
                    id,
                    channel_id: channel_id.to_owned(),
                    role: "user".to_owned(),
                    sender_name: Some(sender_name.to_owned()),
                    sender_id: Some(sender_id.to_owned()),
                    content: content.to_owned(),
                    metadata,
                },
            ),
        );
        proof {
            assert(self.pending@.drop_last() =~= old(self).pending@);
        }
    }

    /// Queue an assistant message for persistence. Fire-and-forget, like
    /// [`ConversationLogger::log_user_message`]; assistant rows carry no
    /// sender and no metadata.
    pub fn log_bot_message(&mut self, channel_id: &str, content: &str)
        ensures
            old(self).wf() ==> final(self).wf(),
            tables_unchanged(old(self)@, final(self)@),
            final(self)@.pending.len() == old(self)@.pending.len() + 1,
            final(self)@.pending.drop_last() == old(self)@.pending,
            (final(self)@.pending.last() matches PendingWrite::Message(d) && {
                &&& d.channel_id@ == channel_id@
                &&& d.role@ == "assistant"@
                &&& d.sender_name is None
                &&& d.sender_id is None
                &&& d.content@ == content@
                &&& d.metadata is None
                &&& d.id@.len() == 36
            }),
    {
        let id = new_write_id();
        self.pending.push(
            PendingWrite::Message(
                MessageDraft {
                    id,
                    channel_id: channel_id.to_owned(),
                    role: "assistant".to_owned(),
                    sender_name: None,
                    sender_id: None,
                    content: content.to_owned(),
                    metadata: None,
                },
            ),
        );
        proof {
            assert(self.pending@.drop_last() =~= old(self).pending@);
        }
    }

    /// Queue a compaction summary for persistence. Fire-and-forget.
    pub fn save_compaction_summary(&mut self, channel_id: &str, summary: &str, turns_covered: usize)
        ensures
            old(self).wf() ==> final(self).wf(),
            tables_unchanged(old(self)@, final(self)@),
            final(self)@.pending.len() == old(self)@.pending.len() + 1,
            final(self)@.pending.drop_last() == old(self)@.pending,
            (final(self)@.pending.last() matches PendingWrite::Summary(d) && {
                &&& d.channel_id@ == channel_id@
                &&& d.summary@ == summary@
                &&& d.turns_covered == turns_covered
                &&& d.id@.len() == 36
            }),
    {
        let id = new_write_id();
        self.pending.push(
            PendingWrite::Summary(
                SummaryDraft {
                    id,
                    channel_id: channel_id.to_owned(),
                    summary: summary.to_owned(),
                    turns_covered,
                },
            ),
        );
        proof {
            assert(self.pending@.drop_last() =~= old(self).pending@);
        }
    }

    /// Queue a raw transcript snapshot, taken before a compaction rolls up
    /// the corresponding messages. Fire-and-forget.
    pub fn archive_transcript(&mut self, channel_id: &str, transcript_json: &str)
        ensures
            old(self).wf() ==> final(self).wf(),
            tables_unchanged(old(self)@, final(self)@),
            final(self)@.pending.len() == old(self)@.pending.len() + 1,
            final(self)@.pending.drop_last() == old(self)@.pending,
            (final(self)@.pending.last() matches PendingWrite::Archive(d) && {
                &&& d.channel_id@ == channel_id@
                &&& d.transcript@ == transcript_json@
                &&& d.id@.len() == 36
            }),
    {
        let id = new_write_id();
        self.pending.push(
            PendingWrite::Archive(
                ArchiveDraft { id, channel_id: channel_id.to_owned(), transcript: transcript_json.to_owned() },
            ),
        );
        proof {
            assert(self.pending@.drop_last() =~= old(self).pending@);
        }
    }

    /// Number of queued writes not yet executed.
    pub fn pending_count(&self) -> (r: usize)
        ensures
            r == self@.pending.len(),
    {
        self.pending.len()
    }

    /// Execute one queued write against the store, as the background worker
    /// pool does. `store_ok` says whether the store accepted the write: on
    /// success it is committed with the next creation time; on failure it is
    /// dropped — not retried, and no error reaches the caller that queued
    /// it. Queued writes may be executed in any order.
    pub fn run_pending_write(&mut self, index: usize, store_ok: bool)
        requires
            old(self).wf(),
            index < old(self)@.pending.len(),
            old(self)@.clock < u64::MAX,
        ensures
            final(self).wf(),
            final(self)@.pending == old(self)@.pending.remove(index as int),
            !store_ok ==> tables_unchanged(old(self)@, final(self)@),
            store_ok ==> final(self)@.clock == old(self)@.clock + 1,
            store_ok ==> match old(self)@.pending[index as int] {
                PendingWrite::Message(d) => {
                    &&& final(self)@.messages == old(self)@.messages.push(
                        message_of_draft(d, (old(self)@.clock + 1) as u64),
                    )
                    &&& final(self)@.summaries == old(self)@.summaries
                    &&& final(self)@.archives == old(self)@.archives
                },
                PendingWrite::Summary(d) => {
                    &&& final(self)@.summaries == old(self)@.summaries.push(
                        summary_of_draft(d, (old(self)@.clock + 1) as u64),
                    )
                    &&& final(self)@.messages == old(self)@.messages
                    &&& final(self)@.archives == old(self)@.archives
                },
                PendingWrite::Archive(d) => {
                    &&& final(self)@.archives == old(self)@.archives.push(
                        archive_of_draft(d, (old(self)@.clock + 1) as u64),
                    )
                    &&& final(self)@.messages == old(self)@.messages
                    &&& final(self)@.summaries == old(self)@.summaries
                },
            },
    {
        let w = self.pending.remove(index);
        if !store_ok {
            return;
        }
        self.clock = self.clock + 1;
        match w {
            PendingWrite::Message(d) => {
                self.messages.push(
                    ConversationMessage {
                        id: d.id,
                        channel_id: d.channel_id,
                        role: d.role,
                        sender_name: d.sender_name,
                        sender_id: d.sender_id,
                        content: d.content,
                        metadata: d.metadata,
                        created_at: self.clock,
                    },
                );
            },
            PendingWrite::Summary(d) => {
                self.summaries.push(
                    CompactionSummary {
                        id: d.id,
                        channel_id: d.channel_id,
                        summary: d.summary,
                        turns_covered: d.turns_covered,
                        created_at: self.clock,
                    },
                );
            },
            PendingWrite::Archive(d) => {
                self.archives.push(
                    ArchiveRecord {
                        id: d.id,
                        channel_id: d.channel_id,
                        transcript: d.transcript,
                        created_at: self.clock,
                    },
                );
            },
        }
    }

    /// The most recent `limit` messages of a channel, oldest first.
    ///
    /// The rows are fetched newest-first and reordered, so callers always
    /// see chronological order: strictly ascending `created_at`, and at most
    /// `limit` rows.
    pub fn load_recent(&self, channel_id: &str, limit: usize) -> (r: Vec<ConversationMessage>)
        requires
            self.wf(),
        ensures
            r@ == last_n(messages_in(self@.messages, channel_id@), limit as int),
            r@.len() <= limit,
            msgs_ascending(r@),
    {
        let mut all: Vec<ConversationMessage> = Vec::new();
        let mut i: usize = 0;
        while i < self.messages.len()
            invariant
                i <= self.messages@.len(),
                all@ == messages_in(self.messages@.take(i as int), channel_id@),
            decreases self.messages@.len() - i,
        {
            let m = &self.messages[i];
            proof {
                assert(self.messages@.take(i + 1).drop_last() =~= self.messages@.take(i as int));
                assert(self.messages@.take(i + 1).last() == self.messages@[i as int]);
            }
            if crate::text::str_eq(m.channel_id.as_str(), channel_id) {
                all.push(m.clone());
                proof {
                    assert(all@ =~= messages_in(self.messages@.take(i + 1), channel_id@));
                }
            } else {
                proof {
                    assert(all@ =~= messages_in(self.messages@.take(i + 1), channel_id@));
                }
            }
            i += 1;
        }
        proof {
            assert(self.messages@.take(self.messages@.len() as int) =~= self.messages@);
        }
        let start = if all.len() > limit {
            all.len() - limit
        } else {
            0
        };
        let mut r: Vec<ConversationMessage> = Vec::new();
        let mut k: usize = start;
        while k < all.len()
            invariant
                start <= k <= all@.len(),
                start == if all@.len() > limit {
                    all@.len() - limit
                } else {
                    0int
                },
                r@ == all@.subrange(start as int, k as int),
                all@ == messages_in(self@.messages, channel_id@),
            decreases all@.len() - k,
        {
            let m = &all[k];
            r.push(m.clone());
            proof {
                assert(r@ =~= all@.subrange(start as int, k + 1));
            }
            k += 1;
        }
        proof {
            assert(r@ == last_n(all@, limit as int)) by {
                if all@.len() > limit {
                    assert(all@.skip(all@.len() - limit) =~= all@.subrange(
                        start as int,
                        all@.len() as int,
                    ));
                } else {
                    assert(all@ =~= all@.subrange(start as int, all@.len() as int));
                }
            }
            lemma_messages_in_ascending(self@.messages, channel_id@);
            assert(msgs_ascending(r@)) by {
                assert(forall|a: int, b: int|
                    0 <= a < b < r@.len() ==> r@[a] == all@[start + a] && r@[b] == all@[start + b]);
            }
        }
        r
    }

    /// Identical contract to [`ConversationLogger::load_recent`], for
    /// arbitrary channels: cross-channel inspection and audit rather than
    /// the active conversation.
    pub fn load_channel_transcript(&self, channel_id: &str, limit: usize) -> (r: Vec<
        ConversationMessage,
    >)
        requires
            self.wf(),
        ensures
            r@ == last_n(messages_in(self@.messages, channel_id@), limit as int),
            r@.len() <= limit,
            msgs_ascending(r@),
    {
        self.load_recent(channel_id, limit)
    }

    /// All compaction summaries of a channel, oldest first, so they can be
    /// replayed in the order they were produced.
    pub fn load_compaction_summaries(&self, channel_id: &str) -> (r: Vec<CompactionSummary>)
        requires
            self.wf(),
        ensures
            r@ == summaries_in(self@.summaries, channel_id@),
            sums_ascending(r@),
    {
        let mut r: Vec<CompactionSummary> = Vec::new();
        let mut i: usize = 0;
        while i < self.summaries.len()
            invariant
                i <= self.summaries@.len(),
                r@ == summaries_in(self.summaries@.take(i as int), channel_id@),
            decreases self.summaries@.len() - i,
        {
            let s = &self.summaries[i];
            proof {
                assert(self.summaries@.take(i + 1).drop_last() =~= self.summaries@.take(i as int));
                assert(self.summaries@.take(i + 1).last() == self.summaries@[i as int]);
            }
            if crate::text::str_eq(s.channel_id.as_str(), channel_id) {
                r.push(s.clone());
                proof {
                    assert(r@ =~= summaries_in(self.summaries@.take(i + 1), channel_id@));
                }
            } else {
                proof {
                    assert(r@ =~= summaries_in(self.summaries@.take(i + 1), channel_id@));
                }
            }
            i += 1;
        }
        proof {
            assert(self.summaries@.take(self.summaries@.len() as int) =~= self.summaries@);
            lemma_summaries_in_ascending(self@.summaries, channel_id@);
        }
        r
    }

    /// All known channels, one row per channel: its message count and newest
    /// activity, ordered by most recent activity first, with a display name
    /// resolved from the newest metadata that carries one.
    pub fn list_channels(&self) -> (r: Vec<ChannelInfo>)
        requires
            self.wf(),
        ensures
            abs_of(r@) == channel_directory(self@.messages),
    {
        let ghost msgs = self.messages@;
        let mut out: Vec<ChannelInfo> = Vec::new();
        let mut i: usize = self.messages.len();
        proof {
            assert(abs_of(out@) =~= channel_directory_at(msgs, i as int));
        }
        while i > 0
            invariant
                self.wf(),
                msgs == self.messages@,
                i <= msgs.len(),
                msgs.len() <= usize::MAX,
                abs_of(out@) == channel_directory_at(msgs, i as int),
            decreases i,
        {
            i -= 1;
            let m = &self.messages[i];
            let ghost ch = msgs[i as int].channel_id@;
            let ghost pre = channels_in(msgs, i + 1);
            proof {
                lemma_channels_distinct(msgs, i + 1);
                assert(abs_of(out@).len() == pre.len());
                assert forall|k: int| 0 <= k < pre.len() implies pre.contains(pre[k]) by {
                    assert(0 <= k < pre.len() && pre[k] == pre[k]);
                }
                assert forall|k: int|
                    0 <= k < pre.len() implies last_activity_in(msgs, i + 1, pre[k]) is Some by {
                    lemma_listed_channel(msgs, i + 1, pre[k]);
                }
            }
            let n = out.len();
            let mut j: usize = 0;
            let mut found: usize = n;
            while j < n
                invariant
                    j <= n,
                    n == out@.len(),
                    found == n || (found < n && out@[found as int].channel_id@
                        == m.channel_id@),
                    found == n ==> forall|t: int|
                        0 <= t < j ==> (#[trigger] out@[t]).channel_id@ != m.channel_id@,
                decreases n - j,
            {
                if found == n && crate::text::str_eq(
                    out[j].channel_id.as_str(),
                    m.channel_id.as_str(),
                ) {
                    found = j;
                }
                j += 1;
            }
            if found < n {
                proof {
                    assert(abs_of(out@)[found as int] == out@[found as int].abs());
                    assert(pre[found as int] == ch);
                    assert(pre.contains(ch));
                    lemma_count_bounds(msgs, i + 1, ch);
                    assert(out@[found as int].message_count as int == count_in(msgs, i + 1, ch));
                }
                let ghost out0 = out@;
                let c = out[found].message_count;
                out[found].message_count = c + 1;
                proof {
                    let post = channels_in(msgs, i as int);
                    assert(post == pre);
                    assert(out@ == out0.update(found as int, out@[found as int]));
                    assert forall|k: int|
                        0 <= k < pre.len() implies abs_of(out@)[k] == channel_directory_at(
                        msgs,
                        i as int,
                    )[k] by {
                        assert(abs_of(out@)[k] == out@[k].abs());
                        assert(abs_of(out0)[k] == out0[k].abs());
                        assert(out0[k].abs() == channel_directory_at(msgs, i + 1)[k]);
                        if k != found {
                            assert(out@[k] == out0[k]);
                            assert(pre[k] != ch);
                            assert(count_in(msgs, i as int, pre[k]) == count_in(
                                msgs,
                                i + 1,
                                pre[k],
                            ));
                            assert(last_activity_in(msgs, i as int, pre[k]) == last_activity_in(
                                msgs,
                                i + 1,
                                pre[k],
                            ));
                        } else {
                            assert(out@[k].channel_id == out0[k].channel_id);
                            assert(out@[k].channel_name == out0[k].channel_name);
                            assert(out@[k].last_activity == out0[k].last_activity);
                            assert(out@[k].message_count == c + 1);
                            assert(count_in(msgs, i as int, ch) == 1 + count_in(msgs, i + 1, ch));
                            assert(last_activity_in(msgs, i as int, ch) == last_activity_in(
                                msgs,
                                i + 1,
                                ch,
                            ));
                        }
                    }
                    assert(abs_of(out@) =~= channel_directory_at(msgs, i as int));
                }
            } else {
                proof {
                    assert(!pre.contains(ch)) by {
                        if pre.contains(ch) {
                            let k = choose|k: int| 0 <= k < pre.len() && pre[k] == ch;
                            assert(abs_of(out@)[k] == out@[k].abs());
                            assert(out@[k].channel_id@ == ch);
                        }
                    }
                    lemma_unlisted_channel(msgs, i + 1, ch);
                }
                let name = self.resolve_channel_name(m.channel_id.as_str());
                let ghost out0 = out@;
                out.push(
                    ChannelInfo {
                        channel_id: m.channel_id.clone(),
                        channel_name: name,
                        last_activity: m.created_at,
                        message_count: 1,
                    },
                );
                proof {
                    let post = channels_in(msgs, i as int);
                    assert(post == pre.push(ch));
                    assert(forall|t: int| 0 <= t < pre.len() ==> pre[t] != ch);
                    assert forall|k: int|
                        0 <= k < post.len() implies abs_of(out@)[k] == channel_directory_at(
                        msgs,
                        i as int,
                    )[k] by {
                        assert(abs_of(out@)[k] == out@[k].abs());
                        if k < pre.len() {
                            assert(post[k] == pre[k]);
                            assert(out@[k] == out0[k]);
                            assert(abs_of(out0)[k] == out0[k].abs());
                            assert(out0[k].abs() == channel_directory_at(msgs, i + 1)[k]);
                            assert(pre[k] != ch);
                            assert(count_in(msgs, i as int, pre[k]) == count_in(
                                msgs,
                                i + 1,
                                pre[k],
                            ));
                            assert(last_activity_in(msgs, i as int, pre[k]) == last_activity_in(
                                msgs,
                                i + 1,
                                pre[k],
                            ));
                        } else {
                            assert(k == pre.len());
                            assert(post[k] == ch);
                            assert(out@[k] == out@.last());
                            assert(out@[k].channel_id@ == ch);
                            assert(count_in(msgs, i as int, ch) == 1 + count_in(msgs, i + 1, ch));
                            assert(last_activity_in(msgs, i as int, ch) == Some(
                                msgs[i as int].created_at,
                            ));
                        }
                    }
                    assert(abs_of(out@) =~= channel_directory_at(msgs, i as int));
                }
            }
        }
        out
    }

    /// Find a channel by display name: a case-insensitive cascade over the
    /// channel directory — exact match, then prefix, then substring of the
    /// display name, then substring of the raw channel identifier. The first
    /// match wins and no tier is tried once an earlier one matched; `None`
    /// is a valid miss, not a failure.
    pub fn find_channel_by_name(&self, name: &str) -> (r: Option<String>)
        requires
            self.wf(),
        ensures
            r.deep_view() == spec_find_channel(
                channel_directory(self@.messages),
                crate::text::lower_of(name@),
            ),
    {
        let channels = self.list_channels();
        let ghost dir = channel_directory(self@.messages);
        let q = crate::text::lowercase(name);
        let n = channels.len();
        let mut k: usize = 0;
        while k < n
            invariant
                k <= n,
                n == channels@.len(),
                abs_of(channels@) == dir,
                dir == channel_directory(self@.messages),
                q@ == crate::text::lower_of(name@),
                find_exact(dir, 0, q@) == find_exact(dir, k as int, q@),
            decreases n - k,
        {
            proof {
                assert(abs_of(channels@)[k as int] == channels@[k as int].abs());
            }
            match &channels[k].channel_name {
                Some(nm) => {
                    let nml = crate::text::lowercase(nm.as_str());
                    if crate::text::str_eq(nml.as_str(), q.as_str()) {
                        proof {
                            assert(dir[k as int].channel_name == Some(nm@));
                        }
                        return Some(channels[k].channel_id.clone());
                    }
                },
                None => {},
            }
            k += 1;
        }
        let mut k: usize = 0;
        while k < n
            invariant
                k <= n,
                n == channels@.len(),
                abs_of(channels@) == dir,
                dir == channel_directory(self@.messages),
                q@ == crate::text::lower_of(name@),
                find_exact(dir, 0, q@) is None,
                find_prefix(dir, 0, q@) == find_prefix(dir, k as int, q@),
            decreases n - k,
        {
            proof {
                assert(abs_of(channels@)[k as int] == channels@[k as int].abs());
            }
            match &channels[k].channel_name {
                Some(nm) => {
                    let nml = crate::text::lowercase(nm.as_str());
                    if crate::text::str_starts_with(nml.as_str(), q.as_str()) {
                        proof {
                            assert(dir[k as int].channel_name == Some(nm@));
                        }
                        return Some(channels[k].channel_id.clone());
                    }
                },
                None => {},
            }
            k += 1;
        }
        let mut k: usize = 0;
        while k < n
            invariant
                k <= n,
                n == channels@.len(),
                abs_of(channels@) == dir,
                dir == channel_directory(self@.messages),
                q@ == crate::text::lower_of(name@),
                find_exact(dir, 0, q@) is None,
                find_prefix(dir, 0, q@) is None,
                find_name_contains(dir, 0, q@) == find_name_contains(dir, k as int, q@),
            decreases n - k,
        {
            proof {
                assert(abs_of(channels@)[k as int] == channels@[k as int].abs());
            }
            match &channels[k].channel_name {
                Some(nm) => {
                    let nml = crate::text::lowercase(nm.as_str());
                    if crate::text::str_contains(nml.as_str(), q.as_str()) {
                        proof {
                            assert(dir[k as int].channel_name == Some(nm@));
                        }
                        return Some(channels[k].channel_id.clone());
                    }
                },
                None => {},
            }
            k += 1;
        }
        let mut k: usize = 0;
        while k < n
            invariant
                k <= n,
                n == channels@.len(),
                abs_of(channels@) == dir,
                dir == channel_directory(self@.messages),
                q@ == crate::text::lower_of(name@),
                find_exact(dir, 0, q@) is None,
                find_prefix(dir, 0, q@) is None,
                find_name_contains(dir, 0, q@) is None,
                find_id_contains(dir, 0, q@) == find_id_contains(dir, k as int, q@),
            decreases n - k,
        {
            proof {
                assert(abs_of(channels@)[k as int] == channels@[k as int].abs());
            }
            if crate::text::str_contains(channels[k].channel_id.as_str(), q.as_str()) {
                return Some(channels[k].channel_id.clone());
            }
            k += 1;
        }
        None
    }

    /// Resolve a channel's display name: the `discord_channel_name` field of
    /// the newest metadata document any message of the channel carries.
    /// `None` is a valid miss, not a failure.
    pub fn resolve_channel_name(&self, channel_id: &str) -> (r: Option<String>)
        ensures
            r.deep_view() == spec_resolved_name(self@.messages, channel_id@),
    {
        let mut i: usize = self.messages.len();
        proof {
            assert(self.messages@.take(self.messages@.len() as int) =~= self.messages@);
        }
        while i > 0
            invariant
                i <= self.messages@.len(),
                latest_metadata(self@.messages, channel_id@) == latest_metadata(
                    self.messages@.take(i as int),
                    channel_id@,
                ),
            decreases i,
        {
            i -= 1;
            let m = &self.messages[i];
            proof {
                assert(self.messages@.take(i + 1).drop_last() =~= self.messages@.take(i as int));
                assert(self.messages@.take(i + 1).last() == self.messages@[i as int]);
            }
            if crate::text::str_eq(m.channel_id.as_str(), channel_id) {
                match &m.metadata {
                    Some(doc) => {
                        return extract_channel_name(doc.as_str());
                    },
                    None => {},
                }
            }
        }
        None
    }
}

} // verus!
