//! The admin service: merging the counters that brokers report into one
//! view of the fleet, and the bookkeeping of commands sent to every broker.

use crate::errors::NsqError;
use crate::registry::{distinct_producers, producer_views, Producer, ProducerView};
use crate::seqs::{contains_name, first_where, has_name, lemma_any_where, names, with_name};
use crate::text::{join3, str_equal};
use crate::wire::bytes_equal;
use vstd::prelude::*;
use vstd::string::*;

verus! {

/// The counters of one channel, as one broker reports them or as merged
/// over the fleet.
#[derive(Debug)]
pub struct ChannelInfo {
    pub channel_name: String,
    pub depth: u64,
    pub backend_depth: u64,
    pub in_flight_count: u64,
    pub deferred_count: u64,
    pub message_count: u64,
    pub requeue_count: u64,
    pub timeout_count: u64,
    pub paused: bool,
}

/// The counters of one topic, as one broker reports them or as merged over
/// the fleet.
#[derive(Debug)]
pub struct TopicInfo {
    pub topic_name: String,
    pub channels: Vec<ChannelInfo>,
    pub depth: u64,
    pub backend_depth: u64,
    pub message_count: u64,
    pub in_flight_count: u64,
    pub deferred_count: u64,
    pub requeue_count: u64,
    pub timeout_count: u64,
    pub paused: bool,
    /// The brokers that host the topic.
    pub nodes: Vec<String>,
}

/// What one broker reports.
#[derive(Debug)]
pub struct NodeStats {
    /// The base URL of the broker.
    pub url: String,
    pub topics: Vec<TopicInfo>,
}

/// The counters of a channel as a mathematical value.
pub struct ChannelInfoView {
    pub channel_name: Seq<char>,
    pub depth: u64,
    pub backend_depth: u64,
    pub in_flight_count: u64,
    pub deferred_count: u64,
    pub message_count: u64,
    pub requeue_count: u64,
    pub timeout_count: u64,
    pub paused: bool,
}

/// The counters of a topic as a mathematical value.
pub struct TopicInfoView {
    pub topic_name: Seq<char>,
    pub channels: Seq<ChannelInfoView>,
    pub depth: u64,
    pub backend_depth: u64,
    pub message_count: u64,
    pub in_flight_count: u64,
    pub deferred_count: u64,
    pub requeue_count: u64,
    pub timeout_count: u64,
    pub paused: bool,
    pub nodes: Seq<Seq<char>>,
}

/// The report of a broker as a mathematical value.
pub struct NodeStatsView {
    pub url: Seq<char>,
    pub topics: Seq<TopicInfoView>,
}

impl View for ChannelInfo {
    type V = ChannelInfoView;

    open spec fn view(&self) -> ChannelInfoView {
        ChannelInfoView {
            channel_name: self.channel_name@,
            depth: self.depth,
            backend_depth: self.backend_depth,
            in_flight_count: self.in_flight_count,
            deferred_count: self.deferred_count,
            message_count: self.message_count,
            requeue_count: self.requeue_count,
            timeout_count: self.timeout_count,
            paused: self.paused,
        }
    }
}

/// The views of channel counters.
pub open spec fn channel_infos(v: Seq<ChannelInfo>) -> Seq<ChannelInfoView> {
    v.map_values(|c: ChannelInfo| c@)
}

impl View for TopicInfo {
    type V = TopicInfoView;

    open spec fn view(&self) -> TopicInfoView {
        TopicInfoView {
            topic_name: self.topic_name@,
            channels: channel_infos(self.channels@),
            depth: self.depth,
            backend_depth: self.backend_depth,
            message_count: self.message_count,
            in_flight_count: self.in_flight_count,
            deferred_count: self.deferred_count,
            requeue_count: self.requeue_count,
            timeout_count: self.timeout_count,
            paused: self.paused,
            nodes: names(self.nodes@),
        }
    }
}

/// The views of topic counters.
pub open spec fn topic_infos(v: Seq<TopicInfo>) -> Seq<TopicInfoView> {
    v.map_values(|t: TopicInfo| t@)
}

impl View for NodeStats {
    type V = NodeStatsView;

    open spec fn view(&self) -> NodeStatsView {
        NodeStatsView { url: self.url@, topics: topic_infos(self.topics@) }
    }
}

/// The views of broker reports.
pub open spec fn node_views(v: Seq<NodeStats>) -> Seq<NodeStatsView> {
    v.map_values(|n: NodeStats| n@)
}

/// `a + b`, or `u64::MAX` where that does not fit.
pub open spec fn plus(a: u64, b: u64) -> u64 {
    if a + b <= u64::MAX {
        (a + b) as u64
    } else {
        u64::MAX
    }
}

/// The counters of two reports of one channel, added up; the channel is
/// paused where it is paused in either.
pub open spec fn add_channel(a: ChannelInfoView, b: ChannelInfoView) -> ChannelInfoView {
    ChannelInfoView {
        channel_name: a.channel_name,
        depth: plus(a.depth, b.depth),
        backend_depth: plus(a.backend_depth, b.backend_depth),
        in_flight_count: plus(a.in_flight_count, b.in_flight_count),
        deferred_count: plus(a.deferred_count, b.deferred_count),
        message_count: plus(a.message_count, b.message_count),
        requeue_count: plus(a.requeue_count, b.requeue_count),
        timeout_count: plus(a.timeout_count, b.timeout_count),
        paused: a.paused || b.paused,
    }
}

/// The merged channels `acc` with one more report `c`: added to the entry of
/// its name where there is one, and a new entry at the end otherwise.
pub open spec fn merge_channel(acc: Seq<ChannelInfoView>, c: ChannelInfoView) -> Seq<
    ChannelInfoView,
> {
    let i = first_where(acc, |x: ChannelInfoView| x.channel_name == c.channel_name);
    if i < acc.len() {
        acc.update(i, add_channel(acc[i], c))
    } else {
        acc.push(c)
    }
}

/// The merged channels `acc` with the reports `cs`, one after the other.
pub open spec fn merge_channels(acc: Seq<ChannelInfoView>, cs: Seq<ChannelInfoView>) -> Seq<
    ChannelInfoView,
>
    decreases cs.len(),
{
    if cs.len() == 0 {
        acc
    } else {
        merge_channel(merge_channels(acc, cs.drop_last()), cs.last())
    }
}

/// The counters of the merged topic `a` and the report `b` of the same topic
/// from the broker `url`, added up: the topic is paused where it is paused
/// in either, its channels are merged by name, and the broker joins its
/// nodes.
pub open spec fn add_topic(a: TopicInfoView, b: TopicInfoView, url: Seq<char>) -> TopicInfoView {
    TopicInfoView {
        topic_name: a.topic_name,
        channels: merge_channels(a.channels, b.channels),
        depth: plus(a.depth, b.depth),
        backend_depth: plus(a.backend_depth, b.backend_depth),
        message_count: plus(a.message_count, b.message_count),
        in_flight_count: plus(a.in_flight_count, b.in_flight_count),
        deferred_count: plus(a.deferred_count, b.deferred_count),
        requeue_count: plus(a.requeue_count, b.requeue_count),
        timeout_count: plus(a.timeout_count, b.timeout_count),
        paused: a.paused || b.paused,
        nodes: a.nodes.push(url),
    }
}

/// A topic that no broker has reported yet.
pub open spec fn blank_topic(name: Seq<char>) -> TopicInfoView {
    TopicInfoView {
        topic_name: name,
        channels: Seq::empty(),
        depth: 0,
        backend_depth: 0,
        message_count: 0,
        in_flight_count: 0,
        deferred_count: 0,
        requeue_count: 0,
        timeout_count: 0,
        paused: false,
        nodes: Seq::empty(),
    }
}

/// The merged topics `acc` with one more report `t` from the broker `url`:
/// added to the entry of its name where there is one, and a new entry at the
/// end otherwise.
pub open spec fn merge_topic(acc: Seq<TopicInfoView>, t: TopicInfoView, url: Seq<char>) -> Seq<
    TopicInfoView,
> {
    let i = first_where(acc, |x: TopicInfoView| x.topic_name == t.topic_name);
    if i < acc.len() {
        acc.update(i, add_topic(acc[i], t, url))
    } else {
        acc.push(add_topic(blank_topic(t.topic_name), t, url))
    }
}

/// The merged topics `acc` with the reports `ts` from the broker `url`, one
/// after the other.
pub open spec fn merge_topics(acc: Seq<TopicInfoView>, ts: Seq<TopicInfoView>, url: Seq<char>)
    -> Seq<TopicInfoView>
    decreases ts.len(),
{
    if ts.len() == 0 {
        acc
    } else {
        merge_topic(merge_topics(acc, ts.drop_last(), url), ts.last(), url)
    }
}

/// The view of the fleet: the reports of the brokers `nodes` merged, one
/// broker after the other. Every topic has one entry, in the order in which
/// the topics were first reported.
pub open spec fn aggregated(nodes: Seq<NodeStatsView>) -> Seq<TopicInfoView>
    decreases nodes.len(),
{
    if nodes.len() == 0 {
        Seq::empty()
    } else {
        merge_topics(aggregated(nodes.drop_last()), nodes.last().topics, nodes.last().url)
    }
}

/// No two of the topics have one name.
pub open spec fn distinct_topics(ts: Seq<TopicInfoView>) -> bool {
    forall|i: int, j: int|
        0 <= i < j < ts.len() ==> (#[trigger] ts[i]).topic_name != (#[trigger] ts[j]).topic_name
}

/// Merging keeps one entry for each topic.
pub proof fn lemma_merge_topic_distinct(acc: Seq<TopicInfoView>, t: TopicInfoView, url: Seq<char>)
    requires
        distinct_topics(acc),
    ensures
        distinct_topics(merge_topic(acc, t, url)),
        exists|k: int|
            0 <= k < merge_topic(acc, t, url).len() && (#[trigger] merge_topic(
                acc,
                t,
                url,
            )[k]).topic_name == t.topic_name,
{
    let pred = |x: TopicInfoView| x.topic_name == t.topic_name;
    crate::seqs::lemma_first_where(acc, pred);
    let i = first_where(acc, pred);
    let out = merge_topic(acc, t, url);
    if i < acc.len() {
        assert(out[i].topic_name == t.topic_name);
        assert forall|a: int, b: int| 0 <= a < b < out.len() implies (#[trigger] out[a]).topic_name
            != (#[trigger] out[b]).topic_name by {
            assert(acc[a].topic_name != acc[b].topic_name);
        }
    } else {
        assert(out[acc.len() as int].topic_name == t.topic_name);
        assert forall|a: int, b: int| 0 <= a < b < out.len() implies (#[trigger] out[a]).topic_name
            != (#[trigger] out[b]).topic_name by {
            if b < acc.len() {
                assert(acc[a].topic_name != acc[b].topic_name);
            } else {
                assert(!pred(acc[a]));
            }
        }
    }
}

/// Two brokers that each report one topic of one name give the fleet one
/// entry for it: its counters are the sums of the two reports, it is paused
/// where either is, and its nodes are the two brokers, in order.
pub proof fn lemma_two_brokers_one_topic(a: NodeStatsView, b: NodeStatsView)
    requires
        a.topics.len() == 1,
        b.topics.len() == 1,
        a.topics[0].topic_name == b.topics[0].topic_name,
    ensures
        aggregated(seq![a, b]).len() == 1,
        aggregated(seq![a, b])[0].topic_name == a.topics[0].topic_name,
        aggregated(seq![a, b])[0].message_count == plus(
            a.topics[0].message_count,
            b.topics[0].message_count,
        ),
        aggregated(seq![a, b])[0].depth == plus(a.topics[0].depth, b.topics[0].depth),
        aggregated(seq![a, b])[0].in_flight_count == plus(
            a.topics[0].in_flight_count,
            b.topics[0].in_flight_count,
        ),
        aggregated(seq![a, b])[0].paused == (a.topics[0].paused || b.topics[0].paused),
        aggregated(seq![a, b])[0].nodes == seq![a.url, b.url],
{
    let both = seq![a, b];
    let name = a.topics[0].topic_name;
    let test = |x: TopicInfoView| x.topic_name == name;
    let none = Seq::<TopicInfoView>::empty();
    assert(both.drop_last() =~= seq![a]);
    assert(seq![a].drop_last() =~= Seq::<NodeStatsView>::empty());
    assert(aggregated(Seq::<NodeStatsView>::empty()) == none) by {
        reveal_with_fuel(aggregated, 1);
    }
    assert(aggregated(seq![a]) == merge_topics(none, a.topics, a.url)) by {
        reveal_with_fuel(aggregated, 2);
    }
    assert(a.topics.drop_last() =~= none);
    assert(merge_topics(none, a.topics, a.url) == merge_topic(none, a.topics[0], a.url)) by {
        reveal_with_fuel(merge_topics, 2);
    }
    crate::seqs::lemma_first_where(none, test);
    let first = add_topic(blank_topic(name), a.topics[0], a.url);
    let one = none.push(first);
    assert(merge_topic(none, a.topics[0], a.url) == one);
    assert(aggregated(both) == merge_topics(one, b.topics, b.url)) by {
        reveal_with_fuel(aggregated, 2);
    }
    assert(b.topics.drop_last() =~= none);
    assert(merge_topics(one, b.topics, b.url) == merge_topic(one, b.topics[0], b.url)) by {
        reveal_with_fuel(merge_topics, 2);
    }
    crate::seqs::lemma_first_where(one, test);
    assert(test(one[0]));
    assert(first_where(one, test) == 0);
    let merged = merge_topic(one, b.topics[0], b.url);
    assert(merged == one.update(0, add_topic(first, b.topics[0], b.url)));
    assert(merged[0].nodes =~= seq![a.url, b.url]);
}

/// The view of the fleet has one entry for each topic.
pub proof fn lemma_aggregated_distinct(nodes: Seq<NodeStatsView>)
    ensures
        distinct_topics(aggregated(nodes)),
    decreases nodes.len(),
{
    if nodes.len() > 0 {
        lemma_aggregated_distinct(nodes.drop_last());
        lemma_merge_topics_distinct(
            aggregated(nodes.drop_last()),
            nodes.last().topics,
            nodes.last().url,
        );
    }
}

proof fn lemma_merge_topics_distinct(acc: Seq<TopicInfoView>, ts: Seq<TopicInfoView>, url: Seq<char>)
    requires
        distinct_topics(acc),
    ensures
        distinct_topics(merge_topics(acc, ts, url)),
    decreases ts.len(),
{
    if ts.len() > 0 {
        lemma_merge_topics_distinct(acc, ts.drop_last(), url);
        lemma_merge_topic_distinct(merge_topics(acc, ts.drop_last(), url), ts.last(), url);
    }
}

/// Adds the report `c` to the merged channels `acc`.
fn merge_channel_into(acc: &mut Vec<ChannelInfo>, c: &ChannelInfo)
    ensures
        channel_infos(final(acc)@) == merge_channel(channel_infos(old(acc)@), c@),
{
    let ghost before = channel_infos(acc@);
    let ghost pred = |x: ChannelInfo| x@.channel_name == c@.channel_name;
    let test = |x: &ChannelInfo| -> (r: bool)
        ensures
            r == (x@.channel_name == c@.channel_name),
        {
            let same = str_equal(x.channel_name.as_str(), c.channel_name.as_str());
            same
        };
    let found = crate::seqs::position(acc, test, Ghost(pred));
    proof {
        crate::seqs::lemma_first_where_map(
            acc@,
            |x: ChannelInfo| x@,
            |x: ChannelInfoView| x.channel_name == c@.channel_name,
        );
        assert(pred =~= (|y: ChannelInfo|
            (|x: ChannelInfoView| x.channel_name == c@.channel_name)((|x: ChannelInfo| x@)(y))));
    }
    match found {
        Some(i) => {
            let old_entry = acc.remove(i);
            let entry = ChannelInfo {
                channel_name: old_entry.channel_name,
                depth: old_entry.depth.saturating_add(c.depth),
                backend_depth: old_entry.backend_depth.saturating_add(c.backend_depth),
                in_flight_count: old_entry.in_flight_count.saturating_add(c.in_flight_count),
                deferred_count: old_entry.deferred_count.saturating_add(c.deferred_count),
                message_count: old_entry.message_count.saturating_add(c.message_count),
                requeue_count: old_entry.requeue_count.saturating_add(c.requeue_count),
                timeout_count: old_entry.timeout_count.saturating_add(c.timeout_count),
                paused: old_entry.paused || c.paused,
            };
            acc.insert(i, entry);
            proof {
                assert(channel_infos(acc@) =~= before.update(i as int, entry@));
            }
        },
        None => {
            let entry = ChannelInfo {
                channel_name: c.channel_name.clone(),
                depth: c.depth,
                backend_depth: c.backend_depth,
                in_flight_count: c.in_flight_count,
                deferred_count: c.deferred_count,
                message_count: c.message_count,
                requeue_count: c.requeue_count,
                timeout_count: c.timeout_count,
                paused: c.paused,
            };
            acc.push(entry);
            proof {
                assert(channel_infos(acc@) =~= before.push(c@));
            }
        },
    }
}

/// Adds the reports `cs` to the merged channels `acc`.
fn merge_channels_into(acc: &mut Vec<ChannelInfo>, cs: &Vec<ChannelInfo>)
    ensures
        channel_infos(final(acc)@) == merge_channels(channel_infos(old(acc)@), channel_infos(cs@)),
{
    let ghost start = channel_infos(acc@);
    let ghost all = channel_infos(cs@);
    let n = cs.len();
    let mut k: usize = 0;
    proof {
        assert(all.take(0) =~= Seq::<ChannelInfoView>::empty());
    }
    while k < n
        invariant
            k <= n,
            n == cs@.len(),
            all == channel_infos(cs@),
            channel_infos(acc@) == merge_channels(start, all.take(k as int)),
        decreases n - k,
    {
        proof {
            assert(all.take(k + 1).drop_last() =~= all.take(k as int));
            assert(all.take(k + 1).last() == cs@[k as int]@);
        }
        merge_channel_into(acc, &cs[k]);
        k = k + 1;
    }
    proof {
        assert(all.take(n as int) =~= all);
    }
}

/// Adds the report `t` of the broker `url` to the merged topics `acc`.
fn merge_topic_into(acc: &mut Vec<TopicInfo>, t: &TopicInfo, url: &String)
    ensures
        topic_infos(final(acc)@) == merge_topic(topic_infos(old(acc)@), t@, url@),
{
    let ghost before = topic_infos(acc@);
    let ghost pred = |x: TopicInfo| x@.topic_name == t@.topic_name;
    let test = |x: &TopicInfo| -> (r: bool)
        ensures
            r == (x@.topic_name == t@.topic_name),
        {
            let same = str_equal(x.topic_name.as_str(), t.topic_name.as_str());
            same
        };
    let found = crate::seqs::position(acc, test, Ghost(pred));
    proof {
        crate::seqs::lemma_first_where_map(
            acc@,
            |x: TopicInfo| x@,
            |x: TopicInfoView| x.topic_name == t@.topic_name,
        );
        assert(pred =~= (|y: TopicInfo|
            (|x: TopicInfoView| x.topic_name == t@.topic_name)((|x: TopicInfo| x@)(y))));
    }
    let (at, mut entry) = match found {
        Some(i) => (i, acc.remove(i)),
        None => {
            let blank = TopicInfo {
                topic_name: t.topic_name.clone(),
                channels: Vec::new(),
                depth: 0,
                backend_depth: 0,
                message_count: 0,
                in_flight_count: 0,
                deferred_count: 0,
                requeue_count: 0,
                timeout_count: 0,
                paused: false,
                nodes: Vec::new(),
            };
            proof {
                assert(blank@.channels =~= Seq::<ChannelInfoView>::empty());
                assert(blank@.nodes =~= Seq::<Seq<char>>::empty());
            }
            (acc.len(), blank)
        },
    };
    let ghost base = entry@;
    merge_channels_into(&mut entry.channels, &t.channels);
    entry.depth = entry.depth.saturating_add(t.depth);
    entry.backend_depth = entry.backend_depth.saturating_add(t.backend_depth);
    entry.message_count = entry.message_count.saturating_add(t.message_count);
    entry.in_flight_count = entry.in_flight_count.saturating_add(t.in_flight_count);
    entry.deferred_count = entry.deferred_count.saturating_add(t.deferred_count);
    entry.requeue_count = entry.requeue_count.saturating_add(t.requeue_count);
    entry.timeout_count = entry.timeout_count.saturating_add(t.timeout_count);
    entry.paused = entry.paused || t.paused;
    let ghost had = names(entry.nodes@);
    entry.nodes.push(url.clone());
    proof {
        assert(names(entry.nodes@) =~= had.push(url@));
        assert(entry@ == add_topic(base, t@, url@));
    }
    acc.insert(at, entry);
    proof {
        if found is Some {
            assert(topic_infos(acc@) =~= before.update(at as int, entry@));
        } else {
            assert(topic_infos(acc@) =~= before.push(entry@));
        }
    }
}

/// Merges what the brokers `nodes` report into one view of the fleet.
///
/// Each topic has one entry, in the order in which the topics were first
/// reported. Its counters are the sums over the brokers that host it, it is
/// paused where it is paused on any of them, its nodes are those brokers,
/// and its channels are merged by name in the same way.
pub fn aggregate_topic_stats(nodes: &Vec<NodeStats>) -> (out: Vec<TopicInfo>)
    ensures
        topic_infos(out@) == aggregated(node_views(nodes@)),
        distinct_topics(topic_infos(out@)),
{
    let ghost all = node_views(nodes@);
    let mut out: Vec<TopicInfo> = Vec::new();
    let n = nodes.len();
    let mut k: usize = 0;
    proof {
        assert(all.take(0) =~= Seq::<NodeStatsView>::empty());
        assert(topic_infos(out@) =~= aggregated(all.take(0)));
    }
    while k < n
        invariant
            k <= n,
            n == nodes@.len(),
            all == node_views(nodes@),
            topic_infos(out@) == aggregated(all.take(k as int)),
        decreases n - k,
    {
        let node = &nodes[k];
        let ghost start = topic_infos(out@);
        let ghost ts = topic_infos(node.topics@);
        let m = node.topics.len();
        let mut j: usize = 0;
        proof {
            assert(ts.take(0) =~= Seq::<TopicInfoView>::empty());
            assert(all.take(k + 1).drop_last() =~= all.take(k as int));
            assert(all.take(k + 1).last() == node@);
        }
        while j < m
            invariant
                j <= m,
                m == node.topics@.len(),
                ts == topic_infos(node.topics@),
                topic_infos(out@) == merge_topics(start, ts.take(j as int), node.url@),
            decreases m - j,
        {
            proof {
                assert(ts.take(j + 1).drop_last() =~= ts.take(j as int));
                assert(ts.take(j + 1).last() == node.topics@[j as int]@);
            }
            merge_topic_into(&mut out, &node.topics[j], &node.url);
            j = j + 1;
        }
        proof {
            assert(ts.take(m as int) =~= ts);
        }
        k = k + 1;
    }
    proof {
        assert(all.take(n as int) =~= all);
        lemma_aggregated_distinct(all);
    }
    out
}

/// The merged counters of the topic called `name`, if any broker reports it.
pub fn get_topic_detail<'a>(topics: &'a Vec<TopicInfo>, name: &str) -> (res: Option<&'a TopicInfo>)
    ensures
        match res {
            Some(t) => {
                let i = first_where(topic_infos(topics@), |x: TopicInfoView| x.topic_name == name@);
                i < topics@.len() && t@ == topic_infos(topics@)[i]
            },
            None => first_where(topic_infos(topics@), |x: TopicInfoView| x.topic_name == name@)
                == topics@.len(),
        },
{
    let ghost pred = |x: TopicInfo| x@.topic_name == name@;
    let test = |x: &TopicInfo| -> (r: bool)
        ensures
            r == (x@.topic_name == name@),
        {
            let same = str_equal(x.topic_name.as_str(), name);
            same
        };
    let found = crate::seqs::position(topics, test, Ghost(pred));
    proof {
        crate::seqs::lemma_first_where_map(
            topics@,
            |x: TopicInfo| x@,
            |x: TopicInfoView| x.topic_name == name@,
        );
        assert(pred =~= (|y: TopicInfo|
            (|x: TopicInfoView| x.topic_name == name@)((|x: TopicInfo| x@)(y))));
    }
    match found {
        Some(i) => Some(&topics[i]),
        None => None,
    }
}

/// Whether `bytes` starts with `prefix`.
pub open spec fn starts_with(bytes: Seq<u8>, prefix: Seq<u8>) -> bool {
    bytes.len() >= prefix.len() && bytes.take(prefix.len() as int) == prefix
}

/// Whether an address names its scheme.
pub open spec fn has_scheme(addr: Seq<u8>) -> bool {
    starts_with(addr, "http://".spec_bytes()) || starts_with(addr, "https://".spec_bytes())
}

fn begins(bytes: &[u8], prefix: &str) -> (yes: bool)
    ensures
        yes == starts_with(bytes@, prefix.spec_bytes()),
{
    let p = prefix.as_bytes();
    if bytes.len() < p.len() {
        return false;
    }
    proof {
        assert(bytes@.take(p@.len() as int) =~= bytes@.subrange(0, p@.len() as int));
    }
    bytes_equal(vstd::slice::slice_subrange(bytes, 0, p.len()), p)
}

/// The base URL for an address: the address itself where it names its
/// scheme, and the address after `http://` otherwise.
pub fn normalize_address(addr: &str) -> (url: String)
    ensures
        url@ == if has_scheme(addr.spec_bytes()) {
            addr@
        } else {
            "http://"@ + addr@
        },
{
    let bytes = addr.as_bytes();
    if begins(bytes, "http://") || begins(bytes, "https://") {
        String::from_str(addr)
    } else {
        let url = join3("http://", addr, "");
        proof {
            reveal_strlit("");
            assert("http://"@ + addr@ + ""@ =~= "http://"@ + addr@);
        }
        url
    }
}

/// The names `acc` with those of `more` that are not among them yet, in
/// order.
pub open spec fn union_names(acc: Seq<Seq<char>>, more: Seq<Seq<char>>) -> Seq<Seq<char>>
    decreases more.len(),
{
    if more.len() == 0 {
        acc
    } else {
        with_name(union_names(acc, more.drop_last()), more.last())
    }
}

/// The base URLs of the configured addresses `addrs`.
pub open spec fn normalized(addrs: Seq<String>) -> Seq<Seq<char>> {
    addrs.map_values(
        |a: String|
            if has_scheme(vstd::utf8::encode_utf8(a@)) {
                a@
            } else {
                "http://"@ + a@
            },
    )
}

/// The base URLs of the producers `producers`.
pub open spec fn producer_urls(producers: Seq<Producer>) -> Seq<Seq<char>> {
    producers.map_values(|p: Producer| p@.http_url())
}

/// The brokers of the fleet: the configured broker addresses, made into
/// base URLs, and the HTTP interfaces of the producers that the registries
/// know, each once, in that order.
pub fn get_all_nsqd_addresses(configured: &Vec<String>, producers: &Vec<Producer>) -> (out: Vec<
    String,
>)
    ensures
        names(out@) == union_names(
            union_names(Seq::empty(), normalized(configured@)),
            producer_urls(producers@),
        ),
{
    let mut out: Vec<String> = Vec::new();
    let ghost first = normalized(configured@);
    let n = configured.len();
    let mut k: usize = 0;
    proof {
        assert(names(out@) =~= Seq::<Seq<char>>::empty());
        assert(first.take(0) =~= Seq::<Seq<char>>::empty());
    }
    while k < n
        invariant
            k <= n,
            n == configured@.len(),
            first == normalized(configured@),
            names(out@) == union_names(Seq::empty(), first.take(k as int)),
        decreases n - k,
    {
        let url = normalize_address(configured[k].as_str());
        proof {
            assert(first.take(k + 1).drop_last() =~= first.take(k as int));
            assert(first.take(k + 1).last() == url@);
        }
        if !contains_name(&out, url.as_str()) {
            let ghost before = names(out@);
            out.push(url);
            proof {
                assert(names(out@) =~= before.push(url@));
            }
        }
        k = k + 1;
    }
    proof {
        assert(first.take(n as int) =~= first);
    }
    let ghost mid = names(out@);
    let ghost second = producer_urls(producers@);
    let m = producers.len();
    let mut j: usize = 0;
    proof {
        assert(second.take(0) =~= Seq::<Seq<char>>::empty());
    }
    while j < m
        invariant
            j <= m,
            m == producers@.len(),
            second == producer_urls(producers@),
            names(out@) == union_names(mid, second.take(j as int)),
        decreases m - j,
    {
        let url = producers[j].get_http_url();
        proof {
            assert(second.take(j + 1).drop_last() =~= second.take(j as int));
            assert(second.take(j + 1).last() == url@);
        }
        if !contains_name(&out, url.as_str()) {
            let ghost before = names(out@);
            out.push(url);
            proof {
                assert(names(out@) =~= before.push(url@));
            }
        }
        j = j + 1;
    }
    proof {
        assert(second.take(m as int) =~= second);
    }
    out
}

/// Whether every one of the outcomes is a failure.
pub open spec fn all_failed(outcomes: Seq<bool>) -> bool {
    forall|k: int| 0 <= k < outcomes.len() ==> !(#[trigger] outcomes[k])
}

/// The identifiers of the producers `ps`.
pub open spec fn producer_ids(ps: Seq<ProducerView>) -> Seq<Seq<char>> {
    ps.map_values(|p: ProducerView| p.id())
}

/// The producers `ps` with one entry for each identifier: the first of each
/// stays, in order.
pub open spec fn unique_by_id(ps: Seq<ProducerView>) -> Seq<ProducerView>
    decreases ps.len(),
{
    if ps.len() == 0 {
        Seq::empty()
    } else {
        let rest = unique_by_id(ps.drop_last());
        if has_name(producer_ids(rest), ps.last().id()) {
            rest
        } else {
            rest.push(ps.last())
        }
    }
}

/// The producers that several registries know, each once: of the producers
/// with one identifier the first stays, in order.
pub fn unique_producers(producers: &Vec<Producer>) -> (out: Vec<Producer>)
    ensures
        producer_views(out@) == unique_by_id(producer_views(producers@)),
        distinct_producers(producer_views(out@)),
{
    let mut out: Vec<Producer> = Vec::new();
    let mut ids: Vec<String> = Vec::new();
    let ghost all = producer_views(producers@);
    let n = producers.len();
    let mut k: usize = 0;
    proof {
        assert(all.take(0) =~= Seq::<ProducerView>::empty());
        assert(producer_views(out@) =~= Seq::<ProducerView>::empty());
        assert(names(ids@) =~= producer_ids(producer_views(out@)));
    }
    while k < n
        invariant
            k <= n,
            n == producers@.len(),
            all == producer_views(producers@),
            producer_views(out@) == unique_by_id(all.take(k as int)),
            names(ids@) == producer_ids(producer_views(out@)),
            distinct_producers(producer_views(out@)),
        decreases n - k,
    {
        let id = producers[k].get_id();
        proof {
            assert(all.take(k + 1).drop_last() =~= all.take(k as int));
            assert(all.take(k + 1).last() == producers@[k as int]@);
        }
        if !contains_name(&ids, id.as_str()) {
            let ghost before = producer_views(out@);
            let ghost ids_before = names(ids@);
            let p = producers[k].clone();
            proof {
                lemma_any_where(ids_before, |n: Seq<char>| n == id@);
                assert forall|i: int| 0 <= i < before.len() implies (#[trigger] before[i]).id()
                    != p@.id() by {
                    assert(ids_before[i] == before[i].id());
                }
            }
            out.push(p);
            ids.push(id);
            proof {
                assert(producer_views(out@) =~= before.push(p@));
                assert(names(ids@) =~= ids_before.push(id@));
                assert(names(ids@) =~= producer_ids(producer_views(out@)));
                assert forall|i: int, j: int|
                    0 <= i < j < producer_views(out@).len() implies (#[trigger] producer_views(
                    out@,
                )[i]).id() != (#[trigger] producer_views(out@)[j]).id() by {
                    if j < before.len() {
                        assert(before[i].id() != before[j].id());
                    }
                }
            }
        }
        k = k + 1;
    }
    proof {
        assert(all.take(n as int) =~= all);
    }
    out
}

/// The result of a command that was sent to every broker, given for each
/// broker whether it succeeded. Failures of some brokers do not fail the
/// command: it fails only where there are brokers and every one failed.
pub fn send_to_all_result(outcomes: &Vec<bool>) -> (res: Result<(), NsqError>)
    ensures
        res is Err <==> outcomes@.len() > 0 && all_failed(outcomes@),
        res is Err ==> res->Err_0 is Io,
{
    let n = outcomes.len();
    if n == 0 {
        return Ok(());
    }
    let mut k: usize = 0;
    while k < n
        invariant
            k <= n,
            n == outcomes@.len(),
            forall|j: int| 0 <= j < k ==> !(#[trigger] outcomes@[j]),
        decreases n - k,
    {
        if outcomes[k] {
            return Ok(());
        }
        k = k + 1;
    }
    Err(NsqError::Io(String::from_str("Every broker failed")))
}

/// The path and query of a command for one broker: the endpoint, the topic,
/// and the channel where one is named.
pub fn command_path(endpoint: &str, topic: &str, channel: Option<&str>) -> (path: String)
    ensures
        path@ == match channel {
            Some(c) => "/"@ + endpoint@ + "?topic="@ + topic@ + "&channel="@ + c@,
            None => "/"@ + endpoint@ + "?topic="@ + topic@,
        },
{
    let mut path = String::from_str("/");
    path.append(endpoint);
    path.append("?topic=");
    path.append(topic);
    match channel {
        Some(c) => {
            path.append("&channel=");
            path.append(c);
        },
        None => {},
    }
    path
}

} // verus!
