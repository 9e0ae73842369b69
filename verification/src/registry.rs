//! The registration database of the discovery service: which brokers host
//! which topics and channels, with tombstones and the removal of brokers
//! that fell silent.
//!
//! Times are milliseconds since the Unix epoch.

use crate::clock::now_millis;
use crate::command::{json_parses, json_well_formed};
use crate::protocol::{json_number, json_string_field, json_text, json_u64_field};
use crate::disk_queue::lemma_filter_step;
use crate::seqs::{
    any_where, clone_names, contains_name, distinct_by, first_where, has_name, lemma_any_where,
    lemma_filter_distinct, lemma_filter_passes, lemma_first_where, lemma_first_where_map,
    lemma_map_distinct, lemma_map_filter, lemma_one_of_key, lemma_push_distinct, names,
    position, remove_name, retain, with_name, without_name,
};
use crate::text::{
    byte_rows, decimal_chars, decimal_string, join3, split_whitespace, split_ws, str_equal,
    string_from_utf8,
};
use crate::validation::{name_bytes_ok, valid_name};
use crate::wire::bytes_equal;
use vstd::utf8::{decode_utf8, encode_utf8, valid_utf8};
use vstd::prelude::*;
use vstd::string::*;

verus! {

/// A broker known to the registry.
#[derive(Debug)]
pub struct Producer {
    pub remote_address: String,
    pub hostname: String,
    pub broadcast_address: String,
    pub tcp_port: u16,
    pub http_port: u16,
    pub version: String,
    /// When the broker was last heard of.
    pub last_update: u64,
    pub tombstoned: bool,
    pub tombstoned_at: Option<u64>,
}

/// A producer as a mathematical value.
pub struct ProducerView {
    pub remote_address: Seq<char>,
    pub hostname: Seq<char>,
    pub broadcast_address: Seq<char>,
    pub tcp_port: u16,
    pub http_port: u16,
    pub version: Seq<char>,
    pub last_update: u64,
    pub tombstoned: bool,
    pub tombstoned_at: Option<u64>,
}

impl View for Producer {
    type V = ProducerView;

    open spec fn view(&self) -> ProducerView {
        ProducerView {
            remote_address: self.remote_address@,
            hostname: self.hostname@,
            broadcast_address: self.broadcast_address@,
            tcp_port: self.tcp_port,
            http_port: self.http_port,
            version: self.version@,
            last_update: self.last_update,
            tombstoned: self.tombstoned,
            tombstoned_at: self.tombstoned_at,
        }
    }
}

impl ProducerView {
    /// The identifier of the producer: its broadcast address, a colon and
    /// its TCP port.
    pub open spec fn id(self) -> Seq<char> {
        self.broadcast_address + ":"@ + decimal_chars(self.tcp_port as nat)
    }

    /// The base URL of the producer's HTTP interface.
    pub open spec fn http_url(self) -> Seq<char> {
        "http://"@ + self.broadcast_address + ":"@ + decimal_chars(self.http_port as nat)
    }

    /// Whether the producer has been silent for longer than `timeout` at
    /// `now`.
    pub open spec fn stale(self, timeout: u64, now: u64) -> bool {
        self.last_update + timeout < now
    }
}

impl Clone for Producer {
    fn clone(&self) -> (copy: Producer)
        ensures
            copy@ == self@,
    {
        Producer {
            remote_address: self.remote_address.clone(),
            hostname: self.hostname.clone(),
            broadcast_address: self.broadcast_address.clone(),
            tcp_port: self.tcp_port,
            http_port: self.http_port,
            version: self.version.clone(),
            last_update: self.last_update,
            tombstoned: self.tombstoned,
            tombstoned_at: self.tombstoned_at,
        }
    }
}

impl Producer {
    /// A producer that was heard of just now and is not tombstoned.
    pub fn new(
        remote_address: String,
        hostname: String,
        broadcast_address: String,
        tcp_port: u16,
        http_port: u16,
        version: String,
    ) -> (p: Producer)
        ensures
            p@ == (ProducerView {
                remote_address: remote_address@,
                hostname: hostname@,
                broadcast_address: broadcast_address@,
                tcp_port,
                http_port,
                version: version@,
                last_update: p@.last_update,
                tombstoned: false,
                tombstoned_at: None,
            }),
    {
        Producer::new_at(
            remote_address,
            hostname,
            broadcast_address,
            tcp_port,
            http_port,
            version,
            now_millis(),
        )
    }

    /// A producer that was heard of at `now` and is not tombstoned.
    pub fn new_at(
        remote_address: String,
        hostname: String,
        broadcast_address: String,
        tcp_port: u16,
        http_port: u16,
        version: String,
        now: u64,
    ) -> (p: Producer)
        ensures
            p@ == (ProducerView {
                remote_address: remote_address@,
                hostname: hostname@,
                broadcast_address: broadcast_address@,
                tcp_port,
                http_port,
                version: version@,
                last_update: now,
                tombstoned: false,
                tombstoned_at: None,
            }),
    {
        Producer {
            remote_address,
            hostname,
            broadcast_address,
            tcp_port,
            http_port,
            version,
            last_update: now,
            tombstoned: false,
            tombstoned_at: None,
        }
    }

    /// Records that the producer was heard of just now.
    pub fn update_heartbeat(&mut self)
        ensures
            final(self)@ == (ProducerView { last_update: final(self)@.last_update, ..old(self)@ }),
    {
        self.update_heartbeat_at(now_millis())
    }

    /// Records that the producer was heard of at `now`.
    pub fn update_heartbeat_at(&mut self, now: u64)
        ensures
            final(self)@ == (ProducerView { last_update: now, ..old(self)@ }),
    {
        self.last_update = now;
    }

    /// Marks the producer as tombstoned just now.
    pub fn tombstone(&mut self)
        ensures
            final(self)@.tombstoned,
            final(self)@.tombstoned_at is Some,
            final(self)@ == (ProducerView {
                tombstoned: true,
                tombstoned_at: final(self)@.tombstoned_at,
                ..old(self)@
            }),
    {
        self.tombstone_at(now_millis())
    }

    /// Marks the producer as tombstoned at `now`.
    pub fn tombstone_at(&mut self, now: u64)
        ensures
            final(self)@ == (ProducerView {
                tombstoned: true,
                tombstoned_at: Some(now),
                ..old(self)@
            }),
    {
        self.tombstoned = true;
        self.tombstoned_at = Some(now);
    }

    /// Whether the producer has been silent for longer than `timeout` by
    /// now.
    pub fn is_stale(&self, timeout: u64) -> (stale: bool)
        ensures
            exists|now: u64| stale == #[trigger] self@.stale(timeout, now),
    {
        let now = now_millis();
        let stale = self.is_stale_at(timeout, now);
        proof {
            assert(stale == self@.stale(timeout, now));
        }
        stale
    }

    /// Whether the producer has been silent for longer than `timeout` at
    /// `now`.
    pub fn is_stale_at(&self, timeout: u64, now: u64) -> (stale: bool)
        ensures
            stale == self@.stale(timeout, now),
    {
        now > self.last_update && now - self.last_update > timeout
    }

    /// Whether the producer is not tombstoned.
    pub fn is_healthy(&self) -> (healthy: bool)
        ensures
            healthy == !self@.tombstoned,
    {
        !self.tombstoned
    }

    /// The identifier of the producer: `broadcast_address:tcp_port`.
    pub fn get_id(&self) -> (id: String)
        ensures
            id@ == self@.id(),
    {
        let port = decimal_string(self.tcp_port as u64);
        join3(self.broadcast_address.as_str(), ":", port.as_str())
    }

    /// The base URL of the producer's HTTP interface:
    /// `http://broadcast_address:http_port`.
    pub fn get_http_url(&self) -> (url: String)
        ensures
            url@ == self@.http_url(),
    {
        let port = decimal_string(self.http_port as u64);
        let mut url = String::from_str("http://");
        url.append(self.broadcast_address.as_str());
        url.append(":");
        url.append(port.as_str());
        url
    }

    /// The address of the producer's TCP interface:
    /// `broadcast_address:tcp_port`.
    pub fn get_tcp_address(&self) -> (address: String)
        ensures
            address@ == self@.id(),
    {
        self.get_id()
    }
}

/// A producer with the topics it is registered for.
#[derive(Debug)]
pub struct Registration {
    pub producer: Producer,
    pub topics: Vec<String>,
}

/// A registration as a mathematical value.
pub struct RegistrationView {
    pub producer: ProducerView,
    pub topics: Seq<Seq<char>>,
}

impl RegistrationView {
    /// The registration without the topic `name`.
    pub open spec fn withdrawn(self, name: Seq<char>) -> RegistrationView {
        RegistrationView { topics: without_name(self.topics, name), ..self }
    }
}

impl View for Registration {
    type V = RegistrationView;

    open spec fn view(&self) -> RegistrationView {
        RegistrationView { producer: self.producer@, topics: names(self.topics@) }
    }
}

/// A topic known to the registry, with the channels announced for it.
#[derive(Debug)]
pub struct TopicRecord {
    pub name: String,
    pub channels: Vec<String>,
}

/// A topic record as a mathematical value.
pub struct TopicRecordView {
    pub name: Seq<char>,
    pub channels: Seq<Seq<char>>,
}

impl View for TopicRecord {
    type V = TopicRecordView;

    open spec fn view(&self) -> TopicRecordView {
        TopicRecordView { name: self.name@, channels: names(self.channels@) }
    }
}

/// The exclusion of one producer from the lookups of one topic.
#[derive(Debug)]
pub struct Tombstone {
    pub topic: String,
    pub producer_id: String,
    /// When the tombstone was set.
    pub at: u64,
}

/// A tombstone as a mathematical value.
pub struct TombstoneView {
    pub topic: Seq<char>,
    pub producer_id: Seq<char>,
    pub at: u64,
}

impl View for Tombstone {
    type V = TombstoneView;

    open spec fn view(&self) -> TombstoneView {
        TombstoneView { topic: self.topic@, producer_id: self.producer_id@, at: self.at }
    }
}

impl TombstoneView {
    /// Whether the tombstone is for producer `id` on `topic`.
    pub open spec fn covers(self, topic: Seq<char>, id: Seq<char>) -> bool {
        self.topic == topic && self.producer_id == id
    }

    /// Whether the tombstone is in force at `now`: less than `lifetime` has
    /// passed since it was set.
    pub open spec fn active(self, lifetime: u64, now: u64) -> bool {
        now < self.at + lifetime
    }
}

/// The views of registrations.
pub open spec fn registration_views(v: Seq<Registration>) -> Seq<RegistrationView> {
    v.map_values(|e: Registration| e@)
}

/// The views of topic records.
pub open spec fn record_views(v: Seq<TopicRecord>) -> Seq<TopicRecordView> {
    v.map_values(|t: TopicRecord| t@)
}

/// The views of tombstones.
pub open spec fn tombstone_views(v: Seq<Tombstone>) -> Seq<TombstoneView> {
    v.map_values(|t: Tombstone| t@)
}

/// The views of producers.
pub open spec fn producer_views(v: Seq<Producer>) -> Seq<ProducerView> {
    v.map_values(|p: Producer| p@)
}

/// The registry as a mathematical value.
pub struct RegistryView {
    /// The producers, each with its topics, in the order in which they were
    /// first registered.
    pub producers: Seq<RegistrationView>,
    /// The topics, each with its channels.
    pub topics: Seq<TopicRecordView>,
    pub tombstones: Seq<TombstoneView>,
}

impl RegistryView {
    /// The index of the registration of producer `id`, or the number of
    /// registrations.
    pub open spec fn entry_at(self, id: Seq<char>) -> int {
        first_where(self.producers, |e: RegistrationView| e.producer.id() == id)
    }

    /// Whether a producer `id` is registered.
    pub open spec fn knows(self, id: Seq<char>) -> bool {
        self.entry_at(id) < self.producers.len()
    }

    /// The index of the record of topic `name`, or the number of records.
    pub open spec fn topic_at(self, name: Seq<char>) -> int {
        first_where(self.topics, |t: TopicRecordView| t.name == name)
    }

    /// Whether topic `name` has a record.
    pub open spec fn has_topic(self, name: Seq<char>) -> bool {
        self.topic_at(name) < self.topics.len()
    }

    /// The channels announced for topic `name`.
    pub open spec fn channels_of(self, name: Seq<char>) -> Seq<Seq<char>> {
        if self.has_topic(name) {
            self.topics[self.topic_at(name)].channels
        } else {
            Seq::empty()
        }
    }

    /// Whether an active tombstone excludes producer `id` from the lookups
    /// of `topic` at `now`.
    pub open spec fn tombstoned(self, topic: Seq<char>, id: Seq<char>, lifetime: u64, now: u64)
        -> bool {
        any_where(
            self.tombstones,
            |t: TombstoneView| t.covers(topic, id) && t.active(lifetime, now),
        )
    }

    /// Whether a lookup of `topic` at `now` shows the registration `e`: it
    /// is registered for the topic, it was heard of within `timeout`, and no
    /// active tombstone excludes it.
    pub open spec fn visible(
        self,
        e: RegistrationView,
        topic: Seq<char>,
        lifetime: u64,
        timeout: u64,
        now: u64,
    ) -> bool {
        &&& has_name(e.topics, topic)
        &&& !e.producer.stale(timeout, now)
        &&& !self.tombstoned(topic, e.producer.id(), lifetime, now)
    }

    /// The producers that a lookup of `topic` at `now` returns, in the order
    /// in which they were first registered.
    pub open spec fn lookup_producers(self, topic: Seq<char>, lifetime: u64, timeout: u64, now: u64)
        -> Seq<ProducerView> {
        self.producers.filter(
            |e: RegistrationView| self.visible(e, topic, lifetime, timeout, now),
        ).map_values(|e: RegistrationView| e.producer)
    }

    /// The producers registered for `topic`, whatever their state.
    pub open spec fn producers_of(self, topic: Seq<char>) -> Seq<ProducerView> {
        self.producers.filter(|e: RegistrationView| has_name(e.topics, topic)).map_values(
            |e: RegistrationView| e.producer,
        )
    }

    /// The registry with a record for topic `name`.
    pub open spec fn with_topic(self, name: Seq<char>) -> RegistryView {
        if self.has_topic(name) {
            self
        } else {
            RegistryView {
                topics: self.topics.push(TopicRecordView { name, channels: Seq::empty() }),
                ..self
            }
        }
    }

    /// The registry after producer `p` registered for `topic`: a known
    /// producer has its record replaced and the topic added to its topics; a
    /// new one joins at the end. The topic has a record.
    pub open spec fn after_register(self, topic: Seq<char>, p: ProducerView) -> RegistryView {
        let i = self.entry_at(p.id());
        let producers = if self.knows(p.id()) {
            self.producers.update(
                i,
                RegistrationView { producer: p, topics: with_name(self.producers[i].topics, topic) },
            )
        } else {
            self.producers.push(RegistrationView { producer: p, topics: seq![topic] })
        };
        (RegistryView { producers, ..self }).with_topic(topic)
    }

    /// The registry after producer `p` made itself known: a known producer
    /// has its record replaced, a new one joins at the end without topics.
    pub open spec fn after_identify(self, p: ProducerView) -> RegistryView {
        let i = self.entry_at(p.id());
        if self.knows(p.id()) {
            RegistryView {
                producers: self.producers.update(
                    i,
                    RegistrationView { producer: p, ..self.producers[i] },
                ),
                ..self
            }
        } else {
            RegistryView {
                producers: self.producers.push(
                    RegistrationView { producer: p, topics: Seq::empty() },
                ),
                ..self
            }
        }
    }

    /// The registry after producer `id` unregistered from `topic`.
    pub open spec fn after_unregister(self, topic: Seq<char>, id: Seq<char>) -> RegistryView {
        if self.knows(id) {
            let i = self.entry_at(id);
            let e = self.producers[i];
            RegistryView {
                producers: self.producers.update(
                    i,
                    RegistrationView { topics: without_name(e.topics, topic), ..e },
                ),
                ..self
            }
        } else {
            self
        }
    }

    /// The registry after `channel` was announced for `topic`.
    pub open spec fn after_add_channel(self, topic: Seq<char>, channel: Seq<char>) -> RegistryView {
        let db = self.with_topic(topic);
        let i = db.topic_at(topic);
        let t = db.topics[i];
        RegistryView {
            topics: db.topics.update(
                i,
                TopicRecordView { channels: with_name(t.channels, channel), ..t },
            ),
            ..db
        }
    }

    /// The registry after `channel` was withdrawn from `topic`.
    pub open spec fn after_remove_channel(self, topic: Seq<char>, channel: Seq<char>)
        -> RegistryView {
        if self.has_topic(topic) {
            let i = self.topic_at(topic);
            let t = self.topics[i];
            RegistryView {
                topics: self.topics.update(
                    i,
                    TopicRecordView { channels: without_name(t.channels, channel), ..t },
                ),
                ..self
            }
        } else {
            self
        }
    }

    /// The registry after topic `name` was deleted: its record is gone, and
    /// no producer is registered for it any more.
    pub open spec fn after_delete_topic(self, name: Seq<char>) -> RegistryView {
        RegistryView {
            topics: self.topics.filter(|t: TopicRecordView| t.name != name),
            producers: self.producers.map_values(|e: RegistrationView| e.withdrawn(name)),
            ..self
        }
    }

    /// The registry after producer `id` was heard of at `now`.
    pub open spec fn after_heartbeat(self, id: Seq<char>, now: u64) -> RegistryView {
        if self.knows(id) {
            let i = self.entry_at(id);
            let e = self.producers[i];
            RegistryView {
                producers: self.producers.update(
                    i,
                    RegistrationView {
                        producer: ProducerView { last_update: now, ..e.producer },
                        ..e
                    },
                ),
                ..self
            }
        } else {
            self
        }
    }

    /// The registry after producer `id` was tombstoned for `topic` at `now`.
    /// An earlier tombstone of the same producer and topic is replaced.
    pub open spec fn after_tombstone(self, topic: Seq<char>, id: Seq<char>, now: u64)
        -> RegistryView {
        let tombstones = self.tombstones.filter(|t: TombstoneView| !t.covers(topic, id)).push(
            TombstoneView { topic, producer_id: id, at: now },
        );
        if self.knows(id) {
            let i = self.entry_at(id);
            let e = self.producers[i];
            RegistryView {
                producers: self.producers.update(
                    i,
                    RegistrationView {
                        producer: ProducerView {
                            tombstoned: true,
                            tombstoned_at: Some(now),
                            ..e.producer
                        },
                        ..e
                    },
                ),
                tombstones,
                ..self
            }
        } else {
            RegistryView { tombstones, ..self }
        }
    }

    /// The registry after the producers that were silent for longer than
    /// `timeout` at `now` were removed.
    pub open spec fn after_cleanup_stale(self, timeout: u64, now: u64) -> RegistryView {
        RegistryView {
            producers: self.producers.filter(
                |e: RegistrationView| !e.producer.stale(timeout, now),
            ),
            ..self
        }
    }

    /// The registry after the tombstones that are not in force at `now` were
    /// removed.
    pub open spec fn after_cleanup_tombstones(self, lifetime: u64, now: u64) -> RegistryView {
        RegistryView {
            tombstones: self.tombstones.filter(|t: TombstoneView| t.active(lifetime, now)),
            ..self
        }
    }
}

/// The registration database.
#[derive(Debug)]
pub struct RegistrationDB {
    producers: Vec<Registration>,
    topics: Vec<TopicRecord>,
    tombstones: Vec<Tombstone>,
}

impl View for RegistrationDB {
    type V = RegistryView;

    closed spec fn view(&self) -> RegistryView {
        RegistryView {
            producers: registration_views(self.producers@),
            topics: record_views(self.topics@),
            tombstones: tombstone_views(self.tombstones@),
        }
    }
}

/// What a lookup returns.
#[derive(Debug)]
pub struct Lookup {
    pub channels: Vec<String>,
    pub producers: Vec<Producer>,
}

impl RegistrationDB {
    /// An empty database.
    pub fn new() -> (db: RegistrationDB)
        ensures
            db@.producers.len() == 0,
            db@.topics.len() == 0,
            db@.tombstones.len() == 0,
            db@.wf(),
    {
        RegistrationDB { producers: Vec::new(), topics: Vec::new(), tombstones: Vec::new() }
    }

    /// The index of the registration of producer `id`.
    fn find_producer(&self, id: &str) -> (res: Option<usize>)
        ensures
            res is Some <==> self@.knows(id@),
            res is Some ==> res->Some_0 == self@.entry_at(id@) && res->Some_0
                < self.producers@.len(),
    {
        let ghost pred = |e: Registration| e@.producer.id() == id@;
        let test = |e: &Registration| -> (r: bool)
            ensures
                r == (e@.producer.id() == id@),
            {
                let own = e.producer.get_id();
                str_equal(own.as_str(), id)
            };
        let found = position(&self.producers, test, Ghost(pred));
        proof {
            lemma_first_where_map(
                self.producers@,
                |e: Registration| e@,
                |e: RegistrationView| e.producer.id() == id@,
            );
            assert(pred =~= (|x: Registration|
                (|e: RegistrationView| e.producer.id() == id@)((|e: Registration| e@)(x))));
        }
        found
    }

    /// The index of the record of topic `name`.
    fn find_topic(&self, name: &str) -> (res: Option<usize>)
        ensures
            res is Some <==> self@.has_topic(name@),
            res is Some ==> res->Some_0 == self@.topic_at(name@) && res->Some_0
                < self.topics@.len(),
    {
        let ghost pred = |t: TopicRecord| t@.name == name@;
        let test = |t: &TopicRecord| -> (r: bool)
            ensures
                r == (t@.name == name@),
            {
                let same = str_equal(t.name.as_str(), name);
                same
            };
        let found = position(&self.topics, test, Ghost(pred));
        proof {
            lemma_first_where_map(
                self.topics@,
                |t: TopicRecord| t@,
                |t: TopicRecordView| t.name == name@,
            );
            assert(pred =~= (|x: TopicRecord|
                (|t: TopicRecordView| t.name == name@)((|t: TopicRecord| t@)(x))));
        }
        found
    }

    /// Makes sure that topic `name` has a record.
    pub fn create_topic(&mut self, name: &str)
        ensures
            final(self)@ == old(self)@.with_topic(name@),
            old(self)@.wf() ==> final(self)@.wf(),
    {
        proof {
            if old(self)@.wf() {
                old(self)@.lemma_wf_kept(name@, Seq::empty(), blank_producer(), Seq::empty(), 0, 0);
            }
        }
        if self.find_topic(name).is_none() {
            let ghost before = record_views(self.topics@);
            let record = TopicRecord { name: String::from_str(name), channels: Vec::new() };
            proof {
                assert(names(record.channels@) =~= Seq::<Seq<char>>::empty());
            }
            self.topics.push(record);
            proof {
                assert(record_views(self.topics@) =~= before.push(record@));
            }
        }
    }

    /// Deletes topic `name`: its record, with the channels announced for it,
    /// and the registration of every producer for it.
    pub fn delete_topic(&mut self, name: &str)
        ensures
            final(self)@ == old(self)@.after_delete_topic(name@),
            old(self)@.wf() ==> final(self)@.wf(),
    {
        proof {
            if old(self)@.wf() {
                old(self)@.lemma_wf_kept(name@, Seq::empty(), blank_producer(), Seq::empty(), 0, 0);
            }
        }
        let ghost registered = registration_views(self.producers@);
        let n = self.producers.len();
        let mut k: usize = 0;
        while k < n
            invariant
                k <= n,
                n == registered.len(),
                self.producers@.len() == n,
                self.topics == old(self).topics,
                self.tombstones == old(self).tombstones,
                forall|j: int|
                    0 <= j < k ==> #[trigger] registration_views(self.producers@)[j]
                        == registered[j].withdrawn(name@),
                forall|j: int|
                    k <= j < n ==> #[trigger] registration_views(self.producers@)[j]
                        == registered[j],
            decreases n - k,
        {
            let ghost before = registration_views(self.producers@);
            let mut entry = self.producers.remove(k);
            let ghost was = entry@;
            remove_name(&mut entry.topics, name);
            self.producers.insert(k, entry);
            proof {
                assert(was == before[k as int]);
                assert(before[k as int] == registered[k as int]);
                assert(entry@ == was.withdrawn(name@));
                assert(registration_views(self.producers@) =~= before.update(k as int, entry@));
                assert forall|j: int| 0 <= j < k + 1 implies #[trigger] registration_views(
                    self.producers@,
                )[j] == registered[j].withdrawn(name@) by {
                    if j < k {
                        assert(before[j] == registered[j].withdrawn(name@));
                    }
                }
            }
            k = k + 1;
        }
        proof {
            assert(registration_views(self.producers@) =~= registered.map_values(
                |e: RegistrationView| e.withdrawn(name@),
            ));
        }
        let ghost pred = |t: TopicRecord| t@.name != name@;
        let keep = |t: &TopicRecord| -> (r: bool)
            ensures
                r == (t@.name != name@),
            {
                let same = str_equal(t.name.as_str(), name);
                !same
            };
        retain(&mut self.topics, keep, Ghost(pred));
        proof {
            lemma_map_filter(
                old(self).topics@,
                |t: TopicRecord| t@,
                |t: TopicRecordView| t.name != name@,
            );
            assert(pred =~= (|x: TopicRecord|
                (|t: TopicRecordView| t.name != name@)((|t: TopicRecord| t@)(x))));
        }
    }

    /// Registers `producer` for `topic`.
    pub fn register_producer(&mut self, topic: String, producer: Producer)
        ensures
            final(self)@ == old(self)@.after_register(topic@, producer@),
            old(self)@.wf() ==> final(self)@.wf(),
    {
        proof {
            if old(self)@.wf() {
                old(self)@.lemma_wf_kept(topic@, Seq::empty(), producer@, Seq::empty(), 0, 0);
            }
        }
        let id = producer.get_id();
        let ghost before = registration_views(self.producers@);
        match self.find_producer(id.as_str()) {
            Some(i) => {
                let mut entry = self.producers.remove(i);
                if !contains_name(&entry.topics, topic.as_str()) {
                    let ghost had = names(entry.topics@);
                    entry.topics.push(topic.clone());
                    proof {
                        assert(names(entry.topics@) =~= had.push(topic@));
                    }
                }
                entry.producer = producer;
                self.producers.insert(i, entry);
                proof {
                    assert(registration_views(self.producers@) =~= before.update(i as int, entry@));
                }
            },
            None => {
                let mut topics: Vec<String> = Vec::new();
                topics.push(topic.clone());
                let entry = Registration { producer, topics };
                proof {
                    assert(names(entry.topics@) =~= seq![topic@]);
                }
                self.producers.push(entry);
                proof {
                    assert(registration_views(self.producers@) =~= before.push(entry@));
                }
            },
        }
        self.create_topic(topic.as_str());
    }

    /// Records the producer `producer`, which made itself known.
    pub fn identify_producer(&mut self, producer: Producer)
        ensures
            final(self)@ == old(self)@.after_identify(producer@),
            old(self)@.wf() ==> final(self)@.wf(),
    {
        proof {
            if old(self)@.wf() {
                old(self)@.lemma_wf_kept(Seq::empty(), Seq::empty(), producer@, Seq::empty(), 0, 0);
            }
        }
        let id = producer.get_id();
        let ghost before = registration_views(self.producers@);
        match self.find_producer(id.as_str()) {
            Some(i) => {
                let mut entry = self.producers.remove(i);
                entry.producer = producer;
                self.producers.insert(i, entry);
                proof {
                    assert(registration_views(self.producers@) =~= before.update(i as int, entry@));
                }
            },
            None => {
                let entry = Registration { producer, topics: Vec::new() };
                proof {
                    assert(names(entry.topics@) =~= Seq::<Seq<char>>::empty());
                }
                self.producers.push(entry);
                proof {
                    assert(registration_views(self.producers@) =~= before.push(entry@));
                }
            },
        }
    }

    /// Withdraws the registration of producer `producer_id` for `topic`.
    pub fn unregister_producer(&mut self, topic: &str, producer_id: &str)
        ensures
            final(self)@ == old(self)@.after_unregister(topic@, producer_id@),
            old(self)@.wf() ==> final(self)@.wf(),
    {
        proof {
            if old(self)@.wf() {
                old(self)@.lemma_wf_kept(topic@, Seq::empty(), blank_producer(), producer_id@, 0, 0);
            }
        }
        let ghost before = registration_views(self.producers@);
        match self.find_producer(producer_id) {
            Some(i) => {
                let mut entry = self.producers.remove(i);
                remove_name(&mut entry.topics, topic);
                self.producers.insert(i, entry);
                proof {
                    assert(registration_views(self.producers@) =~= before.update(i as int, entry@));
                }
            },
            None => {},
        }
    }

    /// The producers registered for `topic`, whatever their state.
    pub fn get_producers(&self, topic: &str) -> (out: Vec<Producer>)
        ensures
            producer_views(out@) == self@.producers_of(topic@),
    {
        let ghost all = self@.producers;
        let ghost pred = |e: RegistrationView| has_name(e.topics, topic@);
        let ghost pick = |e: RegistrationView| e.producer;
        let mut out: Vec<Producer> = Vec::new();
        let n = self.producers.len();
        let mut i: usize = 0;
        proof {
            assert(all.take(0) =~= Seq::<RegistrationView>::empty());
            assert(producer_views(out@) =~= all.take(0).filter(pred).map_values(pick));
        }
        while i < n
            invariant
                i <= n,
                n == self.producers@.len(),
                all == self@.producers,
                pred == |e: RegistrationView| has_name(e.topics, topic@),
                pick == |e: RegistrationView| e.producer,
                producer_views(out@) == all.take(i as int).filter(pred).map_values(pick),
            decreases n - i,
        {
            proof {
                lemma_filter_step(all, i as int, pred);
            }
            if contains_name(&self.producers[i].topics, topic) {
                let ghost before = producer_views(out@);
                let p = self.producers[i].producer.clone();
                out.push(p);
                proof {
                    assert(producer_views(out@) =~= before.push(p@));
                    assert(all.take(i as int).filter(pred).push(all[i as int]).map_values(pick)
                        =~= all.take(i as int).filter(pred).map_values(pick).push(p@));
                }
            }
            i = i + 1;
        }
        proof {
            assert(all.take(n as int) =~= all);
        }
        out
    }

    /// Every producer, in the order in which they were first registered.
    pub fn get_all_producers(&self) -> (out: Vec<Producer>)
        ensures
            producer_views(out@) == self@.producers.map_values(|e: RegistrationView| e.producer),
    {
        let ghost all = self@.producers;
        let ghost pick = |e: RegistrationView| e.producer;
        let mut out: Vec<Producer> = Vec::new();
        let n = self.producers.len();
        let mut i: usize = 0;
        while i < n
            invariant
                i <= n,
                n == self.producers@.len(),
                all == self@.producers,
                pick == |e: RegistrationView| e.producer,
                producer_views(out@) == all.take(i as int).map_values(pick),
            decreases n - i,
        {
            let ghost before = producer_views(out@);
            let p = self.producers[i].producer.clone();
            out.push(p);
            proof {
                assert(producer_views(out@) =~= before.push(p@));
                assert(all.take(i + 1).map_values(pick) =~= all.take(i as int).map_values(
                    pick,
                ).push(p@));
            }
            i = i + 1;
        }
        proof {
            assert(all.take(n as int) =~= all);
        }
        out
    }

    /// The names of the topics that have a record.
    pub fn get_all_topics(&self) -> (out: Vec<String>)
        ensures
            names(out@) == self@.topics.map_values(|t: TopicRecordView| t.name),
    {
        let ghost all = self@.topics;
        let ghost pick = |t: TopicRecordView| t.name;
        let mut out: Vec<String> = Vec::new();
        let n = self.topics.len();
        let mut i: usize = 0;
        while i < n
            invariant
                i <= n,
                n == self.topics@.len(),
                all == self@.topics,
                pick == |t: TopicRecordView| t.name,
                names(out@) == all.take(i as int).map_values(pick),
            decreases n - i,
        {
            let ghost before = names(out@);
            let name = self.topics[i].name.clone();
            out.push(name);
            proof {
                assert(names(out@) =~= before.push(name@));
                assert(all.take(i + 1).map_values(pick) =~= all.take(i as int).map_values(
                    pick,
                ).push(name@));
            }
            i = i + 1;
        }
        proof {
            assert(all.take(n as int) =~= all);
        }
        out
    }

    /// Announces `channel` for `topic`; a channel that is announced already
    /// is not announced twice.
    pub fn add_channel(&mut self, topic: &str, channel: &str)
        ensures
            final(self)@ == old(self)@.after_add_channel(topic@, channel@),
            old(self)@.wf() ==> final(self)@.wf(),
    {
        proof {
            if old(self)@.wf() {
                old(self)@.lemma_wf_kept(topic@, channel@, blank_producer(), Seq::empty(), 0, 0);
            }
        }
        self.create_topic(topic);
        let ghost before = record_views(self.topics@);
        match self.find_topic(topic) {
            Some(i) => {
                let mut record = self.topics.remove(i);
                if !contains_name(&record.channels, channel) {
                    let ghost had = names(record.channels@);
                    let name = String::from_str(channel);
                    record.channels.push(name);
                    proof {
                        assert(names(record.channels@) =~= had.push(channel@));
                    }
                }
                self.topics.insert(i, record);
                proof {
                    assert(record_views(self.topics@) =~= before.update(i as int, record@));
                }
            },
            None => {
                proof {
                    let db = old(self)@;
                    lemma_first_where(db.topics, |t: TopicRecordView| t.name == topic@);
                    if !db.has_topic(topic@) {
                        let grown = db.with_topic(topic@).topics;
                        crate::seqs::lemma_first_where_is(
                            grown,
                            |t: TopicRecordView| t.name == topic@,
                            db.topics.len() as int,
                        );
                    }
                }
            },
        }
    }

    /// Withdraws `channel` from `topic`.
    pub fn remove_channel(&mut self, topic: &str, channel: &str)
        ensures
            final(self)@ == old(self)@.after_remove_channel(topic@, channel@),
            old(self)@.wf() ==> final(self)@.wf(),
    {
        proof {
            if old(self)@.wf() {
                old(self)@.lemma_wf_kept(topic@, channel@, blank_producer(), Seq::empty(), 0, 0);
            }
        }
        let ghost before = record_views(self.topics@);
        match self.find_topic(topic) {
            Some(i) => {
                let mut record = self.topics.remove(i);
                remove_name(&mut record.channels, channel);
                self.topics.insert(i, record);
                proof {
                    assert(record_views(self.topics@) =~= before.update(i as int, record@));
                }
            },
            None => {},
        }
    }

    /// The channels announced for `topic`.
    pub fn get_channels(&self, topic: &str) -> (out: Vec<String>)
        ensures
            names(out@) == self@.channels_of(topic@),
    {
        match self.find_topic(topic) {
            Some(i) => clone_names(&self.topics[i].channels),
            None => {
                let out: Vec<String> = Vec::new();
                proof {
                    assert(names(out@) =~= Seq::<Seq<char>>::empty());
                }
                out
            },
        }
    }

    /// Records that producer `producer_id` was heard of just now.
    pub fn update_producer_heartbeat(&mut self, producer_id: &str)
        ensures
            exists|now: u64| final(self)@ == old(self)@.after_heartbeat(producer_id@, now),
            old(self)@.wf() ==> final(self)@.wf(),
    {
        let now = now_millis();
        self.update_producer_heartbeat_at(producer_id, now);
        proof {
            assert(final(self)@ == old(self)@.after_heartbeat(producer_id@, now));
        }
    }

    /// Records that producer `producer_id` was heard of at `now`. Tombstones
    /// stay as they are.
    pub fn update_producer_heartbeat_at(&mut self, producer_id: &str, now: u64)
        ensures
            final(self)@ == old(self)@.after_heartbeat(producer_id@, now),
            old(self)@.wf() ==> final(self)@.wf(),
    {
        proof {
            if old(self)@.wf() {
                old(self)@.lemma_wf_kept(Seq::empty(), Seq::empty(), blank_producer(), producer_id@, now, 0);
            }
        }
        let ghost before = registration_views(self.producers@);
        match self.find_producer(producer_id) {
            Some(i) => {
                let mut entry = self.producers.remove(i);
                entry.producer.update_heartbeat_at(now);
                self.producers.insert(i, entry);
                proof {
                    assert(registration_views(self.producers@) =~= before.update(i as int, entry@));
                }
            },
            None => {},
        }
    }

    /// Tombstones producer `producer_id` for `topic`, as of now.
    pub fn tombstone_producer(&mut self, topic: &str, producer_id: &str)
        ensures
            exists|now: u64| final(self)@ == old(self)@.after_tombstone(topic@, producer_id@, now),
            old(self)@.wf() ==> final(self)@.wf(),
    {
        let now = now_millis();
        self.tombstone_producer_at(topic, producer_id, now);
        proof {
            assert(final(self)@ == old(self)@.after_tombstone(topic@, producer_id@, now));
        }
    }

    /// Tombstones producer `producer_id` for `topic` at `now`: lookups of
    /// the topic leave it out until the tombstone lifetime has passed.
    pub fn tombstone_producer_at(&mut self, topic: &str, producer_id: &str, now: u64)
        ensures
            final(self)@ == old(self)@.after_tombstone(topic@, producer_id@, now),
            old(self)@.wf() ==> final(self)@.wf(),
    {
        proof {
            if old(self)@.wf() {
                old(self)@.lemma_wf_kept(topic@, Seq::empty(), blank_producer(), producer_id@, now, 0);
            }
        }
        let ghost pred = |t: Tombstone| !t@.covers(topic@, producer_id@);
        let keep = |t: &Tombstone| -> (r: bool)
            ensures
                r == !t@.covers(topic@, producer_id@),
            {
                let same_topic = str_equal(t.topic.as_str(), topic);
                let same_id = str_equal(t.producer_id.as_str(), producer_id);
                !(same_topic && same_id)
            };
        retain(&mut self.tombstones, keep, Ghost(pred));
        proof {
            lemma_map_filter(
                old(self).tombstones@,
                |t: Tombstone| t@,
                |t: TombstoneView| !t.covers(topic@, producer_id@),
            );
            assert(pred =~= (|x: Tombstone|
                (|t: TombstoneView| !t.covers(topic@, producer_id@))((|t: Tombstone| t@)(x))));
        }
        let ghost kept = tombstone_views(self.tombstones@);
        let stone = Tombstone {
            topic: String::from_str(topic),
            producer_id: String::from_str(producer_id),
            at: now,
        };
        self.tombstones.push(stone);
        proof {
            assert(tombstone_views(self.tombstones@) =~= kept.push(stone@));
        }
        let ghost before = registration_views(self.producers@);
        match self.find_producer(producer_id) {
            Some(i) => {
                let mut entry = self.producers.remove(i);
                entry.producer.tombstone_at(now);
                self.producers.insert(i, entry);
                proof {
                    assert(registration_views(self.producers@) =~= before.update(i as int, entry@));
                }
            },
            None => {},
        }
    }

    /// Removes the producers that have been silent for longer than `timeout`
    /// by now.
    pub fn cleanup_stale_producers(&mut self, timeout: u64)
        ensures
            exists|now: u64| final(self)@ == old(self)@.after_cleanup_stale(timeout, now),
            old(self)@.wf() ==> final(self)@.wf(),
    {
        let now = now_millis();
        self.cleanup_stale_producers_at(timeout, now);
        proof {
            assert(final(self)@ == old(self)@.after_cleanup_stale(timeout, now));
        }
    }

    /// Removes the producers that have been silent for longer than `timeout`
    /// at `now`, with their registrations for every topic.
    pub fn cleanup_stale_producers_at(&mut self, timeout: u64, now: u64)
        ensures
            final(self)@ == old(self)@.after_cleanup_stale(timeout, now),
            old(self)@.wf() ==> final(self)@.wf(),
    {
        proof {
            if old(self)@.wf() {
                old(self)@.lemma_wf_kept(Seq::empty(), Seq::empty(), blank_producer(), Seq::empty(), now, timeout);
            }
        }
        let ghost pred = |e: Registration| !e@.producer.stale(timeout, now);
        let keep = |e: &Registration| -> (r: bool)
            ensures
                r == !e@.producer.stale(timeout, now),
            {
                let stale = e.producer.is_stale_at(timeout, now);
                !stale
            };
        retain(&mut self.producers, keep, Ghost(pred));
        proof {
            lemma_map_filter(
                old(self).producers@,
                |e: Registration| e@,
                |e: RegistrationView| !e.producer.stale(timeout, now),
            );
            assert(pred =~= (|x: Registration|
                (|e: RegistrationView| !e.producer.stale(timeout, now))((|e: Registration| e@)(x))));
        }
    }

    /// Removes the tombstones that are older than `lifetime` by now.
    pub fn cleanup_expired_tombstones(&mut self, lifetime: u64)
        ensures
            exists|now: u64| final(self)@ == old(self)@.after_cleanup_tombstones(lifetime, now),
            old(self)@.wf() ==> final(self)@.wf(),
    {
        let now = now_millis();
        self.cleanup_expired_tombstones_at(lifetime, now);
        proof {
            assert(final(self)@ == old(self)@.after_cleanup_tombstones(lifetime, now));
        }
    }

    /// Removes the tombstones that are not in force at `now`.
    pub fn cleanup_expired_tombstones_at(&mut self, lifetime: u64, now: u64)
        ensures
            final(self)@ == old(self)@.after_cleanup_tombstones(lifetime, now),
            old(self)@.wf() ==> final(self)@.wf(),
    {
        proof {
            if old(self)@.wf() {
                old(self)@.lemma_wf_kept(Seq::empty(), Seq::empty(), blank_producer(), Seq::empty(), now, lifetime);
            }
        }
        let ghost pred = |t: Tombstone| t@.active(lifetime, now);
        let keep = |t: &Tombstone| -> (r: bool)
            ensures
                r == t@.active(lifetime, now),
            {
                let live = tombstone_active(t, lifetime, now);
                live
            };
        retain(&mut self.tombstones, keep, Ghost(pred));
        proof {
            lemma_map_filter(
                old(self).tombstones@,
                |t: Tombstone| t@,
                |t: TombstoneView| t.active(lifetime, now),
            );
            assert(pred =~= (|x: Tombstone|
                (|t: TombstoneView| t.active(lifetime, now))((|t: Tombstone| t@)(x))));
        }
    }

    /// Whether an active tombstone excludes producer `producer_id` from the
    /// lookups of `topic` at `now`.
    pub fn is_tombstoned_at(&self, topic: &str, producer_id: &str, lifetime: u64, now: u64) -> (yes:
        bool)
        ensures
            yes == self@.tombstoned(topic@, producer_id@, lifetime, now),
    {
        let ghost pred = |t: Tombstone| t@.covers(topic@, producer_id@) && t@.active(lifetime, now);
        let test = |t: &Tombstone| -> (r: bool)
            ensures
                r == (t@.covers(topic@, producer_id@) && t@.active(lifetime, now)),
            {
                let same_topic = str_equal(t.topic.as_str(), topic);
                let same_id = str_equal(t.producer_id.as_str(), producer_id);
                let live = tombstone_active(t, lifetime, now);
                same_topic && same_id && live
            };
        let found = position(&self.tombstones, test, Ghost(pred));
        proof {
            lemma_first_where_map(
                self.tombstones@,
                |t: Tombstone| t@,
                |t: TombstoneView| t.covers(topic@, producer_id@) && t.active(lifetime, now),
            );
            assert(pred =~= (|x: Tombstone|
                (|t: TombstoneView| t.covers(topic@, producer_id@) && t.active(lifetime, now))(
                    (|t: Tombstone| t@)(x),
                )));
        }
        found.is_some()
    }

    /// Answers a lookup of `topic` as of now.
    pub fn lookup(&self, topic: &str, tombstone_lifetime: u64, inactive_timeout: u64) -> (res:
        Lookup)
        ensures
            names(res.channels@) == self@.channels_of(topic@),
            exists|now: u64|
                producer_views(res.producers@) == self@.lookup_producers(
                    topic@,
                    tombstone_lifetime,
                    inactive_timeout,
                    now,
                ),
    {
        let now = now_millis();
        let res = self.lookup_at(topic, tombstone_lifetime, inactive_timeout, now);
        proof {
            assert(producer_views(res.producers@) == self@.lookup_producers(
                topic@,
                tombstone_lifetime,
                inactive_timeout,
                now,
            ));
        }
        res
    }

    /// Answers a lookup of `topic` at `now`: the channels announced for the
    /// topic, and the producers registered for it that were heard of within
    /// `inactive_timeout` and that no tombstone younger than
    /// `tombstone_lifetime` excludes.
    pub fn lookup_at(
        &self,
        topic: &str,
        tombstone_lifetime: u64,
        inactive_timeout: u64,
        now: u64,
    ) -> (res: Lookup)
        ensures
            names(res.channels@) == self@.channels_of(topic@),
            producer_views(res.producers@) == self@.lookup_producers(
                topic@,
                tombstone_lifetime,
                inactive_timeout,
                now,
            ),
            self@.wf() ==> distinct_producers(producer_views(res.producers@)),
    {
        proof {
            if self@.wf() {
                self@.lemma_lookup_distinct(topic@, tombstone_lifetime, inactive_timeout, now);
            }
        }
        let ghost all = self@.producers;
        let ghost db = self@;
        let ghost pred = |e: RegistrationView|
            db.visible(e, topic@, tombstone_lifetime, inactive_timeout, now);
        let ghost pick = |e: RegistrationView| e.producer;
        let mut out: Vec<Producer> = Vec::new();
        let n = self.producers.len();
        let mut i: usize = 0;
        proof {
            assert(all.take(0) =~= Seq::<RegistrationView>::empty());
            assert(producer_views(out@) =~= all.take(0).filter(pred).map_values(pick));
        }
        while i < n
            invariant
                i <= n,
                n == self.producers@.len(),
                all == self@.producers,
                db == self@,
                pred == |e: RegistrationView|
                    db.visible(e, topic@, tombstone_lifetime, inactive_timeout, now),
                pick == |e: RegistrationView| e.producer,
                producer_views(out@) == all.take(i as int).filter(pred).map_values(pick),
            decreases n - i,
        {
            proof {
                lemma_filter_step(all, i as int, pred);
            }
            let entry = &self.producers[i];
            let id = entry.producer.get_id();
            if contains_name(&entry.topics, topic) && !entry.producer.is_stale_at(
                inactive_timeout,
                now,
            ) && !self.is_tombstoned_at(topic, id.as_str(), tombstone_lifetime, now) {
                let ghost before = producer_views(out@);
                let p = entry.producer.clone();
                out.push(p);
                proof {
                    assert(producer_views(out@) =~= before.push(p@));
                    assert(all.take(i as int).filter(pred).push(all[i as int]).map_values(pick)
                        =~= all.take(i as int).filter(pred).map_values(pick).push(p@));
                }
            }
            i = i + 1;
        }
        proof {
            assert(all.take(n as int) =~= all);
        }
        Lookup { channels: self.get_channels(topic), producers: out }
    }
}

/// Whether tombstone `t` is in force at `now`.
fn tombstone_active(t: &Tombstone, lifetime: u64, now: u64) -> (live: bool)
    ensures
        live == t@.active(lifetime, now),
{
    now < t.at || now - t.at < lifetime
}

/// What a broker tells of itself when it connects to the registry.
#[derive(Debug)]
pub struct PeerInfo {
    pub remote_address: String,
    pub hostname: String,
    pub broadcast_address: String,
    pub tcp_port: u16,
    pub http_port: u16,
    pub version: String,
}

/// The port that a JSON number names: the number where it is one and fits
/// a port, and zero otherwise.
pub open spec fn port_named(n: Option<u64>) -> u16 {
    match n {
        Some(p) => if p <= u16::MAX {
            p as u16
        } else {
            0
        },
        None => 0,
    }
}

/// The text that a JSON string names; empty where there is none.
pub open spec fn text_named(t: Option<Seq<char>>) -> Seq<char> {
    match t {
        Some(s) => s,
        None => Seq::empty(),
    }
}

/// The port that `n` names.
fn port_of(n: Option<u64>) -> (port: u16)
    ensures
        port == port_named(n),
{
    match n {
        Some(p) => if p <= 65535 {
            p as u16
        } else {
            0
        },
        None => 0,
    }
}

/// The text that `t` names.
fn text_of_field(t: Option<String>) -> (text: String)
    ensures
        text@ == text_named(crate::protocol::text_of(t)),
{
    match t {
        Some(s) => s,
        None => {
            proof {
                reveal_strlit("");
            }
            String::from_str("")
        },
    }
}

impl PeerInfo {
    /// Whether the peer is what the JSON data `data` of an `IDENTIFY` tells
    /// of a broker that connected from `remote_address` on the host
    /// `remote_host`: host name, ports and version are what stands under
    /// their names, empty or zero where nothing does, and the broadcast
    /// address is the host of the connection where the data names none.
    pub open spec fn told_in(self, data: Seq<u8>, remote_address: Seq<char>, remote_host: Seq<char>)
        -> bool {
        let told = text_named(json_text(data, "broadcast_address"@));
        &&& self.remote_address@ == remote_address
        &&& self.hostname@ == text_named(json_text(data, "hostname"@))
        &&& self.broadcast_address@ == if told.len() > 0 {
            told
        } else {
            remote_host
        }
        &&& self.tcp_port == port_named(json_number(data, "tcp_port"@))
        &&& self.http_port == port_named(json_number(data, "http_port"@))
        &&& self.version@ == text_named(json_text(data, "version"@))
    }

    /// Reads what a broker tells of itself out of the JSON data of an
    /// `IDENTIFY` that came over a connection from `remote_address` on the
    /// host `remote_host`. Data that is no JSON document tells nothing.
    pub fn from_json(data: &[u8], remote_address: &str, remote_host: &str) -> (res: Option<
        PeerInfo,
    >)
        ensures
            res is Some <==> json_well_formed(data@),
            res is Some ==> res->Some_0.told_in(data@, remote_address@, remote_host@),
    {
        if !json_parses(data) {
            return None;
        }
        let told = text_of_field(json_string_field(data, "broadcast_address"));
        let broadcast_address = if told.as_str().unicode_len() > 0 {
            told
        } else {
            String::from_str(remote_host)
        };
        Some(
            PeerInfo {
                remote_address: String::from_str(remote_address),
                hostname: text_of_field(json_string_field(data, "hostname")),
                broadcast_address,
                tcp_port: port_of(json_u64_field(data, "tcp_port")),
                http_port: port_of(json_u64_field(data, "http_port")),
                version: text_of_field(json_string_field(data, "version")),
            },
        )
    }

    /// The producer that the peer is at `now`.
    pub open spec fn producer(self, now: u64) -> ProducerView {
        ProducerView {
            remote_address: self.remote_address@,
            hostname: self.hostname@,
            broadcast_address: self.broadcast_address@,
            tcp_port: self.tcp_port,
            http_port: self.http_port,
            version: self.version@,
            last_update: now,
            tombstoned: false,
            tombstoned_at: None,
        }
    }

    /// The producer record of the peer, heard of at `now`.
    pub fn to_producer(&self, now: u64) -> (p: Producer)
        ensures
            p@ == self.producer(now),
    {
        Producer::new_at(
            self.remote_address.clone(),
            self.hostname.clone(),
            self.broadcast_address.clone(),
            self.tcp_port,
            self.http_port,
            self.version.clone(),
            now,
        )
    }
}

/// The replies of the registry to its peers.
#[derive(Debug, Clone, Copy, PartialEq, Eq, Structural)]
pub enum RegistryReply {
    /// `OK`
    Done,
    /// `E_INVALID`
    Invalid,
    /// `E_BAD_TOPIC`
    BadTopic,
    /// `E_BAD_CHANNEL`
    BadChannel,
}

impl RegistryReply {
    /// The line that carries the reply.
    pub fn as_str(&self) -> (line: &'static str)
        ensures
            line@ == match *self {
                RegistryReply::Done => "OK\n"@,
                RegistryReply::Invalid => "E_INVALID\n"@,
                RegistryReply::BadTopic => "E_BAD_TOPIC\n"@,
                RegistryReply::BadChannel => "E_BAD_CHANNEL\n"@,
            },
    {
        match self {
            RegistryReply::Done => "OK\n",
            RegistryReply::Invalid => "E_INVALID\n",
            RegistryReply::BadTopic => "E_BAD_TOPIC\n",
            RegistryReply::BadChannel => "E_BAD_CHANNEL\n",
        }
    }
}

/// The verbs of the registration protocol.
#[derive(Debug, Clone, Copy, PartialEq, Eq, Structural)]
pub enum RegistryVerb {
    Identify,
    Register,
    Unregister,
    Ping,
    Quit,
}

/// The ASCII word of a verb.
pub open spec fn registry_word(v: RegistryVerb) -> Seq<u8> {
    match v {
        RegistryVerb::Identify => seq![0x49u8, 0x44, 0x45, 0x4e, 0x54, 0x49, 0x46, 0x59],
        RegistryVerb::Register => seq![0x52u8, 0x45, 0x47, 0x49, 0x53, 0x54, 0x45, 0x52],
        RegistryVerb::Unregister => seq![0x55u8, 0x4e, 0x52, 0x45, 0x47, 0x49, 0x53, 0x54, 0x45, 0x52],
        RegistryVerb::Ping => seq![0x50u8, 0x49, 0x4e, 0x47],
        RegistryVerb::Quit => seq![0x51u8, 0x55, 0x49, 0x54],
    }
}

/// The verb that `word` spells, if any.
pub open spec fn registry_verb_of(word: Seq<u8>) -> Option<RegistryVerb> {
    if word == registry_word(RegistryVerb::Identify) {
        Some(RegistryVerb::Identify)
    } else if word == registry_word(RegistryVerb::Register) {
        Some(RegistryVerb::Register)
    } else if word == registry_word(RegistryVerb::Unregister) {
        Some(RegistryVerb::Unregister)
    } else if word == registry_word(RegistryVerb::Ping) {
        Some(RegistryVerb::Ping)
    } else if word == registry_word(RegistryVerb::Quit) {
        Some(RegistryVerb::Quit)
    } else {
        None
    }
}

fn registry_word_of(v: RegistryVerb) -> (word: Vec<u8>)
    ensures
        word@ == registry_word(v),
{
    let word = match v {
        RegistryVerb::Identify => vec![0x49u8, 0x44, 0x45, 0x4e, 0x54, 0x49, 0x46, 0x59],
        RegistryVerb::Register => vec![0x52u8, 0x45, 0x47, 0x49, 0x53, 0x54, 0x45, 0x52],
        RegistryVerb::Unregister => vec![0x55u8, 0x4e, 0x52, 0x45, 0x47, 0x49, 0x53, 0x54, 0x45, 0x52],
        RegistryVerb::Ping => vec![0x50u8, 0x49, 0x4e, 0x47],
        RegistryVerb::Quit => vec![0x51u8, 0x55, 0x49, 0x54],
    };
    proof {
        assert(word@ =~= registry_word(v));
    }
    word
}

fn registry_spells(token: &[u8], v: RegistryVerb) -> (yes: bool)
    ensures
        yes == (token@ == registry_word(v)),
{
    let word = registry_word_of(v);
    bytes_equal(token, word.as_slice())
}

/// Reads a verb of the registration protocol.
pub fn read_registry_verb(token: &[u8]) -> (res: Option<RegistryVerb>)
    ensures
        res == registry_verb_of(token@),
{
    if registry_spells(token, RegistryVerb::Identify) {
        Some(RegistryVerb::Identify)
    } else if registry_spells(token, RegistryVerb::Register) {
        Some(RegistryVerb::Register)
    } else if registry_spells(token, RegistryVerb::Unregister) {
        Some(RegistryVerb::Unregister)
    } else if registry_spells(token, RegistryVerb::Ping) {
        Some(RegistryVerb::Ping)
    } else if registry_spells(token, RegistryVerb::Quit) {
        Some(RegistryVerb::Quit)
    } else {
        None
    }
}

/// A name on a command line that the registry accepts: a well-formed topic
/// or channel name.
pub open spec fn good_name(token: Seq<u8>) -> bool {
    valid_name(token) && valid_utf8(token)
}

/// The reply to the words `tokens` of a command line from the peer `peer`.
///
/// `PING` and `QUIT` are always in order. `IDENTIFY`, and `REGISTER` and
/// `UNREGISTER` with a topic and at most one channel, need a peer that has
/// told of itself. A topic or channel that is not well-formed gets the
/// error that names it; anything else is invalid.
pub open spec fn registry_reply(tokens: Seq<Seq<u8>>, peer: Option<PeerInfo>) -> RegistryReply {
    if tokens.len() == 0 {
        RegistryReply::Invalid
    } else {
        match registry_verb_of(tokens[0]) {
            None => RegistryReply::Invalid,
            Some(RegistryVerb::Ping) => RegistryReply::Done,
            Some(RegistryVerb::Quit) => RegistryReply::Done,
            Some(RegistryVerb::Identify) => if peer is Some && tokens.len() == 1 {
                RegistryReply::Done
            } else {
                RegistryReply::Invalid
            },
            Some(_) => if peer is None || tokens.len() < 2 || tokens.len() > 3 {
                RegistryReply::Invalid
            } else if !good_name(tokens[1]) {
                RegistryReply::BadTopic
            } else if tokens.len() == 3 && !good_name(tokens[2]) {
                RegistryReply::BadChannel
            } else {
                RegistryReply::Done
            },
        }
    }
}

impl RegistryView {
    /// The registry after the command line with the words `tokens` from the
    /// peer `peer` at `now`. A command that is not answered with `OK`
    /// changes nothing.
    ///
    /// `IDENTIFY` records the peer; `PING` records that it was heard of;
    /// `REGISTER` registers it for the topic and announces the channel, if
    /// one is named; `UNREGISTER` withdraws the channel, if one is named,
    /// and else the registration for the topic.
    pub open spec fn after_command(self, tokens: Seq<Seq<u8>>, peer: Option<PeerInfo>, now: u64)
        -> RegistryView {
        if registry_reply(tokens, peer) != RegistryReply::Done {
            self
        } else {
            match registry_verb_of(tokens[0]) {
                Some(RegistryVerb::Ping) => match peer {
                    Some(p) => self.after_heartbeat(p.producer(now).id(), now),
                    None => self,
                },
                Some(RegistryVerb::Identify) => self.after_identify(peer->Some_0.producer(now)),
                Some(RegistryVerb::Register) => {
                    let topic = decode_utf8(tokens[1]);
                    let db = self.after_register(topic, peer->Some_0.producer(now));
                    if tokens.len() == 3 {
                        db.after_add_channel(topic, decode_utf8(tokens[2]))
                    } else {
                        db
                    }
                },
                Some(RegistryVerb::Unregister) => {
                    let topic = decode_utf8(tokens[1]);
                    if tokens.len() == 3 {
                        self.after_remove_channel(topic, decode_utf8(tokens[2]))
                    } else {
                        self.after_unregister(topic, peer->Some_0.producer(now).id())
                    }
                },
                _ => self,
            }
        }
    }
}

/// A well-formed name on a command line, as a string.
fn read_name(token: &Vec<u8>) -> (res: Option<String>)
    ensures
        res is Some <==> good_name(token@),
        res is Some ==> res->Some_0@ == decode_utf8(token@),
{
    if !name_bytes_ok(token.as_slice()) {
        return None;
    }
    let copy = crate::wire::copy_range(token.as_slice(), 0, token.len());
    proof {
        assert(copy@ =~= token@);
    }
    match string_from_utf8(copy) {
        Some(s) => {
            proof {
                vstd::utf8::encode_utf8_decode_utf8(s@);
            }
            Some(s)
        },
        None => None,
    }
}

impl RegistrationDB {
    /// Answers a command line of the registration protocol, as of now.
    pub fn handle_tcp_command(&mut self, command: &str, peer: &Option<PeerInfo>) -> (reply:
        RegistryReply)
        ensures
            reply == registry_reply(split_ws(command.spec_bytes()), *peer),
            exists|now: u64|
                final(self)@ == #[trigger] old(self)@.after_command(
                    split_ws(command.spec_bytes()),
                    *peer,
                    now,
                ),
            old(self)@.wf() ==> final(self)@.wf(),
    {
        let now = now_millis();
        let reply = self.handle_tcp_command_at(command, peer, now);
        proof {
            assert(final(self)@ == old(self)@.after_command(
                split_ws(command.spec_bytes()),
                *peer,
                now,
            ));
        }
        reply
    }

    /// Answers a command line of the registration protocol at `now`. The
    /// line is split into words at whitespace; `peer` is what the broker on
    /// the connection told of itself, if it did.
    pub fn handle_tcp_command_at(&mut self, command: &str, peer: &Option<PeerInfo>, now: u64) -> (reply:
        RegistryReply)
        ensures
            reply == registry_reply(split_ws(command.spec_bytes()), *peer),
            final(self)@ == old(self)@.after_command(split_ws(command.spec_bytes()), *peer, now),
            old(self)@.wf() ==> final(self)@.wf(),
    {
        let tokens = split_whitespace(command.as_bytes());
        let ghost words = split_ws(command.spec_bytes());
        let n = tokens.len();
        if n == 0 {
            return RegistryReply::Invalid;
        }
        assert(forall|k: int| 0 <= k < n ==> tokens@[k]@ == #[trigger] words[k]);
        let verb = match read_registry_verb(tokens[0].as_slice()) {
            Some(verb) => verb,
            None => {
                return RegistryReply::Invalid;
            },
        };
        match verb {
            RegistryVerb::Quit => RegistryReply::Done,
            RegistryVerb::Ping => {
                match peer {
                    Some(p) => {
                        let producer = p.to_producer(now);
                        let id = producer.get_id();
                        self.update_producer_heartbeat_at(id.as_str(), now);
                    },
                    None => {},
                }
                RegistryReply::Done
            },
            RegistryVerb::Identify => {
                match peer {
                    Some(p) => {
                        if n != 1 {
                            return RegistryReply::Invalid;
                        }
                        self.identify_producer(p.to_producer(now));
                        RegistryReply::Done
                    },
                    None => RegistryReply::Invalid,
                }
            },
            RegistryVerb::Register => {
                let p = match peer {
                    Some(p) => p,
                    None => {
                        return RegistryReply::Invalid;
                    },
                };
                if n < 2 || n > 3 {
                    return RegistryReply::Invalid;
                }
                let topic = match read_name(&tokens[1]) {
                    Some(topic) => topic,
                    None => {
                        return RegistryReply::BadTopic;
                    },
                };
                if n == 3 {
                    let channel = match read_name(&tokens[2]) {
                        Some(channel) => channel,
                        None => {
                            return RegistryReply::BadChannel;
                        },
                    };
                    self.register_producer(topic.clone(), p.to_producer(now));
                    self.add_channel(topic.as_str(), channel.as_str());
                } else {
                    self.register_producer(topic.clone(), p.to_producer(now));
                }
                RegistryReply::Done
            },
            RegistryVerb::Unregister => {
                let p = match peer {
                    Some(p) => p,
                    None => {
                        return RegistryReply::Invalid;
                    },
                };
                if n < 2 || n > 3 {
                    return RegistryReply::Invalid;
                }
                let topic = match read_name(&tokens[1]) {
                    Some(topic) => topic,
                    None => {
                        return RegistryReply::BadTopic;
                    },
                };
                if n == 3 {
                    let channel = match read_name(&tokens[2]) {
                        Some(channel) => channel,
                        None => {
                            return RegistryReply::BadChannel;
                        },
                    };
                    self.remove_channel(topic.as_str(), channel.as_str());
                } else {
                    let producer = p.to_producer(now);
                    let id = producer.get_id();
                    self.unregister_producer(topic.as_str(), id.as_str());
                }
                RegistryReply::Done
            },
        }
    }
}

/// A lookup shows every live producer: a producer that is registered for a
/// topic, that was heard of within the inactivity timeout, and that no
/// active tombstone excludes from the topic, is among the producers that a
/// lookup of the topic returns.
pub proof fn lemma_lookup_includes(
    db: RegistryView,
    i: int,
    topic: Seq<char>,
    lifetime: u64,
    timeout: u64,
    now: u64,
)
    requires
        0 <= i < db.producers.len(),
        has_name(db.producers[i].topics, topic),
        !db.producers[i].producer.stale(timeout, now),
        !db.tombstoned(topic, db.producers[i].producer.id(), lifetime, now),
    ensures
        db.lookup_producers(topic, lifetime, timeout, now).contains(db.producers[i].producer),
{
    let pred = |e: RegistrationView| db.visible(e, topic, lifetime, timeout, now);
    let shown = db.producers.filter(pred);
    db.producers.lemma_filter_contains(pred, i);
    let j = choose|j: int| 0 <= j < shown.len() && shown[j] == db.producers[i];
    let result = db.lookup_producers(topic, lifetime, timeout, now);
    assert(result[j] == db.producers[i].producer);
}

/// A lookup hides every tombstoned producer: while a tombstone for a
/// producer and a topic is in force, no producer with that identifier is
/// among the producers that a lookup of the topic returns.
pub proof fn lemma_lookup_excludes(
    db: RegistryView,
    topic: Seq<char>,
    id: Seq<char>,
    lifetime: u64,
    timeout: u64,
    now: u64,
)
    requires
        db.tombstoned(topic, id, lifetime, now),
    ensures
        forall|k: int|
            0 <= k < db.lookup_producers(topic, lifetime, timeout, now).len() ==> (
            #[trigger] db.lookup_producers(topic, lifetime, timeout, now)[k]).id() != id,
{
    let pred = |e: RegistrationView| db.visible(e, topic, lifetime, timeout, now);
    let shown = db.producers.filter(pred);
    let result = db.lookup_producers(topic, lifetime, timeout, now);
    assert forall|k: int| 0 <= k < result.len() implies (#[trigger] result[k]).id() != id by {
        db.producers.lemma_filter_pred(pred, k);
        assert(result[k] == shown[k].producer);
    }
}

/// A tombstone holds for its lifetime, whatever heartbeats arrive: from the
/// time `t0` at which a producer was tombstoned for a topic until
/// `t0 + lifetime`, lookups of the topic leave the producer out, also after
/// a heartbeat of any producer at any time.
pub proof fn lemma_tombstone_outlives_heartbeats(
    db: RegistryView,
    topic: Seq<char>,
    id: Seq<char>,
    t0: u64,
    beat_id: Seq<char>,
    beat_at: u64,
    lifetime: u64,
    timeout: u64,
    now: u64,
)
    requires
        t0 <= now < t0 + lifetime,
    ensures
        db.after_tombstone(topic, id, t0).tombstoned(topic, id, lifetime, now),
        db.after_tombstone(topic, id, t0).after_heartbeat(beat_id, beat_at).tombstoned(
            topic,
            id,
            lifetime,
            now,
        ),
        forall|k: int|
            0 <= k < db.after_tombstone(topic, id, t0).after_heartbeat(
                beat_id,
                beat_at,
            ).lookup_producers(topic, lifetime, timeout, now).len() ==> (#[trigger] db.after_tombstone(
                topic,
                id,
                t0,
            ).after_heartbeat(beat_id, beat_at).lookup_producers(topic, lifetime, timeout, now)[k]).id()
                != id,
{
    let marked = db.after_tombstone(topic, id, t0);
    let pred = |t: TombstoneView| t.covers(topic, id) && t.active(lifetime, now);
    let last = marked.tombstones.len() - 1;
    assert(pred(marked.tombstones[last]));
    lemma_any_where(marked.tombstones, pred);
    let later = marked.after_heartbeat(beat_id, beat_at);
    assert(later.tombstones == marked.tombstones);
    lemma_lookup_excludes(later, topic, id, lifetime, timeout, now);
}

/// Removing expired tombstones changes no answer: a lookup at `now` gives
/// the same producers before and after the tombstones that are not in force
/// at `now` were removed.
pub proof fn lemma_tombstone_cleanup_is_silent(
    db: RegistryView,
    topic: Seq<char>,
    lifetime: u64,
    timeout: u64,
    now: u64,
)
    ensures
        db.after_cleanup_tombstones(lifetime, now).lookup_producers(topic, lifetime, timeout, now)
            == db.lookup_producers(topic, lifetime, timeout, now),
{
    let swept = db.after_cleanup_tombstones(lifetime, now);
    let live = |t: TombstoneView| t.active(lifetime, now);
    assert forall|id: Seq<char>| swept.tombstoned(topic, id, lifetime, now) == db.tombstoned(
        topic,
        id,
        lifetime,
        now,
    ) by {
        let pred = |t: TombstoneView| t.covers(topic, id) && t.active(lifetime, now);
        lemma_any_where(db.tombstones, pred);
        lemma_any_where(swept.tombstones, pred);
        if db.tombstoned(topic, id, lifetime, now) {
            let k = choose|k: int| 0 <= k < db.tombstones.len() && pred(#[trigger] db.tombstones[k]);
            db.tombstones.lemma_filter_contains(live, k);
            let j = choose|j: int|
                0 <= j < swept.tombstones.len() && swept.tombstones[j] == db.tombstones[k];
            assert(pred(swept.tombstones[j]));
        }
        if swept.tombstoned(topic, id, lifetime, now) {
            let j = choose|j: int|
                0 <= j < swept.tombstones.len() && pred(#[trigger] swept.tombstones[j]);
            db.tombstones.lemma_filter_contains_rev(live, swept.tombstones[j]);
        }
    }
    let swept_sees = |e: RegistrationView| swept.visible(e, topic, lifetime, timeout, now);
    let db_sees = |e: RegistrationView| db.visible(e, topic, lifetime, timeout, now);
    assert(swept_sees =~= db_sees);
}

/// A producer without address, for statements that are about no producer.
pub open spec fn blank_producer() -> ProducerView {
    ProducerView {
        remote_address: Seq::empty(),
        hostname: Seq::empty(),
        broadcast_address: Seq::empty(),
        tcp_port: 0,
        http_port: 0,
        version: Seq::empty(),
        last_update: 0,
        tombstoned: false,
        tombstoned_at: None,
    }
}

/// No two of the producers `ps` have one identifier.
pub open spec fn distinct_producers(ps: Seq<ProducerView>) -> bool {
    forall|i: int, j: int| 0 <= i < j < ps.len() ==> (#[trigger] ps[i]).id() != (#[trigger] ps[j]).id()
}

/// How often a producer with the identifier `id` is among `ps`.
pub open spec fn times_listed(ps: Seq<ProducerView>, id: Seq<char>) -> nat {
    ps.filter(|p: ProducerView| p.id() == id).len()
}

impl RegistryView {
    /// The invariant of the registry: no two registrations are of one
    /// producer, no two records are of one topic, and no two tombstones are
    /// for one producer on one topic.
    pub open spec fn wf(self) -> bool {
        &&& forall|i: int, j: int|
            0 <= i < j < self.producers.len() ==> (#[trigger] self.producers[i]).producer.id() != (
            #[trigger] self.producers[j]).producer.id()
        &&& forall|i: int, j: int|
            0 <= i < j < self.topics.len() ==> (#[trigger] self.topics[i]).name != (
            #[trigger] self.topics[j]).name
        &&& forall|i: int, j: int|
            0 <= i < j < self.tombstones.len() ==> !(#[trigger] self.tombstones[i]).covers(
                (#[trigger] self.tombstones[j]).topic,
                self.tombstones[j].producer_id,
            )
    }

    /// Replacing the registration of a producer by one of the same
    /// producer, or adding one of a producer that is not known, leaves no
    /// producer registered twice.
    proof fn lemma_placed(self, e: RegistrationView)
        requires
            self.wf(),
        ensures
            self.knows(e.producer.id()) ==> (RegistryView {
                producers: self.producers.update(self.entry_at(e.producer.id()), e),
                ..self
            }).wf(),
            !self.knows(e.producer.id()) ==> (RegistryView {
                producers: self.producers.push(e),
                ..self
            }).wf(),
    {
        let id = e.producer.id();
        let test = |x: RegistrationView| x.producer.id() == id;
        lemma_first_where(self.producers, test);
        if self.knows(id) {
            let i = self.entry_at(id);
            let after = self.producers.update(i, e);
            assert forall|a: int, b: int| 0 <= a < b < after.len() implies (
            #[trigger] after[a]).producer.id() != (#[trigger] after[b]).producer.id() by {
                assert(self.producers[a].producer.id() != self.producers[b].producer.id());
                assert(after[a].producer.id() == self.producers[a].producer.id());
                assert(after[b].producer.id() == self.producers[b].producer.id());
            }
        } else {
            let after = self.producers.push(e);
            assert forall|a: int, b: int| 0 <= a < b < after.len() implies (
            #[trigger] after[a]).producer.id() != (#[trigger] after[b]).producer.id() by {
                if b < self.producers.len() {
                    assert(after[a] == self.producers[a] && after[b] == self.producers[b]);
                } else {
                    assert(after[a] == self.producers[a]);
                    assert(!test(self.producers[a]));
                }
            }
        }
    }

    /// Replacing the record of a topic by one of the same name, or adding a
    /// record of a topic that has none, leaves no topic with two records.
    proof fn lemma_recorded(self, t: TopicRecordView)
        requires
            self.wf(),
        ensures
            self.has_topic(t.name) ==> (RegistryView {
                topics: self.topics.update(self.topic_at(t.name), t),
                ..self
            }).wf(),
            !self.has_topic(t.name) ==> (RegistryView { topics: self.topics.push(t), ..self }).wf(),
    {
        let test = |x: TopicRecordView| x.name == t.name;
        lemma_first_where(self.topics, test);
        if self.has_topic(t.name) {
            let i = self.topic_at(t.name);
            let after = self.topics.update(i, t);
            assert forall|a: int, b: int| 0 <= a < b < after.len() implies (#[trigger] after[a]).name
                != (#[trigger] after[b]).name by {
                assert(self.topics[a].name != self.topics[b].name);
                assert(after[a].name == self.topics[a].name);
                assert(after[b].name == self.topics[b].name);
            }
        } else {
            let after = self.topics.push(t);
            assert forall|a: int, b: int| 0 <= a < b < after.len() implies (#[trigger] after[a]).name
                != (#[trigger] after[b]).name by {
                if b < self.topics.len() {
                    assert(after[a] == self.topics[a] && after[b] == self.topics[b]);
                } else {
                    assert(after[a] == self.topics[a]);
                    assert(!test(self.topics[a]));
                }
            }
        }
    }

    /// Every operation keeps the invariant of the registry.
    pub proof fn lemma_wf_kept(
        self,
        topic: Seq<char>,
        channel: Seq<char>,
        p: ProducerView,
        id: Seq<char>,
        now: u64,
        limit: u64,
    )
        requires
            self.wf(),
        ensures
            self.with_topic(topic).wf(),
            self.after_register(topic, p).wf(),
            self.after_identify(p).wf(),
            self.after_unregister(topic, id).wf(),
            self.after_add_channel(topic, channel).wf(),
            self.after_remove_channel(topic, channel).wf(),
            self.after_delete_topic(topic).wf(),
            self.after_heartbeat(id, now).wf(),
            self.after_tombstone(topic, id, now).wf(),
            self.after_cleanup_stale(limit, now).wf(),
            self.after_cleanup_tombstones(limit, now).wf(),
    {
        let by_id = |e: RegistrationView| e.producer.id();
        let by_name = |t: TopicRecordView| t.name;
        let by_pair = |t: TombstoneView| (t.topic, t.producer_id);
        assert(distinct_by(self.producers, by_id));
        assert(distinct_by(self.topics, by_name));
        assert(distinct_by(self.tombstones, by_pair));
        // topics
        self.lemma_recorded(TopicRecordView { name: topic, channels: Seq::empty() });
        let db = self.with_topic(topic);
        lemma_first_where(db.topics, |x: TopicRecordView| x.name == topic);
        if !self.has_topic(topic) {
            let last = db.topics[db.topics.len() - 1];
            assert(last.name == topic);
            assert((|x: TopicRecordView| x.name == topic)(last));
        }
        assert(db.has_topic(topic));
        assert(db.wf());
        if db.has_topic(topic) {
            let t = db.topics[db.topic_at(topic)];
            db.lemma_recorded(TopicRecordView { channels: with_name(t.channels, channel), ..t });
        }
        lemma_first_where(self.topics, |x: TopicRecordView| x.name == topic);
        if self.has_topic(topic) {
            let t = self.topics[self.topic_at(topic)];
            self.lemma_recorded(TopicRecordView { channels: without_name(t.channels, channel), ..t });
        }
        lemma_filter_distinct(self.topics, by_name, |t: TopicRecordView| t.name != topic);
        assert(distinct_by(self.topics.filter(|t: TopicRecordView| t.name != topic), by_name));
        // producers
        lemma_first_where(self.producers, |x: RegistrationView| x.producer.id() == p.id());
        if self.knows(p.id()) {
            let e = self.producers[self.entry_at(p.id())];
            self.lemma_placed(RegistrationView { producer: p, topics: with_name(e.topics, topic) });
            self.lemma_placed(RegistrationView { producer: p, ..e });
        } else {
            self.lemma_placed(RegistrationView { producer: p, topics: seq![topic] });
            self.lemma_placed(RegistrationView { producer: p, topics: Seq::empty() });
        }
        let placed = if self.knows(p.id()) {
            self.producers.update(
                self.entry_at(p.id()),
                RegistrationView {
                    producer: p,
                    topics: with_name(self.producers[self.entry_at(p.id())].topics, topic),
                },
            )
        } else {
            self.producers.push(RegistrationView { producer: p, topics: seq![topic] })
        };
        (RegistryView { producers: placed, ..self }).lemma_recorded(
            TopicRecordView { name: topic, channels: Seq::empty() },
        );
        lemma_first_where(self.producers, |x: RegistrationView| x.producer.id() == id);
        if self.knows(id) {
            let e = self.producers[self.entry_at(id)];
            self.lemma_placed(RegistrationView { topics: without_name(e.topics, topic), ..e });
            self.lemma_placed(
                RegistrationView { producer: ProducerView { last_update: now, ..e.producer }, ..e },
            );
            self.lemma_placed(
                RegistrationView {
                    producer: ProducerView {
                        tombstoned: true,
                        tombstoned_at: Some(now),
                        ..e.producer
                    },
                    ..e
                },
            );
        }
        lemma_map_distinct(self.producers, by_id, |e: RegistrationView| e.withdrawn(topic));
        assert(distinct_by(
            self.producers.map_values(|e: RegistrationView| e.withdrawn(topic)),
            by_id,
        ));
        lemma_filter_distinct(
            self.producers,
            by_id,
            |e: RegistrationView| !e.producer.stale(limit, now),
        );
        assert(distinct_by(
            self.producers.filter(|e: RegistrationView| !e.producer.stale(limit, now)),
            by_id,
        ));
        // tombstones
        lemma_filter_distinct(self.tombstones, by_pair, |t: TombstoneView| t.active(limit, now));
        assert(distinct_by(self.tombstones.filter(|t: TombstoneView| t.active(limit, now)), by_pair));
        let others = self.tombstones.filter(|t: TombstoneView| !t.covers(topic, id));
        lemma_filter_distinct(self.tombstones, by_pair, |t: TombstoneView| !t.covers(topic, id));
        lemma_filter_passes(self.tombstones, |t: TombstoneView| !t.covers(topic, id));
        let fresh = TombstoneView { topic, producer_id: id, at: now };
        assert forall|k: int| 0 <= k < others.len() implies by_pair(#[trigger] others[k]) != by_pair(
            fresh,
        ) by {
            assert(!others[k].covers(topic, id));
        }
        lemma_push_distinct(others, by_pair, fresh);
        assert(distinct_by(others.push(fresh), by_pair));
    }

    /// With no producer registered twice, no lookup lists a producer twice.
    pub proof fn lemma_lookup_distinct(self, topic: Seq<char>, lifetime: u64, timeout: u64, now: u64)
        requires
            self.wf(),
        ensures
            distinct_producers(self.lookup_producers(topic, lifetime, timeout, now)),
            distinct_producers(self.producers_of(topic)),
    {
        let by_id = |e: RegistrationView| e.producer.id();
        let pick = |e: RegistrationView| e.producer;
        assert(distinct_by(self.producers, by_id));
        let shows = |e: RegistrationView| self.visible(e, topic, lifetime, timeout, now);
        let holds = |e: RegistrationView| has_name(e.topics, topic);
        lemma_filter_distinct(self.producers, by_id, shows);
        lemma_filter_distinct(self.producers, by_id, holds);
        let shown = self.producers.filter(shows).map_values(pick);
        let held = self.producers.filter(holds).map_values(pick);
        assert forall|a: int, b: int| 0 <= a < b < shown.len() implies (#[trigger] shown[a]).id() != (
        #[trigger] shown[b]).id() by {
            let f = self.producers.filter(shows);
            assert(by_id(f[a]) != by_id(f[b]));
        }
        assert forall|a: int, b: int| 0 <= a < b < held.len() implies (#[trigger] held[a]).id() != (
        #[trigger] held[b]).id() by {
            let f = self.producers.filter(holds);
            assert(by_id(f[a]) != by_id(f[b]));
        }
    }

    /// With no producer registered twice, no lookup lists a producer twice,
    /// and a producer that a lookup shows is listed exactly once.
    pub proof fn lemma_lookup_once(
        self,
        i: int,
        topic: Seq<char>,
        lifetime: u64,
        timeout: u64,
        now: u64,
    )
        requires
            self.wf(),
            0 <= i < self.producers.len(),
            has_name(self.producers[i].topics, topic),
        ensures
            distinct_producers(self.lookup_producers(topic, lifetime, timeout, now)),
            distinct_producers(self.producers_of(topic)),
            times_listed(self.producers_of(topic), self.producers[i].producer.id()) == 1,
            self.visible(self.producers[i], topic, lifetime, timeout, now) ==> times_listed(
                self.lookup_producers(topic, lifetime, timeout, now),
                self.producers[i].producer.id(),
            ) == 1,
    {
        let by_id = |e: RegistrationView| e.producer.id();
        let own_id = |p: ProducerView| p.id();
        let pick = |e: RegistrationView| e.producer;
        let id = self.producers[i].producer.id();
        assert(distinct_by(self.producers, by_id));
        let shows = |e: RegistrationView| self.visible(e, topic, lifetime, timeout, now);
        let holds = |e: RegistrationView| has_name(e.topics, topic);
        lemma_filter_distinct(self.producers, by_id, shows);
        lemma_filter_distinct(self.producers, by_id, holds);
        let shown = self.producers.filter(shows).map_values(pick);
        let held = self.producers.filter(holds).map_values(pick);
        assert(distinct_by(shown, own_id)) by {
            let f = self.producers.filter(shows);
            assert forall|a: int, b: int| 0 <= a < b < shown.len() implies own_id(
                #[trigger] shown[a],
            ) != own_id(#[trigger] shown[b]) by {
                assert(by_id(f[a]) != by_id(f[b]));
            }
        }
        assert(distinct_by(held, own_id)) by {
            let f = self.producers.filter(holds);
            assert forall|a: int, b: int| 0 <= a < b < held.len() implies own_id(
                #[trigger] held[a],
            ) != own_id(#[trigger] held[b]) by {
                assert(by_id(f[a]) != by_id(f[b]));
            }
        }
        let same = |p: ProducerView| p.id() == id;
        lemma_one_of_key(shown, own_id, same, id);
        lemma_one_of_key(held, own_id, same, id);
        self.producers.lemma_filter_contains(holds, i);
        let j = choose|j: int|
            0 <= j < self.producers.filter(holds).len() && self.producers.filter(holds)[j]
                == self.producers[i];
        assert(held[j] == self.producers[i].producer);
        held.lemma_filter_contains(same, j);
        assert(held.filter(same).len() > 0);
        if self.visible(self.producers[i], topic, lifetime, timeout, now) {
            self.producers.lemma_filter_contains(shows, i);
            let k = choose|k: int|
                0 <= k < self.producers.filter(shows).len() && self.producers.filter(shows)[k]
                    == self.producers[i];
            assert(shown[k] == self.producers[i].producer);
            shown.lemma_filter_contains(same, k);
            assert(shown.filter(same).len() > 0);
        }
    }
}

} // verus!
