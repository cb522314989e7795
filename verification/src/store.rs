//! The keyed-record store of the workbench.
//!
//! [`AppData`] holds every persisted record: broker configurations, stored
//! subscriptions, message history and command templates, each keyed by an id
//! drawn from a per-kind counter. All operations are pure in-memory
//! bookkeeping; reading and writing the backing file is the shell's job, as
//! is the lock that shares one store among callers.

use vstd::prelude::*;
use vstd::seq_lib::group_seq_properties;

use crate::engine;
use crate::models::{CommandTemplate, CreateScriptRequest, CreateTemplateRequest, MessageHistory,
    MqttServer, Script, Subscription, UpdateScriptRequest, UpdateSubscriptionRequest,
    UpdateTemplateRequest};

verus! {

broadcast use group_seq_properties;

/// Unfolds `filter` at the front of a sequence: the filtered sequence keeps
/// the first element exactly when the predicate holds of it.
pub proof fn lemma_filter_first<A>(s: Seq<A>, pred: spec_fn(A) -> bool)
    requires
        s.len() > 0,
    ensures
        s.filter(pred) == if pred(s.first()) {
            seq![s.first()] + s.drop_first().filter(pred)
        } else {
            s.drop_first().filter(pred)
        },
    decreases s.len(),
{
    reveal(Seq::filter);
    if s.len() == 1 {
        assert(s.drop_last() =~= Seq::<A>::empty());
        assert(s.drop_first() =~= Seq::<A>::empty());
        if pred(s.first()) {
            assert(s.filter(pred) =~= seq![s.first()] + s.drop_first().filter(pred));
        }
    } else {
        let head = s.drop_last();
        lemma_filter_first(head, pred);
        assert(head.first() == s.first());
        assert(head.drop_first() =~= s.drop_first().drop_last());
        if pred(s.first()) {
            assert(s.filter(pred) =~= seq![s.first()] + s.drop_first().filter(pred)) by {
                if pred(s.last()) {
                    assert(s.drop_first().filter(pred) =~= s.drop_first().drop_last().filter(pred).push(
                        s.last(),
                    ));
                    assert((seq![s.first()] + s.drop_first().drop_last().filter(pred)).push(s.last())
                        =~= seq![s.first()] + s.drop_first().drop_last().filter(pred).push(s.last()));
                } else {
                    assert(s.drop_first().filter(pred) =~= s.drop_first().drop_last().filter(pred));
                }
            }
        } else {
            assert(s.filter(pred) =~= s.drop_first().filter(pred)) by {
                if pred(s.last()) {
                    assert(s.drop_first().filter(pred) =~= s.drop_first().drop_last().filter(pred).push(
                        s.last(),
                    ));
                } else {
                    assert(s.drop_first().filter(pred) =~= s.drop_first().drop_last().filter(pred));
                }
            }
        }
    }
}

fn opt_id_eq(a: &Option<i64>, b: &Option<i64>) -> (r: bool)
    ensures
        r == (*a == *b),
{
    match (a, b) {
        (Some(x), Some(y)) => *x == *y,
        (None, None) => true,
        _ => false,
    }
}

/// The index of the first broker record with the given id, if any.
fn server_index(v: &Vec<MqttServer>, id: &Option<i64>) -> (r: Option<usize>)
    ensures
        match r {
            Some(i) => {
                &&& i < v@.len()
                &&& v@[i as int].id == *id
                &&& forall|j: int| 0 <= j < i ==> (#[trigger] v@[j].id) != *id
            },
            None => forall|j: int| 0 <= j < v@.len() ==> (#[trigger] v@[j].id) != *id,
        },
{
    let n = v.len();
    let mut i: usize = 0;
    while i < n
        invariant
            i <= n,
            n == v@.len(),
            forall|j: int| 0 <= j < i ==> (#[trigger] v@[j].id) != *id,
        decreases n - i,
    {
        if opt_id_eq(&v[i].id, id) {
            return Some(i);
        }
        i += 1;
    }
    None
}

/// All records of the workbench, plus the id counter of each record kind.
pub struct AppData {
    pub servers: Vec<MqttServer>,
    pub subscriptions: Vec<Subscription>,
    pub messages: Vec<MessageHistory>,
    pub templates: Vec<CommandTemplate>,
    pub scripts: Vec<Script>,
    pub next_server_id: i64,
    pub next_subscription_id: i64,
    pub next_message_id: i64,
    pub next_template_id: i64,
    pub next_script_id: i64,
}

/// Whether a record id stays within the counter it was drawn from.
pub open spec fn id_bounded(id: Option<i64>, bound: i64) -> bool {
    match id {
        Option::Some(x) => x <= bound,
        Option::None => true,
    }
}

impl AppData {
    /// Every stored record's id was drawn from its kind's counter: no stored
    /// id exceeds the counter, so each create hands out an id that no record
    /// of its kind carries.
    pub open spec fn wf(self) -> bool {
        &&& forall|i: int|
            0 <= i < self.servers@.len() ==> id_bounded(
                (#[trigger] self.servers@[i]).id,
                self.next_server_id,
            )
        &&& forall|i: int|
            0 <= i < self.subscriptions@.len() ==> id_bounded(
                (#[trigger] self.subscriptions@[i]).id,
                self.next_subscription_id,
            )
        &&& forall|i: int|
            0 <= i < self.messages@.len() ==> id_bounded(
                (#[trigger] self.messages@[i]).id,
                self.next_message_id,
            )
        &&& forall|i: int|
            0 <= i < self.templates@.len() ==> id_bounded(
                (#[trigger] self.templates@[i]).id,
                self.next_template_id,
            )
        &&& forall|i: int|
            0 <= i < self.scripts@.len() ==> id_bounded(
                (#[trigger] self.scripts@[i]).id,
                self.next_script_id,
            )
    }
}

/// Every element of a filtered sequence is an element of the original.
pub proof fn lemma_filter_members<A>(s: Seq<A>, pred: spec_fn(A) -> bool)
    ensures
        forall|i: int|
            0 <= i < s.filter(pred).len() ==> s.contains(#[trigger] s.filter(pred)[i]),
    decreases s.len(),
{
    reveal(Seq::filter);
    if s.len() > 0 {
        let head = s.drop_last();
        lemma_filter_members(head, pred);
        assert forall|i: int|
            0 <= i < s.filter(pred).len() implies s.contains(#[trigger] s.filter(pred)[i]) by {
            let f = s.filter(pred);
            if pred(s.last()) && i == f.len() - 1 {
                assert(s[s.len() - 1] == s.last());
                assert(s.contains(s.last()));
            } else {
                assert(f[i] == head.filter(pred)[i]);
                assert(head.contains(head.filter(pred)[i]));
                let j = choose|j: int| 0 <= j < head.len() && head[j] == head.filter(pred)[i];
                assert(s[j] == f[i]);
                assert(s.contains(s[j]));
            }
        }
    }
}

/// Filtering keeps every remaining server id within the given bound when
/// all ids were within it before.
proof fn lemma_retained_servers_bounded(s: Seq<MqttServer>, pred: spec_fn(MqttServer) -> bool, bound: i64)
    requires
        forall|i: int| 0 <= i < s.len() ==> id_bounded((#[trigger] s[i]).id, bound),
    ensures
        forall|i: int|
            0 <= i < s.filter(pred).len() ==> id_bounded((#[trigger] s.filter(pred)[i]).id, bound),
{
    lemma_filter_members(s, pred);
    assert forall|i: int|
        0 <= i < s.filter(pred).len() implies id_bounded(
        (#[trigger] s.filter(pred)[i]).id,
        bound,
    ) by {
        assert(s.contains(s.filter(pred)[i]));
        let j = choose|j: int| 0 <= j < s.len() && s[j] == s.filter(pred)[i];
        assert(id_bounded(s[j].id, bound));
    }
}

/// Filtering keeps every remaining subscription id within the given bound
/// when all ids were within it before.
proof fn lemma_retained_subscriptions_bounded(
    s: Seq<Subscription>,
    pred: spec_fn(Subscription) -> bool,
    bound: i64,
)
    requires
        forall|i: int| 0 <= i < s.len() ==> id_bounded((#[trigger] s[i]).id, bound),
    ensures
        forall|i: int|
            0 <= i < s.filter(pred).len() ==> id_bounded((#[trigger] s.filter(pred)[i]).id, bound),
{
    lemma_filter_members(s, pred);
    assert forall|i: int|
        0 <= i < s.filter(pred).len() implies id_bounded(
        (#[trigger] s.filter(pred)[i]).id,
        bound,
    ) by {
        assert(s.contains(s.filter(pred)[i]));
        let j = choose|j: int| 0 <= j < s.len() && s[j] == s.filter(pred)[i];
        assert(id_bounded(s[j].id, bound));
    }
}

/// Filtering keeps every remaining history id within the given bound when
/// all ids were within it before.
proof fn lemma_retained_messages_bounded(
    s: Seq<MessageHistory>,
    pred: spec_fn(MessageHistory) -> bool,
    bound: i64,
)
    requires
        forall|i: int| 0 <= i < s.len() ==> id_bounded((#[trigger] s[i]).id, bound),
    ensures
        forall|i: int|
            0 <= i < s.filter(pred).len() ==> id_bounded((#[trigger] s.filter(pred)[i]).id, bound),
{
    lemma_filter_members(s, pred);
    assert forall|i: int|
        0 <= i < s.filter(pred).len() implies id_bounded(
        (#[trigger] s.filter(pred)[i]).id,
        bound,
    ) by {
        assert(s.contains(s.filter(pred)[i]));
        let j = choose|j: int| 0 <= j < s.len() && s[j] == s.filter(pred)[i];
        assert(id_bounded(s[j].id, bound));
    }
}

/// Filtering keeps every remaining template id within the given bound when
/// all ids were within it before.
proof fn lemma_retained_templates_bounded(
    s: Seq<CommandTemplate>,
    pred: spec_fn(CommandTemplate) -> bool,
    bound: i64,
)
    requires
        forall|i: int| 0 <= i < s.len() ==> id_bounded((#[trigger] s[i]).id, bound),
    ensures
        forall|i: int|
            0 <= i < s.filter(pred).len() ==> id_bounded((#[trigger] s.filter(pred)[i]).id, bound),
{
    lemma_filter_members(s, pred);
    assert forall|i: int|
        0 <= i < s.filter(pred).len() implies id_bounded(
        (#[trigger] s.filter(pred)[i]).id,
        bound,
    ) by {
        assert(s.contains(s.filter(pred)[i]));
        let j = choose|j: int| 0 <= j < s.len() && s[j] == s.filter(pred)[i];
        assert(id_bounded(s[j].id, bound));
    }
}

/// Appending the freshly stamped record keeps every id within the advanced
/// counter: the old records were within the old counter, and the new record
/// carries the advanced counter itself.
proof fn lemma_pushed_messages_bounded(before: Seq<MessageHistory>, pushed: Seq<MessageHistory>, bound: i64)
    requires
        bound < i64::MAX,
        forall|i: int| 0 <= i < before.len() ==> id_bounded((#[trigger] before[i]).id, bound),
        pushed.len() == before.len() + 1,
        forall|i: int| 0 <= i < before.len() ==> #[trigger] pushed[i] == before[i],
        id_bounded(pushed.last().id, (bound + 1) as i64),
    ensures
        forall|i: int|
            0 <= i < pushed.len() ==> id_bounded((#[trigger] pushed[i]).id, (bound + 1) as i64),
{
    assert forall|i: int|
        0 <= i < pushed.len() implies id_bounded((#[trigger] pushed[i]).id, (bound + 1) as i64) by {
        if i < pushed.len() - 1 {
            assert(pushed[i] == before[i]);
            assert(id_bounded(before[i].id, bound));
        } else {
            assert(pushed[i] == pushed.last());
        }
    }
}

/// Pruning a broker's oldest entries keeps every remaining id within the
/// given bound when all ids were within it before.
proof fn lemma_prune_keeps_bounded(s: Seq<MessageHistory>, server_id: i64, k: nat, bound: i64)
    requires
        forall|i: int| 0 <= i < s.len() ==> id_bounded((#[trigger] s[i]).id, bound),
    ensures
        forall|i: int|
            0 <= i < prune_oldest(s, server_id, k).len() ==> id_bounded(
                (#[trigger] prune_oldest(s, server_id, k)[i]).id,
                bound,
            ),
    decreases s.len(),
{
    if s.len() == 0 || k == 0 {
    } else {
        assert forall|i: int|
            0 <= i < s.drop_first().len() implies id_bounded(
            (#[trigger] s.drop_first()[i]).id,
            bound,
        ) by {
            assert(s.drop_first()[i] == s[i + 1]);
        }
        if s.first().server_id == server_id {
            lemma_prune_keeps_bounded(s.drop_first(), server_id, (k - 1) as nat, bound);
        } else {
            lemma_prune_keeps_bounded(s.drop_first(), server_id, k, bound);
            let rest = prune_oldest(s.drop_first(), server_id, k);
            let whole = prune_oldest(s, server_id, k);
            assert forall|i: int| 0 <= i < whole.len() implies id_bounded(
                (#[trigger] whole[i]).id,
                bound,
            ) by {
                if i == 0 {
                    assert(whole[0] == s.first());
                    assert(s.first() == s[0]);
                } else {
                    assert(whole[i] == rest[i - 1]);
                }
            }
        }
    }
}

impl Default for AppData {
    /// A store with no records and every counter at zero.
    fn default() -> (r: AppData)
        ensures
            r.servers@ == Seq::<MqttServer>::empty(),
            r.subscriptions@ == Seq::<Subscription>::empty(),
            r.messages@ == Seq::<MessageHistory>::empty(),
            r.templates@ == Seq::<CommandTemplate>::empty(),
            r.scripts@ == Seq::<Script>::empty(),
            r.next_server_id == 0,
            r.next_subscription_id == 0,
            r.next_message_id == 0,
            r.next_template_id == 0,
            r.next_script_id == 0,
            r.wf(),
    {
        AppData {
            servers: Vec::new(),
            subscriptions: Vec::new(),
            messages: Vec::new(),
            templates: Vec::new(),
            scripts: Vec::new(),
            next_server_id: 0,
            next_subscription_id: 0,
            next_message_id: 0,
            next_template_id: 0,
            next_script_id: 0,
        }
    }
}

/// Holds when `stored` is `input` saved under the fresh id: the id and both
/// timestamps are assigned, the timestamps agree, and every other field is
/// the caller's.
pub open spec fn server_saved(stored: MqttServer, input: MqttServer, id: i64) -> bool {
    &&& stored.id == Some(id)
    &&& stored.created_at matches Some(c)
    &&& stored.updated_at matches Some(u) && u@ == stored.created_at->0@
    &&& server_payload_eq(stored, input)
}

/// The fields of a broker record that the store never invents: everything
/// but `id`, `created_at` and `updated_at`.
pub open spec fn server_payload_eq(a: MqttServer, b: MqttServer) -> bool {
    &&& a.name == b.name
    &&& a.host == b.host
    &&& a.port == b.port
    &&& a.protocol_version == b.protocol_version
    &&& a.username == b.username
    &&& a.password == b.password
    &&& a.client_id == b.client_id
    &&& a.keep_alive == b.keep_alive
    &&& a.clean_session == b.clean_session
    &&& a.use_tls == b.use_tls
    &&& a.ca_cert == b.ca_cert
    &&& a.client_cert == b.client_cert
    &&& a.client_key == b.client_key
    &&& a.client_key_password == b.client_key_password
}

impl AppData {
    /// All stored broker records, oldest first.
    pub fn get_servers(&self) -> (r: &Vec<MqttServer>)
        ensures
            r@ == self.servers@,
    {
        &self.servers
    }

    /// The first broker record with the given id, if any.
    pub fn get_server(&self, id: i64) -> (r: Option<&MqttServer>)
        ensures
            match r {
                Some(s) => {
                    &&& s.id == Some(id)
                    &&& exists|i: int|
                        0 <= i < self.servers@.len() && self.servers@[i] == *s && (forall|j: int|
                            0 <= j < i ==> self.servers@[j].id != Some(id))
                },
                None => forall|i: int|
                    0 <= i < self.servers@.len() ==> (#[trigger] self.servers@[i].id) != Some(id),
            },
    {
        let n = self.servers.len();
        let mut i: usize = 0;
        while i < n
            invariant
                i <= n,
                n == self.servers@.len(),
                forall|j: int| 0 <= j < i ==> (#[trigger] self.servers@[j].id) != Some(id),
            decreases n - i,
        {
            let found = match self.servers[i].id {
                Some(sid) => sid == id,
                None => false,
            };
            if found {
                return Some(&self.servers[i]);
            }
            i += 1;
        }
        None
    }

    /// Store a new broker record: assign the next id and both timestamps,
    /// keep every other field as given, and append it. Returns the new id.
    pub fn create_server(&mut self, server: MqttServer) -> (r: i64)
        requires
            old(self).next_server_id < i64::MAX,
        ensures
            r == old(self).next_server_id + 1,
            final(self).next_server_id == r,
            final(self).servers@.len() == old(self).servers@.len() + 1,
            final(self).servers@.drop_last() == old(self).servers@,
            server_saved(final(self).servers@.last(), server, r),
            old(self).wf() ==> forall|i: int|
                0 <= i < old(self).servers@.len() ==> (#[trigger] old(self).servers@[i]).id
                    != Some(r),
            final(self).subscriptions@ == old(self).subscriptions@,
            final(self).messages@ == old(self).messages@,
            final(self).templates@ == old(self).templates@,
            final(self).scripts@ == old(self).scripts@,
            final(self).next_subscription_id == old(self).next_subscription_id,
            final(self).next_message_id == old(self).next_message_id,
            final(self).next_template_id == old(self).next_template_id,
            final(self).next_script_id == old(self).next_script_id,
            old(self).wf() ==> final(self).wf(),
    {
        self.next_server_id = self.next_server_id + 1;
        let id = self.next_server_id;
        let ts = engine::now_rfc3339();
        let ts_copy = ts.clone();
        let mut record = server;
        record.id = Some(id);
        record.created_at = Some(ts);
        record.updated_at = Some(ts_copy);
        self.servers.push(record);
        proof {
            assert(self.servers@.drop_last() =~= old(self).servers@);
            if old(self).wf() {
                assert forall|i: int|
                    0 <= i < self.servers@.len() implies id_bounded(
                    (#[trigger] self.servers@[i]).id,
                    self.next_server_id,
                ) by {
                    if i < self.servers@.len() - 1 {
                        assert(self.servers@[i] == old(self).servers@[i]);
                        assert(id_bounded(old(self).servers@[i].id, old(self).next_server_id));
                    }
                }
                assert forall|i: int|
                    0 <= i < old(self).servers@.len() implies (#[trigger] old(self).servers@[
                i]).id != Some(id) by {
                    assert(id_bounded(old(self).servers@[i].id, old(self).next_server_id));
                }
            }
        }
        id
    }

    /// Replace the first broker record whose id equals the given record's id
    /// with the given record, stamping a fresh `updated_at`; a no-op when no
    /// record matches.
    pub fn update_server(&mut self, server: MqttServer)
        ensures
            (forall|j: int|
                0 <= j < old(self).servers@.len() ==> (#[trigger] old(self).servers@[j].id)
                    != server.id) ==> final(self).servers@ == old(self).servers@,
            (exists|i: int|
                0 <= i < old(self).servers@.len() && (#[trigger] old(self).servers@[i].id)
                    == server.id) ==> exists|i: int|
                {
                    &&& 0 <= i < old(self).servers@.len()
                    &&& old(self).servers@[i].id == server.id
                    &&& (forall|j: int| 0 <= j < i ==> old(self).servers@[j].id != server.id)
                    &&& final(self).servers@ == old(self).servers@.update(
                        i,
                        final(self).servers@[i],
                    )
                    &&& server_payload_eq(final(self).servers@[i], server)
                    &&& final(self).servers@[i].id == server.id
                    &&& final(self).servers@[i].created_at == server.created_at
                    &&& final(self).servers@[i].updated_at is Some
                },
            final(self).subscriptions@ == old(self).subscriptions@,
            final(self).messages@ == old(self).messages@,
            final(self).templates@ == old(self).templates@,
            final(self).scripts@ == old(self).scripts@,
            final(self).next_server_id == old(self).next_server_id,
            final(self).next_subscription_id == old(self).next_subscription_id,
            final(self).next_message_id == old(self).next_message_id,
            final(self).next_template_id == old(self).next_template_id,
            final(self).next_script_id == old(self).next_script_id,
            old(self).wf() ==> final(self).wf(),
    {
        match server_index(&self.servers, &server.id) {
            Some(i) => {
                let mut record = server;
                record.updated_at = Some(engine::now_rfc3339());
                let _ = self.servers.remove(i);
                self.servers.insert(i, record);
                proof {
                    assert(self.servers@ =~= old(self).servers@.update(
                        i as int,
                        self.servers@[i as int],
                    ));
                    if old(self).wf() {
                        assert forall|j: int|
                            0 <= j < self.servers@.len() implies id_bounded(
                            (#[trigger] self.servers@[j]).id,
                            self.next_server_id,
                        ) by {
                            if j != i {
                                assert(self.servers@[j] == old(self).servers@[j]);
                            } else {
                                assert(self.servers@[j].id == old(self).servers@[j].id);
                            }
                            assert(id_bounded(old(self).servers@[j].id, old(self).next_server_id));
                        }
                    }
                }
            },
            None => {},
        }
    }

    /// Remove the broker record with the given id together with its stored
    /// subscriptions and message history.
    pub fn delete_server(&mut self, id: i64)
        ensures
            final(self).servers@ == old(self).servers@.filter(
                |s: MqttServer| s.id != Some(id),
            ),
            final(self).subscriptions@ == old(self).subscriptions@.filter(
                |s: Subscription| s.server_id != id,
            ),
            final(self).messages@ == old(self).messages@.filter(
                |m: MessageHistory| m.server_id != id,
            ),
            final(self).templates@ == old(self).templates@,
            final(self).scripts@ == old(self).scripts@,
            final(self).next_server_id == old(self).next_server_id,
            final(self).next_subscription_id == old(self).next_subscription_id,
            final(self).next_message_id == old(self).next_message_id,
            final(self).next_template_id == old(self).next_template_id,
            final(self).next_script_id == old(self).next_script_id,
            old(self).wf() ==> final(self).wf(),
    {
        retain_servers_without_id(&mut self.servers, id);
        retain_subscriptions_of_other_servers(&mut self.subscriptions, id);
        retain_messages_of_other_servers(&mut self.messages, id);
        proof {
            if old(self).wf() {
                lemma_retained_servers_bounded(
                    old(self).servers@,
                    |s: MqttServer| s.id != Some(id),
                    old(self).next_server_id,
                );
                lemma_retained_subscriptions_bounded(
                    old(self).subscriptions@,
                    |s: Subscription| s.server_id != id,
                    old(self).next_subscription_id,
                );
                lemma_retained_messages_bounded(
                    old(self).messages@,
                    |m: MessageHistory| m.server_id != id,
                    old(self).next_message_id,
                );
            }
        }
    }

    /// The stored subscriptions of one broker, in stored order.
    #[verifier::loop_isolation(false)]
    pub fn get_subscriptions(&self, server_id: i64) -> (r: Vec<&Subscription>)
        ensures
            r@.map_values(|s: &Subscription| *s) == self.subscriptions@.filter(
                |s: Subscription| s.server_id == server_id,
            ),
    {
        let ghost pred = |s: Subscription| s.server_id == server_id;
        let mut out: Vec<&Subscription> = Vec::new();
        let n = self.subscriptions.len();
        let mut i: usize = 0;
        while i < n
            invariant
                i <= n,
                out@.map_values(|s: &Subscription| *s) == self.subscriptions@.subrange(
                    0,
                    i as int,
                ).filter(pred),
            decreases n - i,
        {
            let ghost prefix = self.subscriptions@.subrange(0, i as int);
            let ghost step = self.subscriptions@.subrange(0, i + 1 as int);
            proof {
                assert(step.drop_last() =~= prefix);
                assert(step.last() == self.subscriptions@[i as int]);
                reveal(Seq::filter);
            }
            if self.subscriptions[i].server_id == server_id {
                out.push(&self.subscriptions[i]);
            }
            proof {
                assert(out@.map_values(|s: &Subscription| *s) =~= step.filter(pred));
            }
            i += 1;
        }
        proof {
            assert(self.subscriptions@.subrange(0, n as int) =~= self.subscriptions@);
        }
        out
    }

    /// Store a new subscription: assign the next id and the creation
    /// timestamp, keep every other field as given, and append it. Returns a
    /// copy of the stored record.
    pub fn create_subscription(&mut self, sub: Subscription) -> (r: Subscription)
        requires
            old(self).next_subscription_id < i64::MAX,
        ensures
            final(self).next_subscription_id == old(self).next_subscription_id + 1,
            final(self).subscriptions@.len() == old(self).subscriptions@.len() + 1,
            final(self).subscriptions@.drop_last() == old(self).subscriptions@,
            ({
                let stored = final(self).subscriptions@.last();
                &&& stored.id == Some((old(self).next_subscription_id + 1) as i64)
                &&& stored.server_id == sub.server_id
                &&& stored.topic == sub.topic
                &&& stored.qos == sub.qos
                &&& stored.is_active == sub.is_active
                &&& stored.created_at is Some
                &&& subscription_like(r, stored)
            }),
            old(self).wf() ==> forall|i: int|
                0 <= i < old(self).subscriptions@.len() ==> (
                #[trigger] old(self).subscriptions@[i]).id != Some(
                    (old(self).next_subscription_id + 1) as i64,
                ),
            final(self).servers@ == old(self).servers@,
            final(self).messages@ == old(self).messages@,
            final(self).templates@ == old(self).templates@,
            final(self).scripts@ == old(self).scripts@,
            final(self).next_server_id == old(self).next_server_id,
            final(self).next_message_id == old(self).next_message_id,
            final(self).next_template_id == old(self).next_template_id,
            final(self).next_script_id == old(self).next_script_id,
            old(self).wf() ==> final(self).wf(),
    {
        self.next_subscription_id = self.next_subscription_id + 1;
        let mut record = sub;
        record.id = Some(self.next_subscription_id);
        record.created_at = Some(engine::now_rfc3339());
        let copy = clone_subscription(&record);
        self.subscriptions.push(record);
        proof {
            assert(self.subscriptions@.drop_last() =~= old(self).subscriptions@);
            if old(self).wf() {
                assert forall|i: int|
                    0 <= i < self.subscriptions@.len() implies id_bounded(
                    (#[trigger] self.subscriptions@[i]).id,
                    self.next_subscription_id,
                ) by {
                    if i < self.subscriptions@.len() - 1 {
                        assert(self.subscriptions@[i] == old(self).subscriptions@[i]);
                        assert(id_bounded(
                            old(self).subscriptions@[i].id,
                            old(self).next_subscription_id,
                        ));
                    }
                }
                assert forall|i: int|
                    0 <= i < old(self).subscriptions@.len() implies (
                #[trigger] old(self).subscriptions@[i]).id != Some(self.next_subscription_id as i64)
                    by {
                    assert(id_bounded(
                        old(self).subscriptions@[i].id,
                        old(self).next_subscription_id,
                    ));
                }
            }
        }
        copy
    }

    /// Set the active flag of the first subscription with the given id; a
    /// no-op when none matches.
    pub fn update_subscription_status(&mut self, id: i64, is_active: bool)
        ensures
            (forall|j: int|
                0 <= j < old(self).subscriptions@.len() ==> (
                #[trigger] old(self).subscriptions@[j].id) != Some(id)) ==> final(self)
                .subscriptions@ == old(self).subscriptions@,
            (exists|i: int|
                0 <= i < old(self).subscriptions@.len() && (
                #[trigger] old(self).subscriptions@[i].id) == Some(id)) ==> exists|i: int|
                {
                    &&& 0 <= i < old(self).subscriptions@.len()
                    &&& old(self).subscriptions@[i].id == Some(id)
                    &&& (forall|j: int| 0 <= j < i ==> old(self).subscriptions@[j].id != Some(id))
                    &&& final(self).subscriptions@ == old(self).subscriptions@.update(
                        i,
                        Subscription { is_active, ..old(self).subscriptions@[i] },
                    )
                },
            final(self).servers@ == old(self).servers@,
            final(self).messages@ == old(self).messages@,
            final(self).templates@ == old(self).templates@,
            final(self).scripts@ == old(self).scripts@,
            final(self).next_server_id == old(self).next_server_id,
            final(self).next_subscription_id == old(self).next_subscription_id,
            final(self).next_message_id == old(self).next_message_id,
            final(self).next_template_id == old(self).next_template_id,
            final(self).next_script_id == old(self).next_script_id,
            old(self).wf() ==> final(self).wf(),
    {
        match subscription_index(&self.subscriptions, id) {
            Some(i) => {
                let mut record = self.subscriptions.remove(i);
                record.is_active = is_active;
                self.subscriptions.insert(i, record);
                proof {
                    assert(self.subscriptions@ =~= old(self).subscriptions@.update(
                        i as int,
                        Subscription { is_active, ..old(self).subscriptions@[i as int] },
                    ));
                    if old(self).wf() {
                        assert forall|j: int|
                            0 <= j < self.subscriptions@.len() implies id_bounded(
                            (#[trigger] self.subscriptions@[j]).id,
                            self.next_subscription_id,
                        ) by {
                            if j != i {
                                assert(self.subscriptions@[j] == old(self).subscriptions@[j]);
                            } else {
                                assert(self.subscriptions@[j].id == old(self).subscriptions@[
                                j].id);
                            }
                            assert(id_bounded(
                                old(self).subscriptions@[j].id,
                                old(self).next_subscription_id,
                            ));
                        }
                    }
                }
            },
            None => {},
        }
    }

    /// Remove the subscription with the given id.
    pub fn delete_subscription(&mut self, id: i64)
        ensures
            final(self).subscriptions@ == old(self).subscriptions@.filter(
                |s: Subscription| s.id != Some(id),
            ),
            final(self).servers@ == old(self).servers@,
            final(self).messages@ == old(self).messages@,
            final(self).templates@ == old(self).templates@,
            final(self).scripts@ == old(self).scripts@,
            final(self).next_server_id == old(self).next_server_id,
            final(self).next_subscription_id == old(self).next_subscription_id,
            final(self).next_message_id == old(self).next_message_id,
            final(self).next_template_id == old(self).next_template_id,
            final(self).next_script_id == old(self).next_script_id,
            old(self).wf() ==> final(self).wf(),
    {
        retain_subscriptions_without_id(&mut self.subscriptions, id);
        proof {
            if old(self).wf() {
                lemma_retained_subscriptions_bounded(
                    old(self).subscriptions@,
                    |s: Subscription| s.id != Some(id),
                    old(self).next_subscription_id,
                );
            }
        }
    }

    /// The newest `limit` history entries of one broker, newest first.
    #[verifier::loop_isolation(false)]
    pub fn get_messages(&self, server_id: i64, limit: usize) -> (r: Vec<&MessageHistory>)
        ensures
            ({
                let all = messages_of(self.messages@, server_id);
                let taken = if limit < all.len() {
                    limit as int
                } else {
                    all.len() as int
                };
                &&& r@.len() == taken
                &&& forall|k: int|
                    0 <= k < taken ==> *(#[trigger] r@[k]) == all[all.len() - 1 - k]
            }),
    {
        let ghost pred = |m: MessageHistory| m.server_id == server_id;
        let mut all: Vec<&MessageHistory> = Vec::new();
        let n = self.messages.len();
        let mut i: usize = 0;
        while i < n
            invariant
                i <= n,
                all@.map_values(|m: &MessageHistory| *m) == self.messages@.subrange(
                    0,
                    i as int,
                ).filter(pred),
            decreases n - i,
        {
            let ghost prefix = self.messages@.subrange(0, i as int);
            let ghost step = self.messages@.subrange(0, i + 1 as int);
            proof {
                assert(step.drop_last() =~= prefix);
                assert(step.last() == self.messages@[i as int]);
                reveal(Seq::filter);
            }
            if self.messages[i].server_id == server_id {
                all.push(&self.messages[i]);
            }
            proof {
                assert(all@.map_values(|m: &MessageHistory| *m) =~= step.filter(pred));
            }
            i += 1;
        }
        proof {
            assert(self.messages@.subrange(0, n as int) =~= self.messages@);
        }
        let ghost full = messages_of(self.messages@, server_id);
        proof {
            assert(forall|k: int|
                0 <= k < all@.len() ==> *(#[trigger] all@[k]) == all@.map_values(
                    |m: &MessageHistory| *m,
                )[k]);
        }
        let mut out: Vec<&MessageHistory> = Vec::new();
        let mut taken: usize = 0;
        while taken < limit && all.len() > 0
            invariant
                taken <= limit,
                all@.len() + taken == full.len(),
                forall|k: int| 0 <= k < all@.len() ==> *(#[trigger] all@[k]) == full[k],
                out@.len() == taken,
                forall|k: int| 0 <= k < taken ==> *(#[trigger] out@[k]) == full[full.len() - 1 - k],
            decreases all.len(),
        {
            let last = all.pop().unwrap();
            out.push(last);
            taken += 1;
        }
        out
    }

    /// Store a new history entry: assign the next id and the creation
    /// timestamp and append it; then, when the broker now holds more than
    /// 1000 entries, drop its oldest entries down to 1000. Returns a copy of
    /// the stored record, which the cap never removes.
    #[verifier::loop_isolation(false)]
    pub fn create_message(&mut self, msg: MessageHistory) -> (r: MessageHistory)
        requires
            old(self).next_message_id < i64::MAX,
        ensures
            final(self).next_message_id == old(self).next_message_id + 1,
            final(self).messages@.len() >= 1,
            ({
                let stored = final(self).messages@.last();
                &&& stored.id == Some((old(self).next_message_id + 1) as i64)
                &&& stored.server_id == msg.server_id
                &&& stored.direction == msg.direction
                &&& stored.topic == msg.topic
                &&& stored.payload == msg.payload
                &&& stored.payload_format == msg.payload_format
                &&& stored.qos == msg.qos
                &&& stored.retain == msg.retain
                &&& stored.created_at is Some
                &&& message_like(r, stored)
                &&& ({
                    let pushed = old(self).messages@.push(stored);
                    let cnt = messages_of(pushed, msg.server_id).len();
                    final(self).messages@ == if cnt > 1000 {
                        prune_oldest(pushed, msg.server_id, (cnt - 1000) as nat)
                    } else {
                        pushed
                    }
                })
            }),
            old(self).wf() ==> forall|i: int|
                0 <= i < old(self).messages@.len() ==> (#[trigger] old(self).messages@[i]).id
                    != Some((old(self).next_message_id + 1) as i64),
            final(self).servers@ == old(self).servers@,
            final(self).subscriptions@ == old(self).subscriptions@,
            final(self).templates@ == old(self).templates@,
            final(self).scripts@ == old(self).scripts@,
            final(self).next_server_id == old(self).next_server_id,
            final(self).next_subscription_id == old(self).next_subscription_id,
            final(self).next_template_id == old(self).next_template_id,
            final(self).next_script_id == old(self).next_script_id,
            old(self).wf() ==> final(self).wf(),
    {
        self.next_message_id = self.next_message_id + 1;
        let server_id = msg.server_id;
        let mut record = msg;
        record.id = Some(self.next_message_id);
        record.created_at = Some(engine::now_rfc3339());
        let copy = clone_message(&record);
        self.messages.push(record);
        let ghost pushed = self.messages@;
        let ghost stored = self.messages@.last();
        let ghost pred = |m: MessageHistory| m.server_id == server_id;

        // Count this broker's entries, then drop the oldest beyond 1000.
        let n = self.messages.len();
        let mut count: usize = 0;
        let mut i: usize = 0;
        while i < n
            invariant
                i <= n,
                count <= i,
                messages_of(pushed, server_id).len() == count + pushed.skip(i as int).filter(
                    pred,
                ).len(),
            decreases n - i,
        {
            proof {
                assert(pushed.skip(i as int).first() == pushed[i as int]);
                lemma_filter_first(pushed.skip(i as int), pred);
                assert(pushed.skip(i as int).drop_first() =~= pushed.skip(i + 1 as int));
            }
            if self.messages[i].server_id == server_id {
                count += 1;
            }
            i += 1;
        }
        proof {
            assert(pushed.skip(n as int) =~= Seq::<MessageHistory>::empty());
            assert(Seq::<MessageHistory>::empty().filter(pred) =~= Seq::<
                MessageHistory,
            >::empty()) by {
                reveal(Seq::filter);
            }
        }
        if count > 1000 {
            let mut to_remove: usize = count - 1000;
            let ghost k0 = to_remove as nat;
            let mut j: usize = 0;
            proof {
                assert(pushed.skip(0) =~= pushed);
                assert(pushed.subrange(0, 0) + prune_oldest(pushed, server_id, k0) =~= prune_oldest(
                    pushed,
                    server_id,
                    k0,
                ));
            }
            while to_remove > 0
                invariant
                    j <= self.messages@.len(),
                    self.messages@.len() <= pushed.len(),
                    pushed.len() == n,
                    forall|t: int| 0 <= t < j ==> (#[trigger] self.messages@[t].server_id)
                        != server_id,
                    to_remove > 0 ==> (to_remove as nat) < self.messages@.skip(
                        j as int,
                    ).filter(pred).len(),
                    prune_oldest(pushed, server_id, k0) == self.messages@.subrange(0, j as int)
                        + prune_oldest(
                        self.messages@.skip(j as int),
                        server_id,
                        to_remove as nat,
                    ),
                    self.messages@.len() > 0 && self.messages@.last() == stored,
                    self.servers@ == old(self).servers@,
                    self.subscriptions@ == old(self).subscriptions@,
                    self.templates@ == old(self).templates@,
                    self.scripts@ == old(self).scripts@,
                    self.next_server_id == old(self).next_server_id,
                    self.next_subscription_id == old(self).next_subscription_id,
                    self.next_message_id == old(self).next_message_id + 1,
                    self.next_template_id == old(self).next_template_id,
                    self.next_script_id == old(self).next_script_id,
                decreases self.messages@.len() - j,
            {
                let ghost cur = self.messages@;
                proof {
                    assert(cur.skip(j as int).len() > 0);
                    assert(cur.skip(j as int).first() == cur[j as int]);
                    lemma_filter_first(cur.skip(j as int), pred);
                    assert(cur.skip(j as int).drop_first() =~= cur.skip(j + 1 as int));
                }
                if self.messages[j].server_id == server_id {
                    proof {
                        // Another entry of this broker lies beyond j, so j is
                        // not the last index and the stored record survives.
                        assert(cur.skip(j as int).filter(pred).len() >= 2);
                        if j + 1 == cur.len() {
                            assert(cur.skip(j as int).drop_first() =~= Seq::<
                                MessageHistory,
                            >::empty());
                            assert(Seq::<MessageHistory>::empty().filter(pred) =~= Seq::<
                                MessageHistory,
                            >::empty()) by {
                                reveal(Seq::filter);
                            }
                        }
                    }
                    let _ = self.messages.remove(j);
                    to_remove -= 1;
                    proof {
                        assert(self.messages@ =~= cur.remove(j as int));
                        assert(self.messages@.skip(j as int) =~= cur.skip(j as int).drop_first());
                        assert(self.messages@.subrange(0, j as int) =~= cur.subrange(0, j as int));
                        assert(self.messages@.last() == cur.last());
                    }
                } else {
                    proof {
                        assert(cur.subrange(0, j + 1 as int) =~= cur.subrange(0, j as int) + seq![
                            cur[j as int],
                        ]);
                        assert(cur.subrange(0, j as int) + prune_oldest(
                            cur.skip(j as int),
                            server_id,
                            to_remove as nat,
                        ) =~= cur.subrange(0, j + 1 as int) + prune_oldest(
                            cur.skip(j + 1 as int),
                            server_id,
                            to_remove as nat,
                        ));
                    }
                    j += 1;
                }
            }
            proof {
                assert(prune_oldest(
                    self.messages@.skip(j as int),
                    server_id,
                    0,
                ) == self.messages@.skip(j as int));
                assert(self.messages@.subrange(0, j as int) + self.messages@.skip(j as int)
                    =~= self.messages@);
                if old(self).wf() {
                    lemma_pushed_messages_bounded(
                        old(self).messages@,
                        pushed,
                        old(self).next_message_id,
                    );
                    lemma_prune_keeps_bounded(pushed, server_id, k0, self.next_message_id);
                }
            }
        } else {
            proof {
                if old(self).wf() {
                    lemma_pushed_messages_bounded(
                        old(self).messages@,
                        pushed,
                        old(self).next_message_id,
                    );
                }
            }
        }
        proof {
            if old(self).wf() {
                assert forall|i: int|
                    0 <= i < old(self).messages@.len() implies (#[trigger] old(self).messages@[
                i]).id != Some((old(self).next_message_id + 1) as i64) by {
                    assert(id_bounded(old(self).messages@[i].id, old(self).next_message_id));
                }
            }
        }
        copy
    }

    /// Change the requested fields of the first subscription with the given
    /// id; a field the request leaves out keeps its value. Fails exactly
    /// when no subscription matches. Returns a copy of the edited record.
    pub fn update_subscription(&mut self, req: UpdateSubscriptionRequest) -> (r: Result<
        Subscription,
        (),
    >)
        ensures
            (r is Err) <==> (forall|j: int|
                0 <= j < old(self).subscriptions@.len() ==> (
                #[trigger] old(self).subscriptions@[j].id) != Some(req.id)),
            r is Err ==> final(self).subscriptions@ == old(self).subscriptions@,
            r is Ok ==> exists|i: int|
                {
                    &&& 0 <= i < old(self).subscriptions@.len()
                    &&& old(self).subscriptions@[i].id == Some(req.id)
                    &&& (forall|j: int| 0 <= j < i ==> old(self).subscriptions@[j].id != Some(
                        req.id,
                    ))
                    &&& final(self).subscriptions@ == old(self).subscriptions@.update(
                        i,
                        final(self).subscriptions@[i],
                    )
                    &&& ({
                        let before = old(self).subscriptions@[i];
                        let after = final(self).subscriptions@[i];
                        &&& after.id == before.id
                        &&& after.server_id == before.server_id
                        &&& after.topic == if req.topic is Some {
                            req.topic->0
                        } else {
                            before.topic
                        }
                        &&& after.qos == if req.qos is Some {
                            req.qos->0
                        } else {
                            before.qos
                        }
                        &&& after.is_active == before.is_active
                        &&& after.created_at == before.created_at
                        &&& subscription_like(r->Ok_0, after)
                    })
                },
            final(self).servers@ == old(self).servers@,
            final(self).messages@ == old(self).messages@,
            final(self).templates@ == old(self).templates@,
            final(self).scripts@ == old(self).scripts@,
            final(self).next_server_id == old(self).next_server_id,
            final(self).next_subscription_id == old(self).next_subscription_id,
            final(self).next_message_id == old(self).next_message_id,
            final(self).next_template_id == old(self).next_template_id,
            final(self).next_script_id == old(self).next_script_id,
            old(self).wf() ==> final(self).wf(),
    {
        match subscription_index(&self.subscriptions, req.id) {
            Some(i) => {
                let mut record = self.subscriptions.remove(i);
                match req.topic {
                    Some(topic) => {
                        record.topic = topic;
                    },
                    None => {},
                }
                match req.qos {
                    Some(qos) => {
                        record.qos = qos;
                    },
                    None => {},
                }
                let copy = clone_subscription(&record);
                self.subscriptions.insert(i, record);
                proof {
                    assert(self.subscriptions@ =~= old(self).subscriptions@.update(
                        i as int,
                        self.subscriptions@[i as int],
                    ));
                    if old(self).wf() {
                        assert forall|j: int|
                            0 <= j < self.subscriptions@.len() implies id_bounded(
                            (#[trigger] self.subscriptions@[j]).id,
                            self.next_subscription_id,
                        ) by {
                            if j != i {
                                assert(self.subscriptions@[j] == old(self).subscriptions@[j]);
                            } else {
                                assert(self.subscriptions@[j].id == old(self).subscriptions@[
                                j].id);
                            }
                            assert(id_bounded(
                                old(self).subscriptions@[j].id,
                                old(self).next_subscription_id,
                            ));
                        }
                    }
                }
                Ok(copy)
            },
            None => Err(()),
        }
    }

    /// The stored scripts of one broker, in stored order.
    #[verifier::loop_isolation(false)]
    pub fn get_scripts(&self, server_id: i64) -> (r: Vec<&Script>)
        ensures
            r@.map_values(|s: &Script| *s) == self.scripts@.filter(
                |s: Script| s.server_id == server_id,
            ),
    {
        let ghost pred = |s: Script| s.server_id == server_id;
        let mut out: Vec<&Script> = Vec::new();
        let n = self.scripts.len();
        let mut i: usize = 0;
        while i < n
            invariant
                i <= n,
                out@.map_values(|s: &Script| *s) == self.scripts@.subrange(0, i as int).filter(
                    pred,
                ),
            decreases n - i,
        {
            let ghost prefix = self.scripts@.subrange(0, i as int);
            let ghost step = self.scripts@.subrange(0, i + 1 as int);
            proof {
                assert(step.drop_last() =~= prefix);
                assert(step.last() == self.scripts@[i as int]);
                reveal(Seq::filter);
            }
            if self.scripts[i].server_id == server_id {
                out.push(&self.scripts[i]);
            }
            proof {
                assert(out@.map_values(|s: &Script| *s) =~= step.filter(pred));
            }
            i += 1;
        }
        proof {
            assert(self.scripts@.subrange(0, n as int) =~= self.scripts@);
        }
        out
    }

    /// The first script with the given id, if any.
    pub fn get_script(&self, id: i64) -> (r: Option<&Script>)
        ensures
            match r {
                Some(s) => {
                    &&& s.id == Some(id)
                    &&& exists|i: int|
                        0 <= i < self.scripts@.len() && self.scripts@[i] == *s && (forall|j: int|
                            0 <= j < i ==> self.scripts@[j].id != Some(id))
                },
                None => forall|i: int|
                    0 <= i < self.scripts@.len() ==> (#[trigger] self.scripts@[i].id) != Some(id),
            },
    {
        match script_index(&self.scripts, id) {
            Some(i) => Some(&self.scripts[i]),
            None => None,
        }
    }

    /// The enabled scripts of one broker with the given type, in stored
    /// order.
    #[verifier::loop_isolation(false)]
    pub fn get_enabled_scripts(&self, server_id: i64, script_type: &str) -> (r: Vec<&Script>)
        ensures
            r@.map_values(|s: &Script| *s) == self.scripts@.filter(
                |s: Script| s.server_id == server_id && s.enabled && s.script_type@
                    == script_type@,
            ),
    {
        let ghost pred = |s: Script|
            s.server_id == server_id && s.enabled && s.script_type@ == script_type@;
        let mut out: Vec<&Script> = Vec::new();
        let n = self.scripts.len();
        let mut i: usize = 0;
        while i < n
            invariant
                i <= n,
                out@.map_values(|s: &Script| *s) == self.scripts@.subrange(0, i as int).filter(
                    pred,
                ),
            decreases n - i,
        {
            let ghost prefix = self.scripts@.subrange(0, i as int);
            let ghost step = self.scripts@.subrange(0, i + 1 as int);
            proof {
                assert(step.drop_last() =~= prefix);
                assert(step.last() == self.scripts@[i as int]);
                reveal(Seq::filter);
            }
            if self.scripts[i].server_id == server_id && self.scripts[i].enabled
                && crate::payload::str_eq(self.scripts[i].script_type.as_str(), script_type) {
                out.push(&self.scripts[i]);
            }
            proof {
                assert(out@.map_values(|s: &Script| *s) =~= step.filter(pred));
            }
            i += 1;
        }
        proof {
            assert(self.scripts@.subrange(0, n as int) =~= self.scripts@);
        }
        out
    }

    /// Store a new script: assign the next id and both timestamps, keep
    /// every requested field, and append it. Returns the new id.
    pub fn create_script(&mut self, req: CreateScriptRequest) -> (r: i64)
        requires
            old(self).next_script_id < i64::MAX,
        ensures
            r == old(self).next_script_id + 1,
            final(self).next_script_id == r,
            final(self).scripts@.len() == old(self).scripts@.len() + 1,
            final(self).scripts@.drop_last() == old(self).scripts@,
            script_saved(final(self).scripts@.last(), req, r),
            old(self).wf() ==> forall|i: int|
                0 <= i < old(self).scripts@.len() ==> (#[trigger] old(self).scripts@[i]).id
                    != Some(r),
            final(self).servers@ == old(self).servers@,
            final(self).subscriptions@ == old(self).subscriptions@,
            final(self).messages@ == old(self).messages@,
            final(self).templates@ == old(self).templates@,
            final(self).next_server_id == old(self).next_server_id,
            final(self).next_subscription_id == old(self).next_subscription_id,
            final(self).next_message_id == old(self).next_message_id,
            final(self).next_template_id == old(self).next_template_id,
            old(self).wf() ==> final(self).wf(),
    {
        self.next_script_id = self.next_script_id + 1;
        let id = self.next_script_id;
        let ts = engine::now_rfc3339();
        let ts_copy = ts.clone();
        let record = Script {
            id: Some(id),
            server_id: req.server_id,
            name: req.name,
            script_type: req.script_type,
            code: req.code,
            enabled: req.enabled,
            description: req.description,
            created_at: Some(ts),
            updated_at: Some(ts_copy),
        };
        self.scripts.push(record);
        proof {
            assert(self.scripts@.drop_last() =~= old(self).scripts@);
            if old(self).wf() {
                assert forall|i: int|
                    0 <= i < self.scripts@.len() implies id_bounded(
                    (#[trigger] self.scripts@[i]).id,
                    self.next_script_id,
                ) by {
                    if i < self.scripts@.len() - 1 {
                        assert(self.scripts@[i] == old(self).scripts@[i]);
                        assert(id_bounded(old(self).scripts@[i].id, old(self).next_script_id));
                    }
                }
                assert forall|i: int|
                    0 <= i < old(self).scripts@.len() implies (#[trigger] old(self).scripts@[
                i]).id != Some(id) by {
                    assert(id_bounded(old(self).scripts@[i].id, old(self).next_script_id));
                }
            }
        }
        id
    }

    /// Change the requested fields of the first script with the given id,
    /// stamping a fresh `updated_at`; a field the request leaves out keeps
    /// its value. A no-op when no script matches.
    pub fn update_script(&mut self, req: UpdateScriptRequest)
        ensures
            (forall|j: int|
                0 <= j < old(self).scripts@.len() ==> (#[trigger] old(self).scripts@[j].id)
                    != Some(req.id)) ==> final(self).scripts@ == old(self).scripts@,
            (exists|i: int|
                0 <= i < old(self).scripts@.len() && (#[trigger] old(self).scripts@[i].id)
                    == Some(req.id)) ==> exists|i: int|
                {
                    &&& 0 <= i < old(self).scripts@.len()
                    &&& old(self).scripts@[i].id == Some(req.id)
                    &&& (forall|j: int| 0 <= j < i ==> old(self).scripts@[j].id != Some(req.id))
                    &&& final(self).scripts@ == old(self).scripts@.update(
                        i,
                        final(self).scripts@[i],
                    )
                    &&& script_updated(final(self).scripts@[i], old(self).scripts@[i], req)
                },
            final(self).servers@ == old(self).servers@,
            final(self).subscriptions@ == old(self).subscriptions@,
            final(self).messages@ == old(self).messages@,
            final(self).templates@ == old(self).templates@,
            final(self).next_server_id == old(self).next_server_id,
            final(self).next_subscription_id == old(self).next_subscription_id,
            final(self).next_message_id == old(self).next_message_id,
            final(self).next_template_id == old(self).next_template_id,
            final(self).next_script_id == old(self).next_script_id,
            old(self).wf() ==> final(self).wf(),
    {
        match script_index(&self.scripts, req.id) {
            Some(i) => {
                let mut record = self.scripts.remove(i);
                match req.name {
                    Some(name) => {
                        record.name = name;
                    },
                    None => {},
                }
                match req.code {
                    Some(code) => {
                        record.code = code;
                    },
                    None => {},
                }
                match req.enabled {
                    Some(enabled) => {
                        record.enabled = enabled;
                    },
                    None => {},
                }
                match req.description {
                    Some(description) => {
                        record.description = Some(description);
                    },
                    None => {},
                }
                record.updated_at = Some(engine::now_rfc3339());
                self.scripts.insert(i, record);
                proof {
                    assert(self.scripts@ =~= old(self).scripts@.update(
                        i as int,
                        self.scripts@[i as int],
                    ));
                    if old(self).wf() {
                        assert forall|j: int|
                            0 <= j < self.scripts@.len() implies id_bounded(
                            (#[trigger] self.scripts@[j]).id,
                            self.next_script_id,
                        ) by {
                            if j != i {
                                assert(self.scripts@[j] == old(self).scripts@[j]);
                            } else {
                                assert(self.scripts@[j].id == old(self).scripts@[j].id);
                            }
                            assert(id_bounded(old(self).scripts@[j].id, old(self).next_script_id));
                        }
                    }
                }
            },
            None => {},
        }
    }

    /// Remove the script with the given id.
    pub fn delete_script(&mut self, id: i64)
        ensures
            final(self).scripts@ == old(self).scripts@.filter(|s: Script| s.id != Some(id)),
            final(self).servers@ == old(self).servers@,
            final(self).subscriptions@ == old(self).subscriptions@,
            final(self).messages@ == old(self).messages@,
            final(self).templates@ == old(self).templates@,
            final(self).next_server_id == old(self).next_server_id,
            final(self).next_subscription_id == old(self).next_subscription_id,
            final(self).next_message_id == old(self).next_message_id,
            final(self).next_template_id == old(self).next_template_id,
            final(self).next_script_id == old(self).next_script_id,
            old(self).wf() ==> final(self).wf(),
    {
        retain_scripts_without_id(&mut self.scripts, id);
        proof {
            if old(self).wf() {
                lemma_retained_scripts_bounded(
                    old(self).scripts@,
                    |s: Script| s.id != Some(id),
                    old(self).next_script_id,
                );
            }
        }
    }

    /// Set the enabled flag of the first script with the given id; a no-op
    /// when none matches.
    pub fn toggle_script(&mut self, id: i64, enabled: bool)
        ensures
            (forall|j: int|
                0 <= j < old(self).scripts@.len() ==> (#[trigger] old(self).scripts@[j].id)
                    != Some(id)) ==> final(self).scripts@ == old(self).scripts@,
            (exists|i: int|
                0 <= i < old(self).scripts@.len() && (#[trigger] old(self).scripts@[i].id)
                    == Some(id)) ==> exists|i: int|
                {
                    &&& 0 <= i < old(self).scripts@.len()
                    &&& old(self).scripts@[i].id == Some(id)
                    &&& (forall|j: int| 0 <= j < i ==> old(self).scripts@[j].id != Some(id))
                    &&& final(self).scripts@ == old(self).scripts@.update(
                        i,
                        Script { enabled, ..old(self).scripts@[i] },
                    )
                },
            final(self).servers@ == old(self).servers@,
            final(self).subscriptions@ == old(self).subscriptions@,
            final(self).messages@ == old(self).messages@,
            final(self).templates@ == old(self).templates@,
            final(self).next_server_id == old(self).next_server_id,
            final(self).next_subscription_id == old(self).next_subscription_id,
            final(self).next_message_id == old(self).next_message_id,
            final(self).next_template_id == old(self).next_template_id,
            final(self).next_script_id == old(self).next_script_id,
            old(self).wf() ==> final(self).wf(),
    {
        match script_index(&self.scripts, id) {
            Some(i) => {
                let mut record = self.scripts.remove(i);
                record.enabled = enabled;
                self.scripts.insert(i, record);
                proof {
                    assert(self.scripts@ =~= old(self).scripts@.update(
                        i as int,
                        Script { enabled, ..old(self).scripts@[i as int] },
                    ));
                    if old(self).wf() {
                        assert forall|j: int|
                            0 <= j < self.scripts@.len() implies id_bounded(
                            (#[trigger] self.scripts@[j]).id,
                            self.next_script_id,
                        ) by {
                            if j != i {
                                assert(self.scripts@[j] == old(self).scripts@[j]);
                            } else {
                                assert(self.scripts@[j].id == old(self).scripts@[j].id);
                            }
                            assert(id_bounded(old(self).scripts@[j].id, old(self).next_script_id));
                        }
                    }
                }
            },
            None => {},
        }
    }

    /// The stored templates of one broker, in stored order.
    #[verifier::loop_isolation(false)]
    pub fn get_templates(&self, server_id: i64) -> (r: Vec<&CommandTemplate>)
        ensures
            r@.map_values(|t: &CommandTemplate| *t) == self.templates@.filter(
                |t: CommandTemplate| t.server_id == server_id,
            ),
    {
        let ghost pred = |t: CommandTemplate| t.server_id == server_id;
        let mut out: Vec<&CommandTemplate> = Vec::new();
        let n = self.templates.len();
        let mut i: usize = 0;
        while i < n
            invariant
                i <= n,
                out@.map_values(|t: &CommandTemplate| *t) == self.templates@.subrange(
                    0,
                    i as int,
                ).filter(pred),
            decreases n - i,
        {
            let ghost prefix = self.templates@.subrange(0, i as int);
            let ghost step = self.templates@.subrange(0, i + 1 as int);
            proof {
                assert(step.drop_last() =~= prefix);
                assert(step.last() == self.templates@[i as int]);
                reveal(Seq::filter);
            }
            if self.templates[i].server_id == server_id {
                out.push(&self.templates[i]);
            }
            proof {
                assert(out@.map_values(|t: &CommandTemplate| *t) =~= step.filter(pred));
            }
            i += 1;
        }
        proof {
            assert(self.templates@.subrange(0, n as int) =~= self.templates@);
        }
        out
    }

    /// The first template with the given id, if any.
    pub fn get_template(&self, id: i64) -> (r: Option<&CommandTemplate>)
        ensures
            match r {
                Some(t) => {
                    &&& t.id == Some(id)
                    &&& exists|i: int|
                        0 <= i < self.templates@.len() && self.templates@[i] == *t && (forall|
                            j: int,
                        |
                            0 <= j < i ==> self.templates@[j].id != Some(id))
                },
                None => forall|i: int|
                    0 <= i < self.templates@.len() ==> (#[trigger] self.templates@[i].id) != Some(
                        id,
                    ),
            },
    {
        match template_index(&self.templates, id) {
            Some(i) => Some(&self.templates[i]),
            None => None,
        }
    }

    /// Store a new template: assign the next id, a zero use count and both
    /// timestamps, keep every requested field, and append it. Returns the
    /// new id.
    pub fn create_template(&mut self, req: CreateTemplateRequest) -> (r: i64)
        requires
            old(self).next_template_id < i64::MAX,
        ensures
            r == old(self).next_template_id + 1,
            final(self).next_template_id == r,
            final(self).templates@.len() == old(self).templates@.len() + 1,
            final(self).templates@.drop_last() == old(self).templates@,
            template_saved(final(self).templates@.last(), req, r),
            old(self).wf() ==> forall|i: int|
                0 <= i < old(self).templates@.len() ==> (#[trigger] old(self).templates@[i]).id
                    != Some(r),
            final(self).servers@ == old(self).servers@,
            final(self).subscriptions@ == old(self).subscriptions@,
            final(self).messages@ == old(self).messages@,
            final(self).scripts@ == old(self).scripts@,
            final(self).next_server_id == old(self).next_server_id,
            final(self).next_subscription_id == old(self).next_subscription_id,
            final(self).next_message_id == old(self).next_message_id,
            final(self).next_script_id == old(self).next_script_id,
            old(self).wf() ==> final(self).wf(),
    {
        self.next_template_id = self.next_template_id + 1;
        let id = self.next_template_id;
        let ts = engine::now_rfc3339();
        let ts_copy = ts.clone();
        let record = CommandTemplate {
            id: Some(id),
            server_id: req.server_id,
            name: req.name,
            topic: req.topic,
            payload: req.payload,
            payload_type: req.payload_type,
            qos: req.qos,
            retain: req.retain,
            description: req.description,
            category: req.category,
            use_count: 0,
            last_used_at: None,
            created_at: Some(ts),
            updated_at: Some(ts_copy),
        };
        self.templates.push(record);
        proof {
            assert(self.templates@.drop_last() =~= old(self).templates@);
            if old(self).wf() {
                assert forall|i: int|
                    0 <= i < self.templates@.len() implies id_bounded(
                    (#[trigger] self.templates@[i]).id,
                    self.next_template_id,
                ) by {
                    if i < self.templates@.len() - 1 {
                        assert(self.templates@[i] == old(self).templates@[i]);
                        assert(id_bounded(old(self).templates@[i].id, old(self).next_template_id));
                    }
                }
                assert forall|i: int|
                    0 <= i < old(self).templates@.len() implies (#[trigger] old(self).templates@[
                i]).id != Some(id) by {
                    assert(id_bounded(old(self).templates@[i].id, old(self).next_template_id));
                }
            }
        }
        id
    }

    /// Change the requested fields of the first template with the given id,
    /// stamping a fresh `updated_at`; a field the request leaves out keeps
    /// its value. A no-op when no template matches.
    pub fn update_template(&mut self, req: UpdateTemplateRequest)
        ensures
            (forall|j: int|
                0 <= j < old(self).templates@.len() ==> (#[trigger] old(self).templates@[j].id)
                    != Some(req.id)) ==> final(self).templates@ == old(self).templates@,
            (exists|i: int|
                0 <= i < old(self).templates@.len() && (#[trigger] old(self).templates@[i].id)
                    == Some(req.id)) ==> exists|i: int|
                {
                    &&& 0 <= i < old(self).templates@.len()
                    &&& old(self).templates@[i].id == Some(req.id)
                    &&& (forall|j: int| 0 <= j < i ==> old(self).templates@[j].id != Some(req.id))
                    &&& final(self).templates@ == old(self).templates@.update(
                        i,
                        final(self).templates@[i],
                    )
                    &&& template_updated(final(self).templates@[i], old(self).templates@[i], req)
                },
            final(self).servers@ == old(self).servers@,
            final(self).subscriptions@ == old(self).subscriptions@,
            final(self).messages@ == old(self).messages@,
            final(self).scripts@ == old(self).scripts@,
            final(self).next_server_id == old(self).next_server_id,
            final(self).next_subscription_id == old(self).next_subscription_id,
            final(self).next_message_id == old(self).next_message_id,
            final(self).next_template_id == old(self).next_template_id,
            final(self).next_script_id == old(self).next_script_id,
            old(self).wf() ==> final(self).wf(),
    {
        match template_index(&self.templates, req.id) {
            Some(i) => {
                let mut record = self.templates.remove(i);
                match req.name {
                    Some(name) => {
                        record.name = name;
                    },
                    None => {},
                }
                match req.topic {
                    Some(topic) => {
                        record.topic = topic;
                    },
                    None => {},
                }
                match req.payload {
                    Some(payload) => {
                        record.payload = payload;
                    },
                    None => {},
                }
                match req.payload_type {
                    Some(payload_type) => {
                        record.payload_type = payload_type;
                    },
                    None => {},
                }
                match req.qos {
                    Some(qos) => {
                        record.qos = qos;
                    },
                    None => {},
                }
                match req.retain {
                    Some(retain) => {
                        record.retain = retain;
                    },
                    None => {},
                }
                match req.description {
                    Some(description) => {
                        record.description = Some(description);
                    },
                    None => {},
                }
                match req.category {
                    Some(category) => {
                        record.category = Some(category);
                    },
                    None => {},
                }
                record.updated_at = Some(engine::now_rfc3339());
                self.templates.insert(i, record);
                proof {
                    assert(self.templates@ =~= old(self).templates@.update(
                        i as int,
                        self.templates@[i as int],
                    ));
                    if old(self).wf() {
                        assert forall|j: int|
                            0 <= j < self.templates@.len() implies id_bounded(
                            (#[trigger] self.templates@[j]).id,
                            self.next_template_id,
                        ) by {
                            if j != i {
                                assert(self.templates@[j] == old(self).templates@[j]);
                            } else {
                                assert(self.templates@[j].id == old(self).templates@[j].id);
                            }
                            assert(id_bounded(
                                old(self).templates@[j].id,
                                old(self).next_template_id,
                            ));
                        }
                    }
                }
            },
            None => {},
        }
    }

    /// Remove the template with the given id.
    pub fn delete_template(&mut self, id: i64)
        ensures
            final(self).templates@ == old(self).templates@.filter(
                |t: CommandTemplate| t.id != Some(id),
            ),
            final(self).servers@ == old(self).servers@,
            final(self).subscriptions@ == old(self).subscriptions@,
            final(self).messages@ == old(self).messages@,
            final(self).scripts@ == old(self).scripts@,
            final(self).next_server_id == old(self).next_server_id,
            final(self).next_subscription_id == old(self).next_subscription_id,
            final(self).next_message_id == old(self).next_message_id,
            final(self).next_template_id == old(self).next_template_id,
            final(self).next_script_id == old(self).next_script_id,
            old(self).wf() ==> final(self).wf(),
    {
        retain_templates_without_id(&mut self.templates, id);
        proof {
            if old(self).wf() {
                lemma_retained_templates_bounded(
                    old(self).templates@,
                    |t: CommandTemplate| t.id != Some(id),
                    old(self).next_template_id,
                );
            }
        }
    }

    /// Count one use of the first template with the given id: its use count
    /// grows by one and its last use is stamped. A no-op when none matches.
    pub fn increment_template_use_count(&mut self, id: i64)
        requires
            forall|i: int|
                0 <= i < old(self).templates@.len() && (#[trigger] old(self).templates@[i].id)
                    == Some(id) ==> old(self).templates@[i].use_count < i64::MAX,
        ensures
            (forall|j: int|
                0 <= j < old(self).templates@.len() ==> (#[trigger] old(self).templates@[j].id)
                    != Some(id)) ==> final(self).templates@ == old(self).templates@,
            (exists|i: int|
                0 <= i < old(self).templates@.len() && (#[trigger] old(self).templates@[i].id)
                    == Some(id)) ==> exists|i: int|
                {
                    &&& 0 <= i < old(self).templates@.len()
                    &&& old(self).templates@[i].id == Some(id)
                    &&& (forall|j: int| 0 <= j < i ==> old(self).templates@[j].id != Some(id))
                    &&& final(self).templates@ == old(self).templates@.update(
                        i,
                        final(self).templates@[i],
                    )
                    &&& ({
                        let before = old(self).templates@[i];
                        let after = final(self).templates@[i];
                        &&& after.use_count == before.use_count + 1
                        &&& after.last_used_at is Some
                        &&& after.id == before.id
                        &&& after.server_id == before.server_id
                        &&& after.name == before.name
                        &&& after.topic == before.topic
                        &&& after.payload == before.payload
                        &&& after.payload_type == before.payload_type
                        &&& after.qos == before.qos
                        &&& after.retain == before.retain
                        &&& after.description == before.description
                        &&& after.category == before.category
                        &&& after.created_at == before.created_at
                        &&& after.updated_at == before.updated_at
                    })
                },
            final(self).servers@ == old(self).servers@,
            final(self).subscriptions@ == old(self).subscriptions@,
            final(self).messages@ == old(self).messages@,
            final(self).scripts@ == old(self).scripts@,
            final(self).next_server_id == old(self).next_server_id,
            final(self).next_subscription_id == old(self).next_subscription_id,
            final(self).next_message_id == old(self).next_message_id,
            final(self).next_template_id == old(self).next_template_id,
            final(self).next_script_id == old(self).next_script_id,
            old(self).wf() ==> final(self).wf(),
    {
        match template_index(&self.templates, id) {
            Some(i) => {
                let mut record = self.templates.remove(i);
                record.use_count = record.use_count + 1;
                record.last_used_at = Some(engine::now_rfc3339());
                self.templates.insert(i, record);
                proof {
                    assert(self.templates@ =~= old(self).templates@.update(
                        i as int,
                        self.templates@[i as int],
                    ));
                    if old(self).wf() {
                        assert forall|j: int|
                            0 <= j < self.templates@.len() implies id_bounded(
                            (#[trigger] self.templates@[j]).id,
                            self.next_template_id,
                        ) by {
                            if j != i {
                                assert(self.templates@[j] == old(self).templates@[j]);
                            } else {
                                assert(self.templates@[j].id == old(self).templates@[j].id);
                            }
                            assert(id_bounded(
                                old(self).templates@[j].id,
                                old(self).next_template_id,
                            ));
                        }
                    }
                }
            },
            None => {},
        }
    }

    /// Copy every given template onto this broker as a fresh template,
    /// keeping the order; returns how many were stored.
    #[verifier::loop_isolation(false)]
    pub fn import_templates(&mut self, server_id: i64, imports: Vec<CommandTemplate>) -> (r: i32)
        requires
            imports@.len() <= i32::MAX,
            old(self).next_template_id + imports@.len() <= i64::MAX,
        ensures
            r == imports@.len(),
            final(self).next_template_id == old(self).next_template_id + imports@.len(),
            final(self).templates@.len() == old(self).templates@.len() + imports@.len(),
            final(self).templates@.subrange(0, old(self).templates@.len() as int) == old(
                self,
            ).templates@,
            forall|k: int|
                0 <= k < imports@.len() ==> template_imported(
                    #[trigger] final(self).templates@[old(self).templates@.len() + k],
                    imports@[k],
                    server_id,
                    (old(self).next_template_id + k + 1) as i64,
                ),
            final(self).servers@ == old(self).servers@,
            final(self).subscriptions@ == old(self).subscriptions@,
            final(self).messages@ == old(self).messages@,
            final(self).scripts@ == old(self).scripts@,
            final(self).next_server_id == old(self).next_server_id,
            final(self).next_subscription_id == old(self).next_subscription_id,
            final(self).next_message_id == old(self).next_message_id,
            final(self).next_script_id == old(self).next_script_id,
            old(self).wf() ==> final(self).wf(),
    {
        let ghost imports0 = imports@;
        let mut rest = reverse_templates(imports);
        proof {
            assert(forall|k: int|
                0 <= k < rest@.len() ==> #[trigger] rest@[k] == imports0[imports0.len() - 1 - k]);
        }
        let mut imported: i32 = 0;
        let ghost base_len = self.templates@.len();
        let ghost base_id = self.next_template_id;
        while rest.len() > 0
            invariant
                rest@.len() <= imports0.len(),
                forall|k: int|
                    0 <= k < rest@.len() ==> #[trigger] rest@[k] == imports0[imports0.len() - 1
                        - k],
                imported == imports0.len() - rest@.len(),
                self.next_template_id == base_id + imported,
                self.templates@.len() == base_len + imported,
                self.templates@.subrange(0, base_len as int) == old(self).templates@,
                forall|k: int|
                    0 <= k < imported ==> template_imported(
                        #[trigger] self.templates@[base_len + k],
                        imports0[k],
                        server_id,
                        (base_id + k + 1) as i64,
                    ),
                self.servers@ == old(self).servers@,
                self.subscriptions@ == old(self).subscriptions@,
                self.messages@ == old(self).messages@,
                self.scripts@ == old(self).scripts@,
                self.next_server_id == old(self).next_server_id,
                self.next_subscription_id == old(self).next_subscription_id,
                self.next_message_id == old(self).next_message_id,
                self.next_script_id == old(self).next_script_id,
                old(self).wf() ==> self.wf(),
            decreases rest@.len(),
        {
            let ghost before = self.templates@;
            let template = rest.pop().unwrap();
            proof {
                assert(template == imports0[imports0.len() - 1 - rest@.len()]);
            }
            let req = CreateTemplateRequest {
                server_id,
                name: template.name,
                topic: template.topic,
                payload: template.payload,
                payload_type: template.payload_type,
                qos: template.qos,
                retain: template.retain,
                description: template.description,
                category: template.category,
            };
            let _ = self.create_template(req);
            imported += 1;
            proof {
                assert(self.templates@.subrange(0, base_len as int) =~= before.subrange(
                    0,
                    base_len as int,
                ));
                assert(forall|k: int|
                    0 <= k < imported - 1 ==> #[trigger] self.templates@[base_len + k] == before[
                        base_len + k]);
            }
        }
        imported
    }

    /// The distinct category names of one broker's templates, in ascending
    /// order: every stored category appears exactly once, and nothing else.
    #[verifier::loop_isolation(false)]
    pub fn get_template_categories(&self, server_id: i64) -> (r: Vec<String>)
        ensures
            ascending_texts(r@),
            distinct_texts(r@),
            forall|k: int|
                0 <= k < self.templates@.len() && #[trigger] has_category(
                    self.templates@,
                    server_id,
                    k,
                ) ==> category_listed(r@, self.templates@[k].category->0@),
            forall|i: int|
                0 <= i < r@.len() ==> category_from_prefix(
                    self.templates@,
                    server_id,
                    self.templates@.len() as int,
                    (#[trigger] r@[i]@),
                ),
    {
        let mut out: Vec<String> = Vec::new();
        let n = self.templates.len();
        let mut t: usize = 0;
        while t < n
            invariant
                t <= n,
                ascending_texts(out@),
                forall|k: int|
                    0 <= k < t && #[trigger] has_category(self.templates@, server_id, k)
                        ==> category_listed(out@, self.templates@[k].category->0@),
                forall|i: int|
                    0 <= i < out@.len() ==> category_from_prefix(
                        self.templates@,
                        server_id,
                        t as int,
                        (#[trigger] out@[i]@),
                    ),
            decreases n - t,
        {
            let ghost prev = out@;
            let mut contributed = false;
            if self.templates[t].server_id == server_id {
                match &self.templates[t].category {
                    Some(cat) => {
                        insert_category(&mut out, cat);
                        contributed = true;
                        proof {
                            assert forall|k: int|
                                0 <= k < t + 1 && #[trigger] has_category(
                                    self.templates@,
                                    server_id,
                                    k,
                                ) implies category_listed(
                                out@,
                                self.templates@[k].category->0@,
                            ) by {
                                if k < t {
                                    let j = choose|j: int|
                                        0 <= j < prev.len() && (#[trigger] prev[j]@)
                                            == self.templates@[k].category->0@;
                                    assert(category_listed(out@, prev[j]@));
                                }
                            }
                            assert forall|i: int|
                                0 <= i < out@.len() implies category_from_prefix(
                                self.templates@,
                                server_id,
                                (t + 1) as int,
                                (#[trigger] out@[i]@),
                            ) by {
                                if out@[i]@ == cat@ {
                                    assert(has_category(self.templates@, server_id, t as int));
                                    assert(0 <= t < t + 1 && has_category(
                                        self.templates@,
                                        server_id,
                                        t as int,
                                    ) && self.templates@[t as int].category->0@ == out@[i]@);
                                } else {
                                    let j = choose|j: int|
                                        0 <= j < prev.len() && (#[trigger] prev[j]@) == out@[i]@;
                                    lemma_category_from_prefix_widen(
                                        self.templates@,
                                        server_id,
                                        t as int,
                                        prev[j]@,
                                    );
                                }
                            }
                        }
                    },
                    None => {},
                }
            }
            if !contributed {
                proof {
                    assert forall|i: int|
                        0 <= i < out@.len() implies category_from_prefix(
                        self.templates@,
                        server_id,
                        (t + 1) as int,
                        (#[trigger] out@[i]@),
                    ) by {
                        lemma_category_from_prefix_widen(
                            self.templates@,
                            server_id,
                            t as int,
                            out@[i]@,
                        );
                    }
                }
            }
            t += 1;
        }
        proof {
            assert forall|i: int, j: int|
                0 <= i < j < out@.len() implies (#[trigger] out@[i]@) != (#[trigger] out@[j]@) by {
                lemma_lex_lt_trichotomy(out@[i]@, out@[j]@);
            }
        }
        out
    }

    /// Store a copy of the template with the given id under a new name;
    /// fails exactly when no template has that id.
    pub fn duplicate_template(&mut self, id: i64, new_name: String) -> (r: Result<i64, ()>)
        requires
            old(self).next_template_id < i64::MAX,
        ensures
            (r is Err) <==> (forall|j: int|
                0 <= j < old(self).templates@.len() ==> (#[trigger] old(self).templates@[j].id)
                    != Some(id)),
            r is Err ==> final(self).templates@ == old(self).templates@
                && final(self).next_template_id == old(self).next_template_id,
            r matches Ok(new_id) ==> {
                &&& new_id == old(self).next_template_id + 1
                &&& final(self).next_template_id == new_id
                &&& final(self).templates@.len() == old(self).templates@.len() + 1
                &&& final(self).templates@.drop_last() == old(self).templates@
                &&& exists|i: int|
                    {
                        &&& 0 <= i < old(self).templates@.len()
                        &&& (#[trigger] old(self).templates@[i].id) == Some(id)
                        &&& template_duplicated(
                            final(self).templates@.last(),
                            old(self).templates@[i],
                            new_name,
                            new_id,
                        )
                    }
            },
            final(self).servers@ == old(self).servers@,
            final(self).subscriptions@ == old(self).subscriptions@,
            final(self).messages@ == old(self).messages@,
            final(self).scripts@ == old(self).scripts@,
            final(self).next_server_id == old(self).next_server_id,
            final(self).next_subscription_id == old(self).next_subscription_id,
            final(self).next_message_id == old(self).next_message_id,
            final(self).next_script_id == old(self).next_script_id,
            old(self).wf() ==> final(self).wf(),
    {
        let i = match template_index(&self.templates, id) {
            Some(i) => i,
            None => {
                return Err(());
            },
        };
        let req = {
            let source = &self.templates[i];
            CreateTemplateRequest {
                server_id: source.server_id,
                name: new_name,
                topic: source.topic.clone(),
                payload: source.payload.clone(),
                payload_type: source.payload_type.clone(),
                qos: source.qos,
                retain: source.retain,
                description: clone_opt_string(&source.description),
                category: clone_opt_string(&source.category),
            }
        };
        Ok(self.create_template(req))
    }

    /// Remove every history entry of the given broker.
    pub fn clear_messages(&mut self, server_id: i64)
        ensures
            final(self).messages@ == old(self).messages@.filter(
                |m: MessageHistory| m.server_id != server_id,
            ),
            final(self).servers@ == old(self).servers@,
            final(self).subscriptions@ == old(self).subscriptions@,
            final(self).templates@ == old(self).templates@,
            final(self).scripts@ == old(self).scripts@,
            final(self).next_server_id == old(self).next_server_id,
            final(self).next_subscription_id == old(self).next_subscription_id,
            final(self).next_message_id == old(self).next_message_id,
            final(self).next_template_id == old(self).next_template_id,
            final(self).next_script_id == old(self).next_script_id,
            old(self).wf() ==> final(self).wf(),
    {
        retain_messages_of_other_servers(&mut self.messages, server_id);
        proof {
            if old(self).wf() {
                lemma_retained_messages_bounded(
                    old(self).messages@,
                    |m: MessageHistory| m.server_id != server_id,
                    old(self).next_message_id,
                );
            }
        }
    }
}

/// The index of the first subscription with the given id, if any.
fn subscription_index(v: &Vec<Subscription>, id: i64) -> (r: Option<usize>)
    ensures
        match r {
            Some(i) => {
                &&& i < v@.len()
                &&& v@[i as int].id == Some(id)
                &&& forall|j: int| 0 <= j < i ==> (#[trigger] v@[j].id) != Some(id)
            },
            None => forall|j: int| 0 <= j < v@.len() ==> (#[trigger] v@[j].id) != Some(id),
        },
{
    let n = v.len();
    let mut i: usize = 0;
    while i < n
        invariant
            i <= n,
            n == v@.len(),
            forall|j: int| 0 <= j < i ==> (#[trigger] v@[j].id) != Some(id),
        decreases n - i,
    {
        let found = match v[i].id {
            Some(sid) => sid == id,
            None => false,
        };
        if found {
            return Some(i);
        }
        i += 1;
    }
    None
}

/// Drop every subscription whose id is the given one.
#[verifier::loop_isolation(false)]
fn retain_subscriptions_without_id(v: &mut Vec<Subscription>, id: i64) -> (r: ())
    ensures
        final(v)@ == old(v)@.filter(|s: Subscription| s.id != Some(id)),
{
    let ghost pred = |s: Subscription| s.id != Some(id);
    let mut i: usize = 0;
    while i < v.len()
        invariant
            i <= v.len(),
            forall|j: int| 0 <= j < i ==> (#[trigger] v@[j].id) != Some(id),
            old(v)@.filter(pred) == v@.subrange(0, i as int) + v@.skip(i as int).filter(pred),
        decreases v.len() - i,
    {
        proof {
            assert(v@.skip(i as int).first() == v@[i as int]);
            lemma_filter_first(v@.skip(i as int), pred);
        }
        let drop = match v[i].id {
            Some(sid) => sid == id,
            None => false,
        };
        if drop {
            let ghost before = v@;
            let _ = v.remove(i);
            proof {
                assert(v@.skip(i as int) =~= before.skip(i as int).drop_first());
                assert(v@.subrange(0, i as int) =~= before.subrange(0, i as int));
            }
        } else {
            proof {
                assert(v@.subrange(0, i + 1 as int) =~= v@.subrange(0, i as int) + seq![
                    v@[i as int],
                ]);
                assert(v@.skip(i as int).drop_first() =~= v@.skip(i + 1 as int));
                assert(v@.subrange(0, i as int) + v@.skip(i as int).filter(pred) =~= v@.subrange(
                    0,
                    i + 1 as int,
                ) + v@.skip(i + 1 as int).filter(pred));
            }
            i += 1;
        }
    }
    proof {
        assert(v@.subrange(0, i as int) =~= v@);
        assert(v@.skip(i as int).filter(pred) =~= Seq::<Subscription>::empty().filter(pred));
        assert(Seq::<Subscription>::empty().filter(pred) =~= Seq::<Subscription>::empty()) by {
            reveal(Seq::filter);
        }
        assert(old(v)@.filter(pred) =~= v@);
    }
}

/// Holds when the option strings agree in content: both absent, or both
/// present with the same text.
pub open spec fn opt_string_like(a: Option<String>, b: Option<String>) -> bool {
    match (a, b) {
        (Option::None, Option::None) => true,
        (Option::Some(x), Option::Some(y)) => x@ == y@,
        _ => false,
    }
}

fn clone_opt_string(o: &Option<String>) -> (r: Option<String>)
    ensures
        opt_string_like(r, *o),
{
    match o {
        Some(s) => Some(s.clone()),
        None => None,
    }
}

/// Holds when the two subscription records agree: equal ids and flags, and
/// the same text in every string field.
pub open spec fn subscription_like(a: Subscription, b: Subscription) -> bool {
    &&& a.id == b.id
    &&& a.server_id == b.server_id
    &&& a.topic@ == b.topic@
    &&& a.qos == b.qos
    &&& a.is_active == b.is_active
    &&& opt_string_like(a.created_at, b.created_at)
}

fn clone_subscription(s: &Subscription) -> (r: Subscription)
    ensures
        subscription_like(r, *s),
{
    Subscription {
        id: s.id,
        server_id: s.server_id,
        topic: s.topic.clone(),
        qos: s.qos,
        is_active: s.is_active,
        created_at: clone_opt_string(&s.created_at),
    }
}

/// Holds when the two history records agree: equal ids and flags, and the
/// same text in every string field.
pub open spec fn message_like(a: MessageHistory, b: MessageHistory) -> bool {
    &&& a.id == b.id
    &&& a.server_id == b.server_id
    &&& a.direction@ == b.direction@
    &&& a.topic@ == b.topic@
    &&& opt_string_like(a.payload, b.payload)
    &&& opt_string_like(a.payload_format, b.payload_format)
    &&& a.qos == b.qos
    &&& a.retain == b.retain
    &&& opt_string_like(a.created_at, b.created_at)
}

fn clone_message(m: &MessageHistory) -> (r: MessageHistory)
    ensures
        message_like(r, *m),
{
    MessageHistory {
        id: m.id,
        server_id: m.server_id,
        direction: m.direction.clone(),
        topic: m.topic.clone(),
        payload: clone_opt_string(&m.payload),
        payload_format: clone_opt_string(&m.payload_format),
        qos: m.qos,
        retain: m.retain,
        created_at: clone_opt_string(&m.created_at),
    }
}

/// The history entries of one broker, in stored order.
pub open spec fn messages_of(s: Seq<MessageHistory>, server_id: i64) -> Seq<MessageHistory> {
    s.filter(|m: MessageHistory| m.server_id == server_id)
}

/// The sequence with the `k` oldest entries of the given broker removed;
/// entries of other brokers are untouched.
pub open spec fn prune_oldest(s: Seq<MessageHistory>, server_id: i64, k: nat) -> Seq<MessageHistory>
    decreases s.len(),
{
    if s.len() == 0 || k == 0 {
        s
    } else if s.first().server_id == server_id {
        prune_oldest(s.drop_first(), server_id, (k - 1) as nat)
    } else {
        seq![s.first()] + prune_oldest(s.drop_first(), server_id, k)
    }
}

/// Holds when `stored` is the script the request described, saved under the
/// fresh id: both timestamps assigned and agreeing, every requested field
/// kept.
pub open spec fn script_saved(stored: Script, req: CreateScriptRequest, id: i64) -> bool {
    &&& stored.id == Some(id)
    &&& stored.server_id == req.server_id
    &&& stored.name == req.name
    &&& stored.script_type == req.script_type
    &&& stored.code == req.code
    &&& stored.enabled == req.enabled
    &&& stored.description == req.description
    &&& stored.created_at matches Some(c)
    &&& stored.updated_at matches Some(u) && u@ == stored.created_at->0@
}

/// Holds when `after` is `before` with the requested changes applied: each
/// requested field takes the request's value, every other field stays.
pub open spec fn script_updated(after: Script, before: Script, req: UpdateScriptRequest) -> bool {
    &&& after.id == before.id
    &&& after.server_id == before.server_id
    &&& after.name == if req.name is Some {
        req.name->0
    } else {
        before.name
    }
    &&& after.script_type == before.script_type
    &&& after.code == if req.code is Some {
        req.code->0
    } else {
        before.code
    }
    &&& after.enabled == if req.enabled is Some {
        req.enabled->0
    } else {
        before.enabled
    }
    &&& after.description == if req.description is Some {
        Some(req.description->0)
    } else {
        before.description
    }
    &&& after.created_at == before.created_at
    &&& after.updated_at is Some
}

/// The index of the first script with the given id, if any.
fn script_index(v: &Vec<Script>, id: i64) -> (r: Option<usize>)
    ensures
        match r {
            Some(i) => {
                &&& i < v@.len()
                &&& v@[i as int].id == Some(id)
                &&& forall|j: int| 0 <= j < i ==> (#[trigger] v@[j].id) != Some(id)
            },
            None => forall|j: int| 0 <= j < v@.len() ==> (#[trigger] v@[j].id) != Some(id),
        },
{
    let n = v.len();
    let mut i: usize = 0;
    while i < n
        invariant
            i <= n,
            n == v@.len(),
            forall|j: int| 0 <= j < i ==> (#[trigger] v@[j].id) != Some(id),
        decreases n - i,
    {
        let found = match v[i].id {
            Some(sid) => sid == id,
            None => false,
        };
        if found {
            return Some(i);
        }
        i += 1;
    }
    None
}

/// Drop every script whose id is the given one.
#[verifier::loop_isolation(false)]
fn retain_scripts_without_id(v: &mut Vec<Script>, id: i64) -> (r: ())
    ensures
        final(v)@ == old(v)@.filter(|s: Script| s.id != Some(id)),
{
    let ghost pred = |s: Script| s.id != Some(id);
    let mut i: usize = 0;
    while i < v.len()
        invariant
            i <= v.len(),
            forall|j: int| 0 <= j < i ==> (#[trigger] v@[j].id) != Some(id),
            old(v)@.filter(pred) == v@.subrange(0, i as int) + v@.skip(i as int).filter(pred),
        decreases v.len() - i,
    {
        proof {
            assert(v@.skip(i as int).first() == v@[i as int]);
            lemma_filter_first(v@.skip(i as int), pred);
        }
        let drop = match v[i].id {
            Some(sid) => sid == id,
            None => false,
        };
        if drop {
            let ghost before = v@;
            let _ = v.remove(i);
            proof {
                assert(v@.skip(i as int) =~= before.skip(i as int).drop_first());
                assert(v@.subrange(0, i as int) =~= before.subrange(0, i as int));
            }
        } else {
            proof {
                assert(v@.subrange(0, i + 1 as int) =~= v@.subrange(0, i as int) + seq![
                    v@[i as int],
                ]);
                assert(v@.skip(i as int).drop_first() =~= v@.skip(i + 1 as int));
                assert(v@.subrange(0, i as int) + v@.skip(i as int).filter(pred) =~= v@.subrange(
                    0,
                    i + 1 as int,
                ) + v@.skip(i + 1 as int).filter(pred));
            }
            i += 1;
        }
    }
    proof {
        assert(v@.subrange(0, i as int) =~= v@);
        assert(v@.skip(i as int).filter(pred) =~= Seq::<Script>::empty().filter(pred));
        assert(Seq::<Script>::empty().filter(pred) =~= Seq::<Script>::empty()) by {
            reveal(Seq::filter);
        }
        assert(old(v)@.filter(pred) =~= v@);
    }
}

/// Filtering keeps every remaining script id within the given bound when
/// all ids were within it before.
proof fn lemma_retained_scripts_bounded(s: Seq<Script>, pred: spec_fn(Script) -> bool, bound: i64)
    requires
        forall|i: int| 0 <= i < s.len() ==> id_bounded((#[trigger] s[i]).id, bound),
    ensures
        forall|i: int|
            0 <= i < s.filter(pred).len() ==> id_bounded((#[trigger] s.filter(pred)[i]).id, bound),
{
    lemma_filter_members(s, pred);
    assert forall|i: int|
        0 <= i < s.filter(pred).len() implies id_bounded(
        (#[trigger] s.filter(pred)[i]).id,
        bound,
    ) by {
        assert(s.contains(s.filter(pred)[i]));
        let j = choose|j: int| 0 <= j < s.len() && s[j] == s.filter(pred)[i];
        assert(id_bounded(s[j].id, bound));
    }
}

/// Drop every broker record whose id is the given one.
#[verifier::loop_isolation(false)]
fn retain_servers_without_id(v: &mut Vec<MqttServer>, id: i64) -> (r: ())
    ensures
        final(v)@ == old(v)@.filter(|s: MqttServer| s.id != Some(id)),
{
    let ghost pred = |s: MqttServer| s.id != Some(id);
    let mut i: usize = 0;
    while i < v.len()
        invariant
            i <= v.len(),
            forall|j: int| 0 <= j < i ==> (#[trigger] v@[j].id) != Some(id),
            old(v)@.filter(pred) == v@.subrange(0, i as int) + v@.skip(i as int).filter(pred),
        decreases v.len() - i,
    {
        proof {
            assert(v@.skip(i as int).first() == v@[i as int]);
            lemma_filter_first(v@.skip(i as int), pred);
        }
        let drop = match v[i].id {
            Some(sid) => sid == id,
            None => false,
        };
        if drop {
            let ghost before = v@;
            let _ = v.remove(i);
            proof {
                assert(v@.skip(i as int) =~= before.skip(i as int).drop_first());
                assert(v@.subrange(0, i as int) =~= before.subrange(0, i as int));
            }
        } else {
            proof {
                assert(v@.subrange(0, i + 1 as int) =~= v@.subrange(0, i as int) + seq![
                    v@[i as int],
                ]);
                assert(v@.skip(i as int).drop_first() =~= v@.skip(i + 1 as int));
                assert(v@.subrange(0, i as int) + v@.skip(i as int).filter(pred) =~= v@.subrange(
                    0,
                    i + 1 as int,
                ) + v@.skip(i + 1 as int).filter(pred));
            }
            i += 1;
        }
    }
    proof {
        assert(v@.subrange(0, i as int) =~= v@);
        assert(v@.skip(i as int).filter(pred) =~= Seq::<MqttServer>::empty().filter(pred));
        assert(Seq::<MqttServer>::empty().filter(pred) =~= Seq::<MqttServer>::empty()) by {
            reveal(Seq::filter);
        }
        assert(old(v)@.filter(pred) =~= v@);
    }
}

/// Holds when `stored` is the template the request described, saved under
/// the fresh id: zero uses, no last use, both timestamps assigned and
/// agreeing, and every requested field kept.
pub open spec fn template_saved(stored: CommandTemplate, req: CreateTemplateRequest, id: i64) -> bool {
    &&& stored.id == Some(id)
    &&& stored.server_id == req.server_id
    &&& stored.name == req.name
    &&& stored.topic == req.topic
    &&& stored.payload == req.payload
    &&& stored.payload_type == req.payload_type
    &&& stored.qos == req.qos
    &&& stored.retain == req.retain
    &&& stored.description == req.description
    &&& stored.category == req.category
    &&& stored.use_count == 0
    &&& stored.last_used_at is None
    &&& stored.created_at matches Some(c)
    &&& stored.updated_at matches Some(u) && u@ == stored.created_at->0@
}

/// Holds when `after` is `before` with the requested changes applied: each
/// requested field takes the request's value, every other field stays.
pub open spec fn template_updated(
    after: CommandTemplate,
    before: CommandTemplate,
    req: UpdateTemplateRequest,
) -> bool {
    &&& after.id == before.id
    &&& after.server_id == before.server_id
    &&& after.name == if req.name is Some {
        req.name->0
    } else {
        before.name
    }
    &&& after.topic == if req.topic is Some {
        req.topic->0
    } else {
        before.topic
    }
    &&& after.payload == if req.payload is Some {
        req.payload->0
    } else {
        before.payload
    }
    &&& after.payload_type == if req.payload_type is Some {
        req.payload_type->0
    } else {
        before.payload_type
    }
    &&& after.qos == if req.qos is Some {
        req.qos->0
    } else {
        before.qos
    }
    &&& after.retain == if req.retain is Some {
        req.retain->0
    } else {
        before.retain
    }
    &&& after.description == if req.description is Some {
        Some(req.description->0)
    } else {
        before.description
    }
    &&& after.category == if req.category is Some {
        Some(req.category->0)
    } else {
        before.category
    }
    &&& after.use_count == before.use_count
    &&& after.last_used_at == before.last_used_at
    &&& after.created_at == before.created_at
    &&& after.updated_at is Some
}

/// Holds when `stored` is the imported copy of `t` on the given broker:
/// fresh id, zero uses, the broker overridden, the content kept.
pub open spec fn template_imported(
    stored: CommandTemplate,
    t: CommandTemplate,
    server_id: i64,
    id: i64,
) -> bool {
    &&& stored.id == Some(id)
    &&& stored.server_id == server_id
    &&& stored.name == t.name
    &&& stored.topic == t.topic
    &&& stored.payload == t.payload
    &&& stored.payload_type == t.payload_type
    &&& stored.qos == t.qos
    &&& stored.retain == t.retain
    &&& stored.description == t.description
    &&& stored.category == t.category
    &&& stored.use_count == 0
    &&& stored.last_used_at is None
}

/// Holds when `stored` is a fresh copy of `source` under the new name: same
/// broker and content, zero uses, the new id and name.
pub open spec fn template_duplicated(
    stored: CommandTemplate,
    source: CommandTemplate,
    new_name: String,
    id: i64,
) -> bool {
    &&& stored.id == Some(id)
    &&& stored.server_id == source.server_id
    &&& stored.name == new_name
    &&& stored.topic@ == source.topic@
    &&& stored.payload@ == source.payload@
    &&& stored.payload_type@ == source.payload_type@
    &&& stored.qos == source.qos
    &&& stored.retain == source.retain
    &&& opt_string_like(stored.description, source.description)
    &&& opt_string_like(stored.category, source.category)
    &&& stored.use_count == 0
    &&& stored.last_used_at is None
}

/// The given templates in reverse order.
#[verifier::loop_isolation(false)]
fn reverse_templates(v: Vec<CommandTemplate>) -> (r: Vec<CommandTemplate>)
    ensures
        r@ == v@.reverse(),
{
    let ghost v0 = v@;
    let mut src = v;
    let mut out: Vec<CommandTemplate> = Vec::new();
    while src.len() > 0
        invariant
            src@.len() + out@.len() == v0.len(),
            forall|k: int| 0 <= k < src@.len() ==> #[trigger] src@[k] == v0[k],
            forall|k: int| 0 <= k < out@.len() ==> #[trigger] out@[k] == v0[v0.len() - 1 - k],
        decreases src@.len(),
    {
        let item = src.pop().unwrap();
        out.push(item);
    }
    proof {
        assert(out@ =~= v0.reverse());
    }
    out
}

/// Whether some listed text equals the given one.
pub open spec fn category_listed(out: Seq<String>, text: Seq<char>) -> bool {
    exists|i: int| 0 <= i < out.len() && (#[trigger] out[i]@) == text
}

/// Whether the listed texts are pairwise distinct.
pub open spec fn distinct_texts(out: Seq<String>) -> bool {
    forall|i: int, j: int| 0 <= i < j < out.len() ==> (#[trigger] out[i]@) != (#[trigger] out[j]@)
}

/// Whether template `k` contributes a category for the given broker.
pub open spec fn has_category(templates: Seq<CommandTemplate>, server_id: i64, k: int) -> bool {
    &&& templates[k].server_id == server_id
    &&& templates[k].category is Some
}

/// Whether one of the first `t` templates contributes the given category
/// text for the broker.
pub open spec fn category_from_prefix(
    templates: Seq<CommandTemplate>,
    server_id: i64,
    t: int,
    text: Seq<char>,
) -> bool {
    exists|k: int|
        0 <= k < t && (#[trigger] has_category(templates, server_id, k)) && templates[
        k].category->0@ == text
}

/// A category contributed by the first `t` templates is contributed by the
/// first `t + 1` as well.
proof fn lemma_category_from_prefix_widen(
    templates: Seq<CommandTemplate>,
    server_id: i64,
    t: int,
    text: Seq<char>,
)
    requires
        0 <= t,
        category_from_prefix(templates, server_id, t, text),
    ensures
        category_from_prefix(templates, server_id, t + 1, text),
{
    let k = choose|k: int|
        0 <= k < t && (#[trigger] has_category(templates, server_id, k)) && templates[
        k].category->0@ == text;
    assert(0 <= k < t + 1 && has_category(templates, server_id, k) && templates[k].category->0@
        == text);
}

/// Strict lexicographic order on texts, by character value; on the
/// characters of a string this is the order in which Rust compares strings.
pub open spec fn lex_lt(a: Seq<char>, b: Seq<char>) -> bool
    decreases b.len(),
{
    if b.len() == 0 {
        false
    } else if a.len() == 0 {
        true
    } else if a.first() != b.first() {
        a.first() < b.first()
    } else {
        lex_lt(a.drop_first(), b.drop_first())
    }
}

/// Of two texts, exactly one holds: the first is smaller, they are equal,
/// or the second is smaller.
pub proof fn lemma_lex_lt_trichotomy(a: Seq<char>, b: Seq<char>)
    ensures
        lex_lt(a, b) || lex_lt(b, a) || a == b,
        !(lex_lt(a, b) && lex_lt(b, a)),
        lex_lt(a, b) ==> a != b,
    decreases a.len() + b.len(),
{
    if a.len() == 0 && b.len() == 0 {
        assert(a =~= b);
    } else if a.len() > 0 && b.len() > 0 {
        if a.first() == b.first() {
            lemma_lex_lt_trichotomy(a.drop_first(), b.drop_first());
            if a.drop_first() == b.drop_first() {
                assert(a =~= b);
            }
            if a == b {
                assert(a.drop_first() =~= b.drop_first());
            }
        } else {
            assert(a != b) by {
                if a == b {
                    assert(a.first() == b.first());
                }
            }
        }
    }
}

/// The lexicographic order is transitive.
pub proof fn lemma_lex_lt_transitive(a: Seq<char>, b: Seq<char>, c: Seq<char>)
    requires
        lex_lt(a, b),
        lex_lt(b, c),
    ensures
        lex_lt(a, c),
    decreases a.len() + b.len() + c.len(),
{
    if a.len() > 0 && b.len() > 0 && c.len() > 0 {
        if a.first() == b.first() && b.first() == c.first() {
            lemma_lex_lt_transitive(a.drop_first(), b.drop_first(), c.drop_first());
        }
    }
}

/// Whether one text comes strictly before another in lexicographic order.
fn str_lt(a: &str, b: &str) -> (r: bool)
    ensures
        r == lex_lt(a@, b@),
{
    let an = a.unicode_len();
    let bn = b.unicode_len();
    let mut i: usize = 0;
    proof {
        assert(a@.skip(0) =~= a@);
        assert(b@.skip(0) =~= b@);
    }
    while i < an && i < bn
        invariant
            i <= an,
            i <= bn,
            an == a@.len(),
            bn == b@.len(),
            lex_lt(a@, b@) == lex_lt(a@.skip(i as int), b@.skip(i as int)),
        decreases an - i,
    {
        let ca = a.get_char(i);
        let cb = b.get_char(i);
        proof {
            assert(a@.skip(i as int).first() == a@[i as int]);
            assert(b@.skip(i as int).first() == b@[i as int]);
            assert(a@.skip(i as int).drop_first() =~= a@.skip(i + 1 as int));
            assert(b@.skip(i as int).drop_first() =~= b@.skip(i + 1 as int));
        }
        if ca != cb {
            return ca < cb;
        }
        i += 1;
    }
    proof {
        if i >= bn {
            assert(b@.skip(i as int).len() == 0);
        } else {
            assert(a@.skip(i as int).len() == 0);
            assert(b@.skip(i as int).len() > 0);
        }
    }
    an < bn
}

/// Whether the listed texts are strictly ascending.
pub open spec fn ascending_texts(out: Seq<String>) -> bool {
    forall|i: int, j: int| 0 <= i < j < out.len() ==> lex_lt(#[trigger] out[i]@, #[trigger] out[j]@)
}

/// A listed text stays listed when an item is placed anywhere in the list.
proof fn lemma_insert_keeps_listed(out: Seq<String>, pos: int, item: String, text: Seq<char>)
    requires
        0 <= pos <= out.len(),
        category_listed(out, text),
    ensures
        category_listed(out.insert(pos, item), text),
{
    let i = choose|i: int| 0 <= i < out.len() && (#[trigger] out[i]@) == text;
    if i < pos {
        assert(out.insert(pos, item)[i]@ == text);
    } else {
        assert(out.insert(pos, item)[i + 1]@ == text);
    }
}

/// Place the text into the ascending list, keeping it ascending; a text
/// already present is left alone. The texts afterwards are exactly the
/// texts before plus the given one.
#[verifier::loop_isolation(false)]
fn insert_category(out: &mut Vec<String>, cat: &String)
    requires
        ascending_texts(old(out)@),
    ensures
        ascending_texts(final(out)@),
        category_listed(final(out)@, cat@),
        forall|i: int|
            0 <= i < final(out)@.len() ==> (#[trigger] final(out)@[i]@) == cat@ || category_listed(
                old(out)@,
                final(out)@[i]@,
            ),
        forall|j: int|
            0 <= j < old(out)@.len() ==> category_listed(final(out)@, (#[trigger] old(out)@[j]@)),
{
    let mut pos: usize = 0;
    while pos < out.len() && str_lt(out[pos].as_str(), cat.as_str())
        invariant
            pos <= out@.len(),
            forall|j: int| 0 <= j < pos ==> lex_lt((#[trigger] out@[j]@), cat@),
        decreases out@.len() - pos,
    {
        pos += 1;
    }
    if pos < out.len() {
        let present = crate::payload::str_eq(out[pos].as_str(), cat.as_str());
        if present {
            proof {
                assert(out@[pos as int]@ == cat@);
                assert forall|j: int|
                    0 <= j < out@.len() implies category_listed(out@, (#[trigger] out@[j]@)) by {
                    assert(0 <= j < out@.len() && out@[j]@ == out@[j]@);
                }
            }
            return ;
        }
    }
    proof {
        assert forall|k: int| pos <= k < out@.len() implies lex_lt(cat@, #[trigger] out@[k]@) by {
            lemma_lex_lt_trichotomy(cat@, out@[pos as int]@);
            if k > pos {
                lemma_lex_lt_transitive(cat@, out@[pos as int]@, out@[k]@);
            }
        }
    }
    let ghost before = out@;
    out.insert(pos, cat.clone());
    proof {
        assert(forall|k: int| 0 <= k < pos ==> #[trigger] out@[k] == before[k]);
        assert(forall|k: int| pos < k < out@.len() ==> #[trigger] out@[k] == before[k - 1]);
        assert(out@[pos as int]@ == cat@);
        assert forall|i: int, j: int| 0 <= i < j < out@.len() implies lex_lt(
            #[trigger] out@[i]@,
            #[trigger] out@[j]@,
        ) by {
            if i == pos && j > pos {
                assert(lex_lt(cat@, before[j - 1]@));
            } else if j == pos && i < pos {
                assert(lex_lt(before[i]@, cat@));
            }
        }
        assert forall|j: int|
            0 <= j < before.len() implies category_listed(out@, (#[trigger] before[j]@)) by {
            lemma_insert_keeps_listed(before, pos as int, out@[pos as int], before[j]@);
            assert(0 <= j < before.len() && before[j]@ == before[j]@);
            assert(out@ =~= before.insert(pos as int, out@[pos as int]));
        }
        assert forall|i: int|
            0 <= i < out@.len() implies (#[trigger] out@[i]@) == cat@ || category_listed(
            before,
            out@[i]@,
        ) by {
            if i < pos {
                assert(before[i]@ == out@[i]@);
            } else if i > pos {
                assert(before[i - 1]@ == out@[i]@);
            }
        }
    }
}

/// The index of the first template with the given id, if any.
fn template_index(v: &Vec<CommandTemplate>, id: i64) -> (r: Option<usize>)
    ensures
        match r {
            Some(i) => {
                &&& i < v@.len()
                &&& v@[i as int].id == Some(id)
                &&& forall|j: int| 0 <= j < i ==> (#[trigger] v@[j].id) != Some(id)
            },
            None => forall|j: int| 0 <= j < v@.len() ==> (#[trigger] v@[j].id) != Some(id),
        },
{
    let n = v.len();
    let mut i: usize = 0;
    while i < n
        invariant
            i <= n,
            n == v@.len(),
            forall|j: int| 0 <= j < i ==> (#[trigger] v@[j].id) != Some(id),
        decreases n - i,
    {
        let found = match v[i].id {
            Some(tid) => tid == id,
            None => false,
        };
        if found {
            return Some(i);
        }
        i += 1;
    }
    None
}

/// Drop every template whose id is the given one.
#[verifier::loop_isolation(false)]
fn retain_templates_without_id(v: &mut Vec<CommandTemplate>, id: i64) -> (r: ())
    ensures
        final(v)@ == old(v)@.filter(|t: CommandTemplate| t.id != Some(id)),
{
    let ghost pred = |t: CommandTemplate| t.id != Some(id);
    let mut i: usize = 0;
    while i < v.len()
        invariant
            i <= v.len(),
            forall|j: int| 0 <= j < i ==> (#[trigger] v@[j].id) != Some(id),
            old(v)@.filter(pred) == v@.subrange(0, i as int) + v@.skip(i as int).filter(pred),
        decreases v.len() - i,
    {
        proof {
            assert(v@.skip(i as int).first() == v@[i as int]);
            lemma_filter_first(v@.skip(i as int), pred);
        }
        let drop = match v[i].id {
            Some(tid) => tid == id,
            None => false,
        };
        if drop {
            let ghost before = v@;
            let _ = v.remove(i);
            proof {
                assert(v@.skip(i as int) =~= before.skip(i as int).drop_first());
                assert(v@.subrange(0, i as int) =~= before.subrange(0, i as int));
            }
        } else {
            proof {
                assert(v@.subrange(0, i + 1 as int) =~= v@.subrange(0, i as int) + seq![
                    v@[i as int],
                ]);
                assert(v@.skip(i as int).drop_first() =~= v@.skip(i + 1 as int));
                assert(v@.subrange(0, i as int) + v@.skip(i as int).filter(pred) =~= v@.subrange(
                    0,
                    i + 1 as int,
                ) + v@.skip(i + 1 as int).filter(pred));
            }
            i += 1;
        }
    }
    proof {
        assert(v@.subrange(0, i as int) =~= v@);
        assert(v@.skip(i as int).filter(pred) =~= Seq::<CommandTemplate>::empty().filter(pred));
        assert(Seq::<CommandTemplate>::empty().filter(pred) =~= Seq::<CommandTemplate>::empty())
            by {
            reveal(Seq::filter);
        }
        assert(old(v)@.filter(pred) =~= v@);
    }
}

/// Drop every stored subscription of the given broker.
#[verifier::loop_isolation(false)]
fn retain_subscriptions_of_other_servers(v: &mut Vec<Subscription>, server_id: i64) -> (r: ())
    ensures
        final(v)@ == old(v)@.filter(|s: Subscription| s.server_id != server_id),
{
    let ghost pred = |s: Subscription| s.server_id != server_id;
    let mut i: usize = 0;
    while i < v.len()
        invariant
            i <= v.len(),
            forall|j: int| 0 <= j < i ==> (#[trigger] v@[j].server_id) != server_id,
            old(v)@.filter(pred) == v@.subrange(0, i as int) + v@.skip(i as int).filter(pred),
        decreases v.len() - i,
    {
        proof {
            assert(v@.skip(i as int).first() == v@[i as int]);
            lemma_filter_first(v@.skip(i as int), pred);
        }
        if v[i].server_id == server_id {
            let ghost before = v@;
            let _ = v.remove(i);
            proof {
                assert(v@.skip(i as int) =~= before.skip(i as int).drop_first());
                assert(v@.subrange(0, i as int) =~= before.subrange(0, i as int));
            }
        } else {
            proof {
                assert(v@.subrange(0, i + 1 as int) =~= v@.subrange(0, i as int) + seq![
                    v@[i as int],
                ]);
                assert(v@.skip(i as int).drop_first() =~= v@.skip(i + 1 as int));
                assert(v@.subrange(0, i as int) + v@.skip(i as int).filter(pred) =~= v@.subrange(
                    0,
                    i + 1 as int,
                ) + v@.skip(i + 1 as int).filter(pred));
            }
            i += 1;
        }
    }
    proof {
        assert(v@.subrange(0, i as int) =~= v@);
        assert(v@.skip(i as int).filter(pred) =~= Seq::<Subscription>::empty().filter(pred));
        assert(Seq::<Subscription>::empty().filter(pred) =~= Seq::<Subscription>::empty()) by {
            reveal(Seq::filter);
        }
        assert(old(v)@.filter(pred) =~= v@);
    }
}

/// Drop every history entry of the given broker.
#[verifier::loop_isolation(false)]
fn retain_messages_of_other_servers(v: &mut Vec<MessageHistory>, server_id: i64) -> (r: ())
    ensures
        final(v)@ == old(v)@.filter(|m: MessageHistory| m.server_id != server_id),
{
    let ghost pred = |m: MessageHistory| m.server_id != server_id;
    let mut i: usize = 0;
    while i < v.len()
        invariant
            i <= v.len(),
            forall|j: int| 0 <= j < i ==> (#[trigger] v@[j].server_id) != server_id,
            old(v)@.filter(pred) == v@.subrange(0, i as int) + v@.skip(i as int).filter(pred),
        decreases v.len() - i,
    {
        proof {
            assert(v@.skip(i as int).first() == v@[i as int]);
            lemma_filter_first(v@.skip(i as int), pred);
        }
        if v[i].server_id == server_id {
            let ghost before = v@;
            let _ = v.remove(i);
            proof {
                assert(v@.skip(i as int) =~= before.skip(i as int).drop_first());
                assert(v@.subrange(0, i as int) =~= before.subrange(0, i as int));
            }
        } else {
            proof {
                assert(v@.subrange(0, i + 1 as int) =~= v@.subrange(0, i as int) + seq![
                    v@[i as int],
                ]);
                assert(v@.skip(i as int).drop_first() =~= v@.skip(i + 1 as int));
                assert(v@.subrange(0, i as int) + v@.skip(i as int).filter(pred) =~= v@.subrange(
                    0,
                    i + 1 as int,
                ) + v@.skip(i + 1 as int).filter(pred));
            }
            i += 1;
        }
    }
    proof {
        assert(v@.subrange(0, i as int) =~= v@);
        assert(v@.skip(i as int).filter(pred) =~= Seq::<MessageHistory>::empty().filter(pred));
        assert(Seq::<MessageHistory>::empty().filter(pred) =~= Seq::<MessageHistory>::empty()) by {
            reveal(Seq::filter);
        }
        assert(old(v)@.filter(pred) =~= v@);
    }
}

} // verus!
