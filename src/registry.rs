//! The registry of live connections, keyed by user identity.
use vstd::prelude::*;

verus! {

/// Tokio's bounded multi-producer queue, used as a connection's outbound queue.
#[verifier::external_type_specification]
#[verifier::external_body]
#[verifier::reject_recursive_types(T)]
pub struct ExSender<T>(tokio::sync::mpsc::Sender<T>);

/// What became of one enqueue attempt.
#[derive(Clone, Copy, Debug, PartialEq, Eq, Structural)]
pub enum SendOutcome {
    /// The payload is on the recipient's queue.
    Queued,
    /// The recipient's queue is full; the payload was dropped for it.
    Full,
    /// The recipient's consumer is gone; the payload was dropped for it.
    Closed,
}

/// Relies on tokio's `Sender::try_send`: it never waits, and reports whether the
/// queue took the payload, was full, or has lost its receiver.
#[verifier::external_body]
fn try_enqueue(sender: &tokio::sync::mpsc::Sender<String>, payload: String) -> (r: SendOutcome) {
    match sender.try_send(payload) {
        Ok(()) => SendOutcome::Queued,
        Err(tokio::sync::mpsc::error::TrySendError::Full(_)) => SendOutcome::Full,
        Err(tokio::sync::mpsc::error::TrySendError::Closed(_)) => SendOutcome::Closed,
    }
}

/// The abstract content of a connection record, its queue included.
pub struct ClientView {
    pub user_id: u128,
    pub username: Seq<char>,
    pub joint_id: u128,
    pub connection: u128,
    pub sender: tokio::sync::mpsc::Sender<String>,
}

/// One live connection: who it belongs to, the group it is scoped to, and the
/// sending end of its outbound queue.
pub struct Client {
    pub user_id: u128,
    pub username: String,
    pub joint_id: u128,
    /// Identifies this connection among the connections of the same user.
    pub connection: u128,
    pub sender: tokio::sync::mpsc::Sender<String>,
}

impl View for Client {
    type V = ClientView;

    open spec fn view(&self) -> ClientView {
        ClientView {
            user_id: self.user_id,
            username: self.username@,
            joint_id: self.joint_id,
            connection: self.connection,
            sender: self.sender,
        }
    }
}

/// The result of offering a payload to one recipient.
#[derive(Clone, Copy, Debug, PartialEq, Eq, Structural)]
pub struct Delivery {
    pub user_id: u128,
    /// The connection of the record that was offered the payload.
    pub connection: u128,
    pub outcome: SendOutcome,
}

/// One payload offered on one record's queue.
pub struct Offer {
    pub user_id: u128,
    pub connection: u128,
    pub queue: tokio::sync::mpsc::Sender<String>,
    pub payload: Seq<char>,
}

/// The offer of `payload` on the queue of record `c`.
pub open spec fn offer_to(c: ClientView, payload: Seq<char>) -> Offer {
    Offer { user_id: c.user_id, connection: c.connection, queue: c.sender, payload }
}

/// What a broadcast did: one delivery entry per offer, and the log of the
/// offers it made, in the order it made them. No queue is offered anything
/// that the log does not hold.
pub struct Broadcast {
    pub deliveries: Vec<Delivery>,
    pub offers: Ghost<Seq<Offer>>,
}

impl Broadcast {
    /// Entry `k` of the deliveries reports on offer `k`.
    pub open spec fn consistent(&self) -> bool {
        reports(self.deliveries@, self.offers@)
    }

    /// A broadcast that offered nothing.
    pub fn none() -> (r: Self)
        ensures
            r.consistent(),
            r.offers@ == Seq::<Offer>::empty(),
    {
        Broadcast { deliveries: Vec::new(), offers: Ghost(Seq::empty()) }
    }
}

/// Entry `k` of `d` reports on offer `k` of `o`.
pub open spec fn reports(d: Seq<Delivery>, o: Seq<Offer>) -> bool {
    d.len() == o.len() && forall|k: int|
        0 <= k < d.len() ==> (#[trigger] d[k]).user_id == o[k].user_id && d[k].connection
            == o[k].connection
}

/// No two records share an identity.
pub open spec fn unique_ids(s: Seq<ClientView>) -> bool {
    forall|i: int, j: int|
        0 <= i < s.len() && 0 <= j < s.len() && i != j ==> s[i].user_id != s[j].user_id
}

/// Some record belongs to `id`.
pub open spec fn has_identity(s: Seq<ClientView>, id: u128) -> bool {
    exists|i: int| 0 <= i < s.len() && s[i].user_id == id
}

/// The position of the record of `id`, where there is one.
pub open spec fn index_of(s: Seq<ClientView>, id: u128) -> int {
    choose|i: int| 0 <= i < s.len() && s[i].user_id == id
}

/// The registry after `c` has been registered: it takes the place of the
/// record of the same identity, or joins at the end.
pub open spec fn registered(s: Seq<ClientView>, c: ClientView) -> Seq<ClientView> {
    if has_identity(s, c.user_id) {
        s.update(index_of(s, c.user_id), c)
    } else {
        s.push(c)
    }
}

/// The registry after the record of `id`, if any, has been removed.
pub open spec fn deregistered(s: Seq<ClientView>, id: u128) -> Seq<ClientView> {
    if has_identity(s, id) {
        s.remove(index_of(s, id))
    } else {
        s
    }
}

/// The registry after removing the record of `id` if it is still the one of
/// `connection`.
pub open spec fn connection_removed(s: Seq<ClientView>, id: u128, connection: u128) -> Seq<
    ClientView,
> {
    if has_identity(s, id) && s[index_of(s, id)].connection == connection {
        deregistered(s, id)
    } else {
        s
    }
}

/// The registry after dropping the records whose queue a broadcast found
/// closed, first to last.
pub open spec fn pruned(s: Seq<ClientView>, ds: Seq<Delivery>) -> Seq<ClientView>
    decreases ds.len(),
{
    if ds.len() == 0 {
        s
    } else {
        let t = pruned(s, ds.drop_last());
        let d = ds.last();
        if d.outcome == SendOutcome::Closed {
            connection_removed(t, d.user_id, d.connection)
        } else {
            t
        }
    }
}

/// The identities that a broadcast to `joint` from `excluded` reaches, in
/// registry order.
pub open spec fn recipients(s: Seq<ClientView>, joint: u128, excluded: u128) -> Seq<u128>
    decreases s.len(),
{
    if s.len() == 0 {
        Seq::empty()
    } else {
        let rest = recipients(s.drop_last(), joint, excluded);
        if s.last().joint_id == joint && s.last().user_id != excluded {
            rest.push(s.last().user_id)
        } else {
            rest
        }
    }
}

/// The offers that a broadcast of `payload` to `joint` from `excluded`
/// makes: one on the queue of each other record of the group, in registry
/// order.
pub open spec fn offers_for(s: Seq<ClientView>, joint: u128, excluded: u128, payload: Seq<char>) -> Seq<
    Offer,
>
    decreases s.len(),
{
    if s.len() == 0 {
        Seq::empty()
    } else {
        let rest = offers_for(s.drop_last(), joint, excluded, payload);
        if s.last().joint_id == joint && s.last().user_id != excluded {
            rest.push(offer_to(s.last(), payload))
        } else {
            rest
        }
    }
}

/// The number of records scoped to `joint`.
pub open spec fn group_count(s: Seq<ClientView>, joint: u128) -> nat
    decreases s.len(),
{
    if s.len() == 0 {
        0
    } else {
        group_count(s.drop_last(), joint) + if s.last().joint_id == joint {
            1nat
        } else {
            0nat
        }
    }
}

proof fn lemma_take_step(s: Seq<ClientView>, i: int)
    requires
        0 <= i < s.len(),
    ensures
        s.take(i + 1).drop_last() == s.take(i),
        s.take(i + 1).last() == s[i],
{
    assert(s.take(i + 1).drop_last() =~= s.take(i));
}

proof fn lemma_group_count_bound(s: Seq<ClientView>, joint: u128)
    ensures
        group_count(s, joint) <= s.len(),
    decreases s.len(),
{
    if s.len() > 0 {
        lemma_group_count_bound(s.drop_last(), joint);
    }
}

/// Membership in `recipients`, element by element.
pub proof fn lemma_recipients_contains(s: Seq<ClientView>, joint: u128, excluded: u128, id: u128)
    ensures
        recipients(s, joint, excluded).contains(id) <==> (id != excluded && exists|i: int|
            0 <= i < s.len() && s[i].user_id == id && s[i].joint_id == joint),
    decreases s.len(),
{
    if s.len() > 0 {
        let t = s.drop_last();
        lemma_recipients_contains(t, joint, excluded, id);
        let rest = recipients(t, joint, excluded);
        if recipients(s, joint, excluded).contains(id) {
            if rest.contains(id) {
                let i = choose|i: int| 0 <= i < t.len() && t[i].user_id == id && t[i].joint_id == joint;
                assert(s[i] == t[i]);
            } else {
                let k = choose|k: int| 0 <= k < recipients(s, joint, excluded).len() && recipients(s, joint, excluded)[k] == id;
                assert(k == rest.len());
                assert(s[s.len() - 1] == s.last());
            }
        }
        if id != excluded && exists|i: int| 0 <= i < s.len() && s[i].user_id == id && s[i].joint_id == joint {
            let i = choose|i: int| 0 <= i < s.len() && s[i].user_id == id && s[i].joint_id == joint;
            if i < s.len() - 1 {
                assert(t[i] == s[i]);
                let k = choose|k: int| 0 <= k < rest.len() && rest[k] == id;
                if s.last().joint_id == joint && s.last().user_id != excluded {
                    assert(recipients(s, joint, excluded)[k] == id);
                }
            } else {
                assert(recipients(s, joint, excluded)[rest.len() as int] == id);
            }
        }
    }
}

/// One step of registry traffic.
pub enum RegistryOp {
    Register(ClientView),
    Deregister(u128),
}

/// The registry after `ops` have run on `s`, first to last.
pub open spec fn apply_ops(s: Seq<ClientView>, ops: Seq<RegistryOp>) -> Seq<ClientView>
    decreases ops.len(),
{
    if ops.len() == 0 {
        s
    } else {
        match ops.last() {
            RegistryOp::Register(c) => registered(apply_ops(s, ops.drop_last()), c),
            RegistryOp::Deregister(id) => deregistered(apply_ops(s, ops.drop_last()), id),
        }
    }
}

/// No record belongs to `id` or holds queue `q`.
pub open spec fn free_of(s: Seq<ClientView>, id: u128, q: tokio::sync::mpsc::Sender<String>) -> bool {
    forall|i: int| 0 <= i < s.len() ==> s[i].user_id != id && s[i].sender != q
}

/// The identity that an operation names.
pub open spec fn op_identity(op: RegistryOp) -> u128 {
    match op {
        RegistryOp::Register(c) => c.user_id,
        RegistryOp::Deregister(id) => id,
    }
}

proof fn lemma_registered_elements(s: Seq<ClientView>, c: ClientView)
    requires
        unique_ids(s),
    ensures
        unique_ids(registered(s, c)),
        forall|j: int|
            0 <= j < registered(s, c).len() ==> #[trigger] registered(s, c)[j] == c || (s.contains(
                registered(s, c)[j],
            ) && registered(s, c)[j].user_id != c.user_id),
{
    let t = registered(s, c);
    lemma_register_single_record(s, c);
    assert forall|j: int| 0 <= j < t.len() implies #[trigger] t[j] == c || (s.contains(t[j])
        && t[j].user_id != c.user_id) by {
        if has_identity(s, c.user_id) {
            let k = index_of(s, c.user_id);
            if j != k {
                assert(t[j] == s[j]);
            }
        } else {
            if j < s.len() {
                assert(t[j] == s[j]);
            }
        }
    }
}

proof fn lemma_deregistered_elements(s: Seq<ClientView>, id: u128)
    requires
        unique_ids(s),
    ensures
        unique_ids(deregistered(s, id)),
        forall|j: int|
            0 <= j < deregistered(s, id).len() ==> s.contains(#[trigger] deregistered(s, id)[j])
                && deregistered(s, id)[j].user_id != id,
{
    let t = deregistered(s, id);
    if has_identity(s, id) {
        let k = index_of(s, id);
        assert forall|j: int| 0 <= j < t.len() implies s.contains(#[trigger] t[j]) && t[j].user_id
            != id by {
            if j < k {
                assert(t[j] == s[j]);
            } else {
                assert(t[j] == s[j + 1]);
            }
        }
        assert forall|a: int, b: int|
            0 <= a < t.len() && 0 <= b < t.len() && a != b implies t[a].user_id != t[b].user_id by {
            let a2 = if a < k {
                a
            } else {
                a + 1
            };
            let b2 = if b < k {
                b
            } else {
                b + 1
            };
            assert(t[a] == s[a2]);
            assert(t[b] == s[b2]);
        }
    } else {
        assert forall|j: int| 0 <= j < t.len() implies s.contains(#[trigger] t[j]) && t[j].user_id
            != id by {
            assert(t[j] == s[j]);
        }
    }
}

proof fn lemma_free_through(
    s: Seq<ClientView>,
    ops: Seq<RegistryOp>,
    id: u128,
    q: tokio::sync::mpsc::Sender<String>,
)
    requires
        unique_ids(s),
        free_of(s, id, q),
        forall|k: int|
            0 <= k < ops.len() ==> match #[trigger] ops[k] {
                RegistryOp::Register(c) => c.user_id != id && c.sender != q,
                RegistryOp::Deregister(_) => true,
            },
    ensures
        unique_ids(apply_ops(s, ops)),
        free_of(apply_ops(s, ops), id, q),
    decreases ops.len(),
{
    if ops.len() > 0 {
        let rest = ops.drop_last();
        assert forall|k: int| 0 <= k < rest.len() implies match #[trigger] rest[k] {
            RegistryOp::Register(c) => c.user_id != id && c.sender != q,
            RegistryOp::Deregister(_) => true,
        } by {
            assert(rest[k] == ops[k]);
        }
        lemma_free_through(s, rest, id, q);
        let t = apply_ops(s, rest);
        assert(ops[ops.len() - 1] == ops.last());
        match ops.last() {
            RegistryOp::Register(c) => {
                lemma_registered_elements(t, c);
                let u = registered(t, c);
                assert forall|j: int| 0 <= j < u.len() implies u[j].user_id != id && u[j].sender
                    != q by {
                    if u[j] != c {
                        let i = choose|i: int| 0 <= i < t.len() && t[i] == u[j];
                    }
                }
            },
            RegistryOp::Deregister(x) => {
                lemma_deregistered_elements(t, x);
                let u = deregistered(t, x);
                assert forall|j: int| 0 <= j < u.len() implies u[j].user_id != id && u[j].sender
                    != q by {
                    let i = choose|i: int| 0 <= i < t.len() && t[i] == u[j];
                }
            },
        }
    }
}

/// Once the record of `id` has been removed, no broadcast reaches `id` or
/// offers anything on `q`, the queue that only that record held: to
/// whatever group, from whatever sender, after any later registrations and
/// removals that register neither `id` nor `q` anew.
pub proof fn lemma_deregistered_never_reached(
    s: Seq<ClientView>,
    id: u128,
    q: tokio::sync::mpsc::Sender<String>,
    ops: Seq<RegistryOp>,
    joint: u128,
    excluded: u128,
    payload: Seq<char>,
    o: Offer,
)
    requires
        unique_ids(s),
        forall|i: int| 0 <= i < s.len() && s[i].sender == q ==> s[i].user_id == id,
        forall|k: int|
            0 <= k < ops.len() ==> match #[trigger] ops[k] {
                RegistryOp::Register(c) => c.user_id != id && c.sender != q,
                RegistryOp::Deregister(_) => true,
            },
    ensures
        !recipients(apply_ops(deregistered(s, id), ops), joint, excluded).contains(id),
        offers_for(apply_ops(deregistered(s, id), ops), joint, excluded, payload).contains(o) ==> o.user_id
            != id && o.queue != q,
{
    let d = deregistered(s, id);
    lemma_deregistered_elements(s, id);
    assert forall|j: int| 0 <= j < d.len() implies d[j].user_id != id && d[j].sender != q by {
        let i = choose|i: int| 0 <= i < s.len() && s[i] == d[j];
    }
    lemma_free_through(d, ops, id, q);
    let t = apply_ops(d, ops);
    lemma_recipients_contains(t, joint, excluded, id);
    lemma_offers_contains(t, joint, excluded, payload, o);
}

/// A broadcast from the record `a` to a group that also holds the records
/// `b` and `c` of other identities offers the payload on `b`'s queue and on
/// `c`'s queue, reaches each identity once, and offers nothing to `a`'s
/// identity, nor on `a`'s queue where no other record shares it.
pub proof fn lemma_broadcast_reaches_others(
    s: Seq<ClientView>,
    joint: u128,
    payload: Seq<char>,
    a: int,
    b: int,
    c: int,
)
    requires
        unique_ids(s),
        0 <= a < s.len() && 0 <= b < s.len() && 0 <= c < s.len(),
        s[a].joint_id == joint && s[b].joint_id == joint && s[c].joint_id == joint,
        s[a].user_id != s[b].user_id,
        s[a].user_id != s[c].user_id,
    ensures
        offers_for(s, joint, s[a].user_id, payload).contains(offer_to(s[b], payload)),
        offers_for(s, joint, s[a].user_id, payload).contains(offer_to(s[c], payload)),
        recipients(s, joint, s[a].user_id).no_duplicates(),
        forall|k: int|
            0 <= k < offers_for(s, joint, s[a].user_id, payload).len() ==> (#[trigger] offers_for(
                s,
                joint,
                s[a].user_id,
                payload,
            )[k]).user_id != s[a].user_id,
        (forall|i: int| 0 <= i < s.len() && s[i].sender == s[a].sender ==> i == a) ==> forall|k: int|
            0 <= k < offers_for(s, joint, s[a].user_id, payload).len() ==> (#[trigger] offers_for(
                s,
                joint,
                s[a].user_id,
                payload,
            )[k]).queue != s[a].sender,
{
    let ex = s[a].user_id;
    let os = offers_for(s, joint, ex, payload);
    lemma_offers_contains(s, joint, ex, payload, offer_to(s[b], payload));
    lemma_offers_contains(s, joint, ex, payload, offer_to(s[c], payload));
    lemma_recipients_distinct(s, joint, ex);
    assert forall|k: int| 0 <= k < os.len() implies (#[trigger] os[k]).user_id != ex && ((forall|
        i: int,
    | 0 <= i < s.len() && s[i].sender == s[a].sender ==> i == a) ==> os[k].queue != s[a].sender) by {
        assert(os.contains(os[k]));
        lemma_offers_contains(s, joint, ex, payload, os[k]);
    }
}

proof fn lemma_recipients_distinct(s: Seq<ClientView>, joint: u128, excluded: u128)
    requires
        unique_ids(s),
    ensures
        recipients(s, joint, excluded).no_duplicates(),
    decreases s.len(),
{
    if s.len() > 0 {
        let t = s.drop_last();
        assert(unique_ids(t)) by {
            assert forall|i: int, j: int|
                0 <= i < t.len() && 0 <= j < t.len() && i != j implies t[i].user_id
                != t[j].user_id by {
                assert(t[i] == s[i] && t[j] == s[j]);
            }
        }
        lemma_recipients_distinct(t, joint, excluded);
        lemma_recipients_contains(t, joint, excluded, s.last().user_id);
        if exists|i: int| 0 <= i < t.len() && t[i].user_id == s.last().user_id && t[i].joint_id == joint {
            let i = choose|i: int| 0 <= i < t.len() && t[i].user_id == s.last().user_id && t[i].joint_id == joint;
            assert(t[i] == s[i]);
            assert(s[s.len() - 1] == s.last());
        }
    }
}

/// With no member of the group online but the sender, a broadcast offers
/// nothing to any queue.
pub proof fn lemma_lone_member_offers_nothing(
    s: Seq<ClientView>,
    joint: u128,
    excluded: u128,
    payload: Seq<char>,
)
    requires
        forall|i: int| 0 <= i < s.len() && s[i].joint_id == joint ==> s[i].user_id == excluded,
    ensures
        offers_for(s, joint, excluded, payload).len() == 0,
{
    let os = offers_for(s, joint, excluded, payload);
    if os.len() > 0 {
        assert(os.contains(os[0]));
        lemma_offers_contains(s, joint, excluded, payload, os[0]);
    }
}

/// After a second registration of an identity on a new queue, the
/// identity's only record holds the new queue, and the superseded queue `q`,
/// which no record of another identity held, is held by none.
pub proof fn lemma_superseded_queue_released(
    s: Seq<ClientView>,
    c: ClientView,
    q: tokio::sync::mpsc::Sender<String>,
)
    requires
        unique_ids(s),
        q != c.sender,
        forall|i: int| 0 <= i < s.len() && s[i].sender == q ==> s[i].user_id == c.user_id,
    ensures
        forall|i: int|
            0 <= i < registered(s, c).len() ==> (#[trigger] registered(s, c)[i]).sender != q,
        forall|i: int|
            0 <= i < registered(s, c).len() && registered(s, c)[i].user_id == c.user_id ==> (
            #[trigger] registered(s, c)[i]) == c,
{
    lemma_registered_elements(s, c);
    lemma_register_single_record(s, c);
    let t = registered(s, c);
    assert forall|i: int| 0 <= i < t.len() implies (#[trigger] t[i]).sender != q by {
        if t[i] != c {
            let j = choose|j: int| 0 <= j < s.len() && s[j] == t[i];
        }
    }
}

/// Once a relay's record has been removed by its connection, no record
/// holds the relay's queue `q`, where only that record held it.
pub proof fn lemma_teardown_releases_queue(
    s: Seq<ClientView>,
    id: u128,
    connection: u128,
    q: tokio::sync::mpsc::Sender<String>,
)
    requires
        unique_ids(s),
        has_identity(s, id) && s[index_of(s, id)].connection == connection,
        forall|i: int| 0 <= i < s.len() && s[i].sender == q ==> s[i].user_id == id,
    ensures
        free_of(connection_removed(s, id, connection), id, q),
{
    let d = deregistered(s, id);
    lemma_deregistered_elements(s, id);
    assert forall|j: int| 0 <= j < d.len() implies d[j].user_id != id && d[j].sender != q by {
        let i = choose|i: int| 0 <= i < s.len() && s[i] == d[j];
    }
}

/// Registering under an identity that already has a record leaves exactly one
/// record of that identity: the new one.
pub proof fn lemma_register_single_record(s: Seq<ClientView>, c: ClientView)
    requires
        unique_ids(s),
    ensures
        unique_ids(registered(s, c)),
        exists|i: int|
            0 <= i < registered(s, c).len() && registered(s, c)[i] == c && forall|j: int|
                0 <= j < registered(s, c).len() && registered(s, c)[j].user_id == c.user_id ==> j
                    == i,
{
    let t = registered(s, c);
    if has_identity(s, c.user_id) {
        let k = index_of(s, c.user_id);
        assert(t[k] == c);
    } else {
        assert(t[s.len() as int] == c);
    }
}

proof fn lemma_group_count_concat(a: Seq<ClientView>, b: Seq<ClientView>, joint: u128)
    ensures
        group_count(a + b, joint) == group_count(a, joint) + group_count(b, joint),
    decreases b.len(),
{
    if b.len() > 0 {
        lemma_group_count_concat(a, b.drop_last(), joint);
        assert((a + b).drop_last() =~= a + b.drop_last());
    }
}

proof fn lemma_group_count_one(c: ClientView, joint: u128)
    ensures
        group_count(seq![c], joint) == if c.joint_id == joint {
            1nat
        } else {
            0nat
        },
{
    assert(seq![c].drop_last() =~= Seq::<ClientView>::empty());
    assert(group_count(Seq::<ClientView>::empty(), joint) == 0);
    assert(seq![c].last() == c);
}

proof fn lemma_count_register_elsewhere(s: Seq<ClientView>, g: u128, c: ClientView)
    requires
        c.joint_id != g,
        has_identity(s, c.user_id) ==> s[index_of(s, c.user_id)].joint_id != g,
    ensures
        group_count(registered(s, c), g) == group_count(s, g),
{
    if has_identity(s, c.user_id) {
        let k = index_of(s, c.user_id);
        assert(s =~= s.take(k) + seq![s[k]] + s.skip(k + 1));
        assert(s.update(k, c) =~= s.take(k) + seq![c] + s.skip(k + 1));
        lemma_group_count_concat(s.take(k) + seq![s[k]], s.skip(k + 1), g);
        lemma_group_count_concat(s.take(k), seq![s[k]], g);
        lemma_group_count_concat(s.take(k) + seq![c], s.skip(k + 1), g);
        lemma_group_count_concat(s.take(k), seq![c], g);
        lemma_group_count_one(c, g);
        lemma_group_count_one(s[k], g);
    } else {
        assert(s.push(c).drop_last() =~= s);
    }
}

proof fn lemma_count_deregister_elsewhere(s: Seq<ClientView>, g: u128, id: u128)
    requires
        has_identity(s, id) ==> s[index_of(s, id)].joint_id != g,
    ensures
        group_count(deregistered(s, id), g) == group_count(s, g),
{
    if has_identity(s, id) {
        let k = index_of(s, id);
        assert(s =~= s.take(k) + seq![s[k]] + s.skip(k + 1));
        assert(s.remove(k) =~= s.take(k) + s.skip(k + 1));
        lemma_group_count_concat(s.take(k) + seq![s[k]], s.skip(k + 1), g);
        lemma_group_count_concat(s.take(k), seq![s[k]], g);
        lemma_group_count_concat(s.take(k), s.skip(k + 1), g);
        lemma_group_count_one(s[k], g);
    }
}

/// Registering or removing a connection of another group leaves a group's
/// count as it was: `g`'s count moves only with records of `g`.
pub proof fn lemma_count_other_groups(s: Seq<ClientView>, g: u128, c: ClientView, id: u128)
    requires
        c.joint_id != g,
        has_identity(s, c.user_id) ==> s[index_of(s, c.user_id)].joint_id != g,
        has_identity(s, id) ==> s[index_of(s, id)].joint_id != g,
    ensures
        group_count(registered(s, c), g) == group_count(s, g),
        group_count(deregistered(s, id), g) == group_count(s, g),
{
    lemma_count_register_elsewhere(s, g, c);
    lemma_count_deregister_elsewhere(s, g, id);
}

/// Some operation of `ops` names identity `id`.
pub open spec fn touches(ops: Seq<RegistryOp>, id: u128) -> bool {
    exists|k: int| 0 <= k < ops.len() && op_identity(ops[k]) == id
}

proof fn lemma_count_traffic(s: Seq<ClientView>, g: u128, ops: Seq<RegistryOp>, all: Seq<RegistryOp>)
    requires
        unique_ids(s),
        forall|i: int| 0 <= i < s.len() && touches(all, s[i].user_id) ==> s[i].joint_id != g,
        forall|k: int|
            0 <= k < ops.len() ==> touches(all, op_identity(#[trigger] ops[k])) && match ops[k] {
                RegistryOp::Register(c) => c.joint_id != g,
                RegistryOp::Deregister(_) => true,
            },
    ensures
        unique_ids(apply_ops(s, ops)),
        forall|i: int|
            0 <= i < apply_ops(s, ops).len() && touches(all, apply_ops(s, ops)[i].user_id)
                ==> apply_ops(s, ops)[i].joint_id != g,
        group_count(apply_ops(s, ops), g) == group_count(s, g),
    decreases ops.len(),
{
    if ops.len() > 0 {
        let rest = ops.drop_last();
        assert forall|k: int| 0 <= k < rest.len() implies touches(
            all,
            op_identity(#[trigger] rest[k]),
        ) && match rest[k] {
            RegistryOp::Register(c) => c.joint_id != g,
            RegistryOp::Deregister(_) => true,
        } by {
            assert(rest[k] == ops[k]);
        }
        lemma_count_traffic(s, g, rest, all);
        let t = apply_ops(s, rest);
        let last = ops.last();
        assert(ops[ops.len() - 1] == last);
        assert(touches(all, op_identity(last)));
        match last {
            RegistryOp::Register(c) => {
                if has_identity(t, c.user_id) {
                    let k = index_of(t, c.user_id);
                    assert(t[k].user_id == c.user_id);
                }
                lemma_count_register_elsewhere(t, g, c);
                lemma_registered_elements(t, c);
                let u = registered(t, c);
                assert forall|j: int| 0 <= j < u.len() && touches(all, u[j].user_id) implies u[j].joint_id
                    != g by {
                    if u[j] != c {
                        let i = choose|i: int| 0 <= i < t.len() && t[i] == u[j];
                    }
                }
            },
            RegistryOp::Deregister(x) => {
                if has_identity(t, x) {
                    let k = index_of(t, x);
                    assert(t[k].user_id == x);
                }
                lemma_count_deregister_elsewhere(t, g, x);
                lemma_deregistered_elements(t, x);
                let u = deregistered(t, x);
                assert forall|j: int| 0 <= j < u.len() && touches(all, u[j].user_id) implies u[j].joint_id
                    != g by {
                    let i = choose|i: int| 0 <= i < t.len() && t[i] == u[j];
                }
            },
        }
    }
}

/// However registrations into other groups and removals interleave, a
/// group's count stays the number of its records: traffic on identities
/// that have no record in `g` leaves `g`'s count as it was.
pub proof fn lemma_count_under_other_traffic(s: Seq<ClientView>, g: u128, ops: Seq<RegistryOp>)
    requires
        unique_ids(s),
        forall|k: int|
            0 <= k < ops.len() ==> match #[trigger] ops[k] {
                RegistryOp::Register(c) => c.joint_id != g,
                RegistryOp::Deregister(_) => true,
            },
        forall|i: int, k: int|
            0 <= i < s.len() && 0 <= k < ops.len() && #[trigger] s[i].user_id == op_identity(
                #[trigger] ops[k],
            ) ==> s[i].joint_id != g,
    ensures
        group_count(apply_ops(s, ops), g) == group_count(s, g),
{
    assert forall|i: int| 0 <= i < s.len() && touches(ops, s[i].user_id) implies s[i].joint_id
        != g by {
        let k = choose|k: int| 0 <= k < ops.len() && op_identity(ops[k]) == s[i].user_id;
        assert(s[i].user_id == op_identity(ops[k]));
    }
    assert forall|k: int| 0 <= k < ops.len() implies touches(ops, op_identity(#[trigger] ops[k]))
        && match ops[k] {
        RegistryOp::Register(c) => c.joint_id != g,
        RegistryOp::Deregister(_) => true,
    } by {}
    lemma_count_traffic(s, g, ops, ops);
}

/// Which offers a broadcast makes, offer by offer: exactly one on the queue
/// of each record of the group but the sender's.
pub proof fn lemma_offers_contains(
    s: Seq<ClientView>,
    joint: u128,
    excluded: u128,
    payload: Seq<char>,
    o: Offer,
)
    ensures
        offers_for(s, joint, excluded, payload).contains(o) <==> exists|i: int|
            0 <= i < s.len() && s[i].joint_id == joint && s[i].user_id != excluded && o == offer_to(
                s[i],
                payload,
            ),
    decreases s.len(),
{
    if s.len() > 0 {
        let t = s.drop_last();
        let all = offers_for(s, joint, excluded, payload);
        let rest = offers_for(t, joint, excluded, payload);
        lemma_offers_contains(t, joint, excluded, payload, o);
        if all.contains(o) {
            if rest.contains(o) {
                let i = choose|i: int|
                    0 <= i < t.len() && t[i].joint_id == joint && t[i].user_id != excluded && o
                        == offer_to(t[i], payload);
                assert(s[i] == t[i]);
            } else {
                let k = choose|k: int| 0 <= k < all.len() && all[k] == o;
                assert(k == rest.len());
                assert(s[s.len() - 1] == s.last());
            }
        }
        if exists|i: int|
            0 <= i < s.len() && s[i].joint_id == joint && s[i].user_id != excluded && o == offer_to(
                s[i],
                payload,
            ) {
            let i = choose|i: int|
                0 <= i < s.len() && s[i].joint_id == joint && s[i].user_id != excluded && o
                    == offer_to(s[i], payload);
            if i < s.len() - 1 {
                assert(t[i] == s[i]);
                let k = choose|k: int| 0 <= k < rest.len() && rest[k] == o;
                if s.last().joint_id == joint && s.last().user_id != excluded {
                    assert(all[k] == o);
                }
            } else {
                assert(all[rest.len() as int] == o);
            }
        }
    }
}

/// The identities behind a broadcast's offers are its recipients.
pub proof fn lemma_offers_recipients(s: Seq<ClientView>, joint: u128, excluded: u128, payload: Seq<char>)
    ensures
        offers_for(s, joint, excluded, payload).map_values(|o: Offer| o.user_id) == recipients(
            s,
            joint,
            excluded,
        ),
    decreases s.len(),
{
    if s.len() > 0 {
        lemma_offers_recipients(s.drop_last(), joint, excluded, payload);
        assert(offers_for(s, joint, excluded, payload).map_values(|o: Offer| o.user_id) =~= recipients(
            s,
            joint,
            excluded,
        ));
    }
}

/// The shared directory of live connections.
pub struct ConnectionManager {
    clients: Vec<Client>,
}

impl View for ConnectionManager {
    type V = Seq<ClientView>;

    closed spec fn view(&self) -> Seq<ClientView> {
        self.clients@.map_values(|c: Client| c@)
    }
}

impl ConnectionManager {
    /// Every identity has at most one record.
    pub open spec fn wf(&self) -> bool {
        unique_ids(self@)
    }

    /// An empty registry.
    pub fn new() -> (r: Self)
        ensures
            r@ == Seq::<ClientView>::empty(),
            r.wf(),
    {
        let r = ConnectionManager { clients: Vec::new() };
        assert(r@ =~= Seq::<ClientView>::empty());
        r
    }

    /// The position of the record of `user_id`, if there is one.
    fn find(&self, user_id: u128) -> (r: Option<usize>)
        requires
            self.wf(),
        ensures
            match r {
                Some(i) => i < self@.len() && self@[i as int].user_id == user_id && index_of(
                    self@,
                    user_id,
                ) == i,
                None => !has_identity(self@, user_id),
            },
    {
        let mut i: usize = 0;
        while i < self.clients.len()
            invariant
                i <= self.clients@.len(),
                self.wf(),
                forall|j: int| 0 <= j < i ==> self@[j].user_id != user_id,
            decreases self.clients@.len() - i,
        {
            if self.clients[i].user_id == user_id {
                assert(self@[i as int].user_id == user_id);
                return Some(i);
            }
            i = i + 1;
        }
        None
    }

    /// Registers a connection. A record of the same identity is superseded
    /// and handed back, so that the caller can close its queue; the new
    /// record takes its place.
    pub fn add_client(
        &mut self,
        user_id: u128,
        username: String,
        joint_id: u128,
        connection: u128,
        sender: tokio::sync::mpsc::Sender<String>,
    ) -> (superseded: Option<Client>)
        requires
            old(self).wf(),
        ensures
            final(self).wf(),
            final(self)@ == registered(
                old(self)@,
                ClientView { user_id, username: username@, joint_id, connection, sender },
            ),
            match superseded {
                Some(c) => has_identity(old(self)@, user_id) && c@ == old(self)@[index_of(
                    old(self)@,
                    user_id,
                )],
                None => !has_identity(old(self)@, user_id),
            },
    {
        let client = Client { user_id, username, joint_id, connection, sender };
        let ghost c = client@;
        match self.find(user_id) {
            Some(i) => {
                self.clients.push(client);
                let prior = self.clients.swap_remove(i);
                assert(self@ =~= registered(old(self)@, c));
                Some(prior)
            },
            None => {
                self.clients.push(client);
                assert(self@ =~= registered(old(self)@, c));
                None
            },
        }
    }

    /// Removes the record of `user_id`; nothing happens when there is none.
    pub fn remove_client(&mut self, user_id: &u128)
        requires
            old(self).wf(),
        ensures
            final(self).wf(),
            final(self)@ == deregistered(old(self)@, *user_id),
    {
        match self.find(*user_id) {
            Some(i) => {
                let _gone = self.clients.remove(i);
                assert(self@ =~= deregistered(old(self)@, *user_id));
            },
            None => {},
        }
    }

    /// Removes the record of `user_id` only while it is still the one of
    /// `connection`; a connection that was superseded leaves its successor
    /// in place. Returns whether a record was removed.
    pub fn remove_connection(&mut self, user_id: u128, connection: u128) -> (removed: bool)
        requires
            old(self).wf(),
        ensures
            final(self).wf(),
            removed == (has_identity(old(self)@, user_id) && old(self)@[index_of(
                old(self)@,
                user_id,
            )].connection == connection),
            final(self)@ == connection_removed(old(self)@, user_id, connection),
    {
        match self.find(user_id) {
            Some(i) => {
                if self.clients[i].connection == connection {
                    let _gone = self.clients.remove(i);
                    assert(self@ =~= deregistered(old(self)@, user_id));
                    true
                } else {
                    false
                }
            },
            None => false,
        }
    }

    /// Drops the record behind each delivery that found its queue closed, as
    /// long as that record was not superseded since: a record without a
    /// consumer does not stay.
    pub fn remove_closed(&mut self, deliveries: &Vec<Delivery>)
        requires
            old(self).wf(),
        ensures
            final(self).wf(),
            final(self)@ == pruned(old(self)@, deliveries@),
    {
        let mut i: usize = 0;
        while i < deliveries.len()
            invariant
                i <= deliveries@.len(),
                self.wf(),
                self@ == pruned(old(self)@, deliveries@.take(i as int)),
            decreases deliveries@.len() - i,
        {
            let d = deliveries[i];
            assert(deliveries@.take(i + 1).drop_last() =~= deliveries@.take(i as int));
            assert(deliveries@.take(i + 1).last() == d);
            if d.outcome == SendOutcome::Closed {
                let _ = self.remove_connection(d.user_id, d.connection);
            }
            i = i + 1;
        }
        assert(deliveries@.take(deliveries@.len() as int) =~= deliveries@);
    }

    /// Offers `message` to every record of `joint_id` but the one of
    /// `sender_id`, each on its own queue, once, in registry order. No attempt
    /// waits: a full or closed queue only drops the message for that
    /// recipient, and the others still get it.
    pub fn broadcast_to_joint(&self, joint_id: u128, message: String, sender_id: u128) -> (r:
        Broadcast)
        ensures
            r.offers@ == offers_for(self@, joint_id, sender_id, message@),
            r.consistent(),
            r.deliveries@.map_values(|d: Delivery| d.user_id) == recipients(
                self@,
                joint_id,
                sender_id,
            ),
    {
        let mut out: Vec<Delivery> = Vec::new();
        let ghost mut log: Seq<Offer> = Seq::empty();
        let mut i: usize = 0;
        while i < self.clients.len()
            invariant
                i <= self.clients@.len(),
                log == offers_for(self@.take(i as int), joint_id, sender_id, message@),
                reports(out@, log),
            decreases self.clients@.len() - i,
        {
            proof {
                lemma_take_step(self@, i as int);
            }
            let c = &self.clients[i];
            assert(self@[i as int] == self.clients@[i as int]@);
            if c.joint_id == joint_id && c.user_id != sender_id {
                let payload = message.clone();
                let ghost offered = offer_to(c@, payload@);
                let outcome = try_enqueue(&c.sender, payload);
                proof {
                    log = log.push(offered);
                }
                let ghost before = out@;
                out.push(Delivery { user_id: c.user_id, connection: c.connection, outcome });
                assert forall|k: int| 0 <= k < out@.len() implies (#[trigger] out@[k]).user_id
                    == log[k].user_id && out@[k].connection == log[k].connection by {
                    if k < before.len() {
                        assert(out@[k] == before[k]);
                    } else {
                        assert(log[k] == offered);
                    }
                }
            }
            i = i + 1;
        }
        assert(self@.take(self@.len() as int) =~= self@);
        let r = Broadcast { deliveries: out, offers: Ghost(log) };
        proof {
            lemma_offers_recipients(self@, joint_id, sender_id, message@);
            assert(r.deliveries@.map_values(|d: Delivery| d.user_id) =~= r.offers@.map_values(
                |o: Offer| o.user_id,
            ));
        }
        r
    }

    /// The number of live connections scoped to `joint_id`.
    pub fn get_joint_user_count(&self, joint_id: u128) -> (r: usize)
        ensures
            r == group_count(self@, joint_id),
    {
        let mut n: usize = 0;
        let mut i: usize = 0;
        while i < self.clients.len()
            invariant
                i <= self.clients@.len(),
                n == group_count(self@.take(i as int), joint_id),
            decreases self.clients@.len() - i,
        {
            proof {
                lemma_take_step(self@, i as int);
                lemma_group_count_bound(self@.take(i as int), joint_id);
            }
            if self.clients[i].joint_id == joint_id {
                n = n + 1;
            }
            i = i + 1;
        }
        assert(self@.take(self@.len() as int) =~= self@);
        n
    }
}

impl Default for ConnectionManager {
    fn default() -> (r: Self)
        ensures
            r@ == Seq::<ClientView>::empty(),
            r.wf(),
    {
        Self::new()
    }
}

} // verus!
