use vstd::prelude::*;
use crate::state::MavConnState;
use crate::supervisor::prefixed;
use vstd::string::StringSliceAdditionalSpecFns;
use vstd::utf8::encode_utf8;

verus! {

/// Target system and component of every parameter write.
pub const TARGET_SYSTEM: u8 = 1;
pub const TARGET_COMPONENT: u8 = 1;

/// A requested parameter write; `new_value_bits` holds the IEEE-754 bits of
/// the 32-bit floating-point value.
pub struct ParamChange {
    pub param_name: String,
    pub new_value_bits: u32,
}

/// The fields of a PARAM_SET message.
pub struct ParamSetMessage {
    pub param_id: [u8; 16],
    pub target_system: u8,
    pub target_component: u8,
    pub param_value_bits: u32,
}

/// The 16-byte identifier of a name: its bytes, cut at 16 or padded with zeros.
pub open spec fn param_id_of(bytes: Seq<u8>) -> Seq<u8> {
    Seq::new(16, |i: int| if i < bytes.len() { bytes[i] } else { 0u8 })
}

pub open spec fn send_failure_text(name: Seq<char>, reason: Seq<char>) -> Seq<char> {
    "Failed to send param "@ + name + " update: "@ + reason
}

pub open spec fn no_connection_text() -> Seq<char> {
    "No active MavConnection. Call connect_to_mav first."@
}

/// Encodes a parameter name into its fixed-width identifier.
pub fn encode_param_id(name: &str) -> (r: [u8; 16])
    ensures
        r@ == param_id_of(encode_utf8(name@)),
{
    let bytes = name.as_bytes();
    let n: usize = if bytes.len() < 16 { bytes.len() } else { 16 };
    let mut id = [0u8; 16];
    let mut i: usize = 0;
    while i < n
        invariant
            i <= n <= 16,
            n <= bytes@.len(),
            n == bytes@.len() || n == 16,
            bytes@ == name.spec_bytes(),
            id@.len() == 16,
            forall|j: int| 0 <= j < i ==> id@[j] == bytes@[j],
            forall|j: int| i <= j < 16 ==> id@[j] == 0u8,
        decreases n - i,
    {
        id.set(i, bytes[i]);
        i = i + 1;
    }
    assert(id@ =~= param_id_of(name.spec_bytes()));
    id
}

/// Builds the PARAM_SET message of one change.
pub fn param_set_message(change: &ParamChange) -> (r: ParamSetMessage)
    ensures
        r.param_id@ == param_id_of(encode_utf8(change.param_name@)),
        r.target_system == TARGET_SYSTEM,
        r.target_component == TARGET_COMPONENT,
        r.param_value_bits == change.new_value_bits,
{
    ParamSetMessage {
        param_id: encode_param_id(change.param_name.as_str()),
        target_system: TARGET_SYSTEM,
        target_component: TARGET_COMPONENT,
        param_value_bits: change.new_value_bits,
    }
}


/// Where a batch of writes stands: the changes, how many were sent, and the
/// error of the first send that failed.
pub struct ParamWriter {
    changes: Vec<ParamChange>,
    sent: usize,
    error: Option<String>,
}

pub struct WriterModel {
    pub names: Seq<Seq<char>>,
    pub sent: nat,
    pub error: Option<Seq<char>>,
}

pub open spec fn pending(m: WriterModel) -> bool {
    m.error is None && m.sent < m.names.len()
}

/// The batch after one send: a success moves on to the next change, the
/// first failure stops the batch and names the change.
pub open spec fn record_spec(m: WriterModel, failure: Option<Seq<char>>) -> WriterModel {
    if !pending(m) {
        m
    } else {
        match failure {
            None => WriterModel { sent: m.sent + 1, ..m },
            Some(w) => WriterModel { error: Some(send_failure_text(m.names[m.sent as int], w)), ..m },
        }
    }
}

/// The batch after a run of sends; `None` stands for a success.
pub open spec fn feed(m: WriterModel, results: Seq<Option<Seq<char>>>) -> WriterModel
    decreases results.len(),
{
    if results.len() == 0 {
        m
    } else {
        record_spec(feed(m, results.drop_last()), results.last())
    }
}

impl View for ParamWriter {
    type V = WriterModel;

    closed spec fn view(&self) -> WriterModel {
        WriterModel {
            names: self.changes@.map_values(|c: ParamChange| c.param_name@),
            sent: self.sent as nat,
            error: match self.error { Some(e) => Some(e@), None => None },
        }
    }
}

impl ParamWriter {
    pub closed spec fn wf(&self) -> bool {
        self.sent <= self.changes@.len()
    }

    /// The change at position `i`.
    pub closed spec fn change(&self, i: int) -> ParamChange {
        self.changes@[i]
    }

    /// Starts a batch; fails when no connection is published.
    pub fn start(state: &MavConnState, changes: Vec<ParamChange>) -> (r: Result<ParamWriter, String>)
        ensures
            state.connection is None <==> r is Err,
            r matches Err(e) ==> e@ == no_connection_text(),
            r matches Ok(w) ==> w.wf() && w@.sent == 0 && w@.error is None
                && w@.names == changes@.map_values(|c: ParamChange| c.param_name@)
                && forall|i: int| 0 <= i < changes@.len() ==> #[trigger] w.change(i) == changes@[i],
    {
        if state.connection.is_none() {
            return Err(String::from_str("No active MavConnection. Call connect_to_mav first."));
        }
        Ok(ParamWriter { changes, sent: 0, error: None })
    }

    /// The message to send next, while the batch is neither done nor stopped.
    pub fn next_message(&self) -> (r: Option<ParamSetMessage>)
        requires
            self.wf(),
        ensures
            pending(self@) <==> r is Some,
            r matches Some(m) ==> m.param_id@ == param_id_of(encode_utf8(self.change(self@.sent as int).param_name@))
                && m.target_system == TARGET_SYSTEM && m.target_component == TARGET_COMPONENT
                && m.param_value_bits == self.change(self@.sent as int).new_value_bits,
    {
        if self.error.is_some() || self.sent >= self.changes.len() {
            return None;
        }
        Some(param_set_message(&self.changes[self.sent]))
    }

    /// Takes in the result of the send of the message from `next_message`.
    pub fn record(&mut self, result: Result<(), String>)
        requires
            old(self).wf(),
        ensures
            final(self).wf(),
            final(self)@ == record_spec(old(self)@, match result { Ok(_) => None, Err(e) => Some(e@) }),
            forall|i: int| #[trigger] final(self).change(i) == old(self).change(i),
    {
        if self.error.is_some() || self.sent >= self.changes.len() {
            return;
        }
        match result {
            Ok(()) => {
                self.sent = self.sent + 1;
            },
            Err(reason) => {
                let mut text = prefixed("Failed to send param ", &self.changes[self.sent].param_name);
                text.append(" update: ");
                text.append(reason.as_str());
                self.error = Some(text);
            },
        }
    }

    /// `None` while sends remain; then `Ok` when all were sent, or the error
    /// of the first failed send.
    pub fn outcome(&self) -> (r: Option<Result<(), String>>)
        requires
            self.wf(),
        ensures
            pending(self@) <==> r is None,
            r matches Some(Ok(_)) ==> self@.error is None && self@.sent == self@.names.len(),
            r matches Some(Err(e)) ==> self@.error == Some(e@),
    {
        match &self.error {
            Some(e) => Some(Err(e.clone())),
            None => if self.sent >= self.changes.len() {
                Some(Ok(()))
            } else {
                None
            },
        }
    }
}

/// In a batch whose first `k` sends succeed and whose next one fails with
/// `why`, exactly changes `0..=k` are sent, the error names change `k`, and
/// no later change is attempted, whatever results come after.
pub proof fn lemma_first_failure_stops(names: Seq<Seq<char>>, k: nat, why: Seq<char>, later: Seq<Option<Seq<char>>>)
    requires
        k < names.len(),
    ensures
        ({
            let fresh = WriterModel { names, sent: 0, error: None };
            let results = Seq::new(k, |i: int| None::<Seq<char>>).push(Some(why)) + later;
            let m = feed(fresh, results);
            &&& m.sent == k
            &&& m.error == Some(send_failure_text(names[k as int], why))
            &&& !pending(m)
        }),
{
    let fresh = WriterModel { names, sent: 0, error: None };
    lemma_feed_successes(names, k);
    let ok = Seq::new(k, |i: int| None::<Seq<char>>);
    let first = ok.push(Some(why));
    assert(first.drop_last() == ok);
    lemma_feed_stopped(feed(fresh, first), later);
    assert(feed(feed(fresh, first), later) == feed(fresh, first + later)) by {
        lemma_feed_append(fresh, first, later);
    }
}

proof fn lemma_feed_successes(names: Seq<Seq<char>>, k: nat)
    requires
        k <= names.len(),
    ensures
        feed(WriterModel { names, sent: 0, error: None }, Seq::new(k, |i: int| None::<Seq<char>>))
            == (WriterModel { names, sent: k, error: None }),
    decreases k,
{
    if k > 0 {
        lemma_feed_successes(names, (k - 1) as nat);
        assert(Seq::new(k, |i: int| None::<Seq<char>>).drop_last() == Seq::new((k - 1) as nat, |i: int| None::<Seq<char>>));
    }
}

proof fn lemma_feed_stopped(m: WriterModel, later: Seq<Option<Seq<char>>>)
    requires
        m.error is Some,
    ensures
        feed(m, later) == m,
    decreases later.len(),
{
    if later.len() > 0 {
        lemma_feed_stopped(m, later.drop_last());
    }
}

proof fn lemma_feed_append(m: WriterModel, a: Seq<Option<Seq<char>>>, b: Seq<Option<Seq<char>>>)
    ensures
        feed(feed(m, a), b) == feed(m, a + b),
    decreases b.len(),
{
    if b.len() == 0 {
        assert(a + b == a);
    } else {
        lemma_feed_append(m, a, b.drop_last());
        assert((a + b).drop_last() == a + b.drop_last());
    }
}

} // verus!
