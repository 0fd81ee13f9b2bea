use vstd::prelude::*;
use crate::message::{lemma_merge_concat, merge_tags, BusMessage, TagError, TagValue};
use crate::tag_map::TagMap;

verus! {

/// Where the session stands in one run.
#[derive(PartialEq, Eq, Structural, Clone, Copy, Debug)]
pub enum Phase {
    /// No run in progress; the engine's graph is in its null state.
    Idle,
    /// Paused (prerolling), draining the bus.
    Negotiating,
}

/// What a session holds, in mathematical terms.
pub struct SessionView {
    pub phase: Phase,
    pub location: Option<Seq<char>>,
    pub tags: Map<Seq<char>, Seq<char>>,
}

/// What one handled message leads to, in mathematical terms.
pub enum Verdict {
    Pending,
    Settled(Map<Seq<char>, Seq<char>>),
    Failed(TagError),
}

/// What one handled message leads to.
#[derive(Debug)]
pub enum Step {
    /// Keep draining the bus.
    Pending,
    /// The pipeline settled: these are the file's tags. The run is over.
    Settled(TagMap),
    /// The run failed. The run is over.
    Failed(TagError),
}

impl View for Step {
    type V = Verdict;

    open spec fn view(&self) -> Verdict {
        match self {
            Step::Pending => Verdict::Pending,
            Step::Settled(t) => Verdict::Settled(t@),
            Step::Failed(e) => Verdict::Failed(*e),
        }
    }
}

/// The session at rest after a run: idle, no tags held, the input kept.
pub open spec fn idle_view(s: SessionView) -> SessionView {
    SessionView { phase: Phase::Idle, location: s.location, tags: Map::empty() }
}

/// The session `s` as a run on `path` begins.
pub open spec fn begin_view(s: SessionView, path: Seq<char>) -> SessionView {
    SessionView { phase: Phase::Negotiating, location: Some(path), ..s }
}

/// What handling `msg` in state `s` leads to; `None` stands for a receive
/// that returned no message.
pub open spec fn verdict(s: SessionView, msg: Option<BusMessage>) -> Verdict {
    match msg {
        None => Verdict::Failed(TagError::BusFailure),
        Some(BusMessage::Error { source_path, description, details }) => Verdict::Failed(
            TagError::NodeError { source_path, description, details },
        ),
        Some(BusMessage::EndOfStream) => Verdict::Failed(TagError::PrematureEndOfStream),
        Some(BusMessage::AsyncDone) => Verdict::Settled(s.tags),
        Some(BusMessage::Tag(es)) => match merge_tags(s.tags, es@) {
            Ok(_) => Verdict::Pending,
            Err(e) => Verdict::Failed(e),
        },
    }
}

/// The state after handling `msg` in state `s`: a tag message that merges
/// keeps the run going with the merged tags; anything else ends the run.
pub open spec fn next_view(s: SessionView, msg: Option<BusMessage>) -> SessionView {
    match msg {
        Some(BusMessage::Tag(es)) => match merge_tags(s.tags, es@) {
            Ok(m) => SessionView { tags: m, ..s },
            Err(_) => idle_view(s),
        },
        _ => idle_view(s),
    }
}

/// Handles `msgs` in order from state `s`, stopping at the first message
/// that ends the run: the state reached and the verdict of the last message
/// handled (`Pending` if none ended the run).
pub open spec fn drain(s: SessionView, msgs: Seq<Option<BusMessage>>) -> (SessionView, Verdict)
    decreases msgs.len(),
{
    if msgs.len() == 0 {
        (s, Verdict::Pending)
    } else if verdict(s, msgs[0]) is Pending {
        drain(next_view(s, msgs[0]), msgs.drop_first())
    } else {
        (next_view(s, msgs[0]), verdict(s, msgs[0]))
    }
}

/// The tag entries of the tag messages among `msgs`, in order.
pub open spec fn tag_entries(msgs: Seq<Option<BusMessage>>) -> Seq<(String, TagValue)>
    decreases msgs.len(),
{
    if msgs.len() == 0 {
        Seq::empty()
    } else {
        let head = match msgs[0] {
            Some(BusMessage::Tag(es)) => es@,
            _ => Seq::empty(),
        };
        head + tag_entries(msgs.drop_first())
    }
}

/// A run keeps negotiating until a message ends it, and then leaves the
/// session idle with no tags held, whatever the verdict.
pub proof fn lemma_run_ends_idle(s: SessionView, msgs: Seq<Option<BusMessage>>)
    requires
        s.phase == Phase::Negotiating,
    ensures
        drain(s, msgs).1 is Pending ==> drain(s, msgs).0.phase == Phase::Negotiating,
        !(drain(s, msgs).1 is Pending) ==> drain(s, msgs).0 == idle_view(s),
    decreases msgs.len(),
{
    if msgs.len() > 0 && verdict(s, msgs[0]) is Pending {
        let n = next_view(s, msgs[0]);
        lemma_run_ends_idle(n, msgs.drop_first());
        assert(idle_view(n) == idle_view(s));
    }
}

/// A run's outcome does not depend on how an earlier run ended: after any
/// two finished runs, a new run on the same path over the same messages
/// reaches the same state and verdict.
pub proof fn lemma_second_run_independent(
    s1: SessionView,
    first1: Seq<Option<BusMessage>>,
    s2: SessionView,
    first2: Seq<Option<BusMessage>>,
    path: Seq<char>,
    msgs: Seq<Option<BusMessage>>,
)
    requires
        s1.phase == Phase::Negotiating,
        s2.phase == Phase::Negotiating,
        !(drain(s1, first1).1 is Pending),
        !(drain(s2, first2).1 is Pending),
    ensures
        drain(s1, first1).0.phase == Phase::Idle,
        drain(s2, first2).0.phase == Phase::Idle,
        drain(begin_view(drain(s1, first1).0, path), msgs) == drain(
            begin_view(drain(s2, first2).0, path),
            msgs,
        ),
{
    lemma_run_ends_idle(s1, first1);
    lemma_run_ends_idle(s2, first2);
    assert(begin_view(drain(s1, first1).0, path) == begin_view(drain(s2, first2).0, path));
}

/// Messages after a still-pending prefix are handled from the state that
/// the prefix reached.
pub proof fn lemma_drain_split(s: SessionView, msgs: Seq<Option<BusMessage>>, k: int)
    requires
        0 <= k <= msgs.len(),
        drain(s, msgs.take(k)).1 is Pending,
    ensures
        drain(s, msgs) == drain(drain(s, msgs.take(k)).0, msgs.skip(k)),
    decreases k,
{
    if k == 0 {
        assert(msgs.skip(0) =~= msgs);
    } else {
        assert(msgs.take(k)[0] == msgs[0]);
        assert(msgs.take(k).drop_first() =~= msgs.drop_first().take(k - 1));
        assert(msgs.drop_first().skip(k - 1) =~= msgs.skip(k));
        lemma_drain_split(next_view(s, msgs[0]), msgs.drop_first(), k - 1);
    }
}

/// An end of stream that arrives while the run is still pending fails the
/// run as premature; the tags gathered until then are not returned.
pub proof fn lemma_end_of_stream_before_settled(s: SessionView, msgs: Seq<Option<BusMessage>>, k: int)
    requires
        0 <= k < msgs.len(),
        drain(s, msgs.take(k)).1 is Pending,
        msgs[k] == Some(BusMessage::EndOfStream),
    ensures
        drain(s, msgs).1 == Verdict::Failed(TagError::PrematureEndOfStream),
{
    lemma_drain_split(s, msgs, k);
    assert(msgs.skip(k)[0] == msgs[k]);
}

/// A run of tag messages closed by the pipeline settling returns exactly the
/// merge of all their entries, in order: the last value seen for a name wins,
/// across messages as within one.
pub proof fn lemma_settled_tags(s: SessionView, msgs: Seq<Option<BusMessage>>)
    requires
        s.phase == Phase::Negotiating,
        msgs.len() > 0,
        msgs.last() == Some(BusMessage::AsyncDone),
        forall|j: int| 0 <= j < msgs.len() - 1 ==> #[trigger] msgs[j] matches Some(BusMessage::Tag(_)),
        merge_tags(s.tags, tag_entries(msgs)) is Ok,
    ensures
        drain(s, msgs).1 == Verdict::Settled(merge_tags(s.tags, tag_entries(msgs))->Ok_0),
    decreases msgs.len(),
{
    let rest = msgs.drop_first();
    if msgs.len() == 1 {
        assert(tag_entries(rest) =~= Seq::<(String, TagValue)>::empty());
        assert(tag_entries(msgs) =~= Seq::<(String, TagValue)>::empty());
    } else {
        assert(msgs[0] matches Some(BusMessage::Tag(_)));
        if let Some(BusMessage::Tag(es)) = msgs[0] {
            lemma_merge_concat(s.tags, es@, tag_entries(rest));
            assert forall|j: int| 0 <= j < rest.len() - 1 implies #[trigger] rest[j] matches Some(
                BusMessage::Tag(_),
            ) by {
                assert(rest[j] == msgs[j + 1]);
            }
            assert(rest.last() == msgs.last());
            lemma_settled_tags(next_view(s, msgs[0]), rest);
        }
    }
}

/// One reusable decode session: the input it points at, where the current
/// run stands, and the tags gathered so far in it.
#[derive(Debug)]
pub struct Session {
    phase: Phase,
    location: Option<String>,
    tags: TagMap,
}

impl View for Session {
    type V = SessionView;

    closed spec fn view(&self) -> SessionView {
        SessionView {
            phase: self.phase,
            location: match self.location {
                Some(p) => Some(p@),
                None => None,
            },
            tags: self.tags@,
        }
    }
}

impl Session {
    pub closed spec fn wf(&self) -> bool {
        &&& self.tags.wf()
        &&& self.phase == Phase::Idle ==> self.tags@ == Map::<Seq<char>, Seq<char>>::empty()
    }

    /// A session that has never run: idle, with no input.
    pub fn new() -> (s: Session)
        ensures
            s.wf(),
            s@ == (SessionView { phase: Phase::Idle, location: None, tags: Map::empty() }),
    {
        Session { phase: Phase::Idle, location: None, tags: TagMap::new() }
    }

    /// The phase of the current run.
    pub fn phase(&self) -> (p: Phase)
        ensures
            p == self@.phase,
    {
        self.phase
    }

    /// The input that the engine's source node is to read.
    pub fn location(&self) -> (r: Option<&String>)
        ensures
            r matches Some(p) ==> self@.location == Some(p@),
            r is None ==> self@.location is None,
    {
        match &self.location {
            Some(p) => Some(p),
            None => None,
        }
    }

    /// Starts a run on `path`: the source is pointed at it, and the engine
    /// is then to be paused so that it prerolls.
    pub fn begin(&mut self, path: String)
        requires
            old(self).wf(),
            old(self)@.phase == Phase::Idle,
        ensures
            final(self).wf(),
            final(self)@ == begin_view(old(self)@, path@),
    {
        self.location = Some(path);
        self.phase = Phase::Negotiating;
    }

    /// Ends the run without a verdict, as when the engine refuses to pause;
    /// the tags gathered so far are dropped.
    pub fn abandon(&mut self)
        requires
            old(self).wf(),
        ensures
            final(self).wf(),
            final(self)@ == idle_view(old(self)@),
    {
        self.phase = Phase::Idle;
        self.tags = TagMap::new();
    }

    /// Handles one result of the blocking receive. Every verdict other than
    /// `Pending` leaves the session idle, and the engine is then to be
    /// brought back to its null state.
    pub fn handle(&mut self, msg: Option<BusMessage>) -> (r: Step)
        requires
            old(self).wf(),
            old(self)@.phase == Phase::Negotiating,
        ensures
            final(self).wf(),
            final(self)@ == next_view(old(self)@, msg),
            r@ == verdict(old(self)@, msg),
    {
        match msg {
            None => {
                self.abandon();
                Step::Failed(TagError::BusFailure)
            },
            Some(BusMessage::Error { source_path, description, details }) => {
                self.abandon();
                Step::Failed(TagError::NodeError { source_path, description, details })
            },
            Some(BusMessage::EndOfStream) => {
                self.abandon();
                Step::Failed(TagError::PrematureEndOfStream)
            },
            Some(BusMessage::AsyncDone) => {
                let mut tags = TagMap::new();
                core::mem::swap(&mut tags, &mut self.tags);
                self.phase = Phase::Idle;
                Step::Settled(tags)
            },
            Some(BusMessage::Tag(es)) => {
                match self.merge(&es) {
                    Ok(()) => Step::Pending,
                    Err(e) => {
                        self.abandon();
                        Step::Failed(e)
                    },
                }
            },
        }
    }

    fn merge(&mut self, es: &Vec<(String, TagValue)>) -> (r: Result<(), TagError>)
        requires
            old(self).wf(),
            old(self)@.phase == Phase::Negotiating,
        ensures
            final(self).wf(),
            final(self)@.phase == old(self)@.phase,
            final(self)@.location == old(self)@.location,
            match merge_tags(old(self)@.tags, es@) {
                Ok(m) => r is Ok && final(self)@.tags == m,
                Err(e) => r == Err::<(), TagError>(e),
            },
    {
        let mut i: usize = 0;
        assert(es@.skip(0) =~= es@);
        while i < es.len()
            invariant
                self.wf(),
                self@.phase == Phase::Negotiating,
                self@.phase == old(self)@.phase,
                self@.location == old(self)@.location,
                0 <= i <= es@.len(),
                merge_tags(old(self)@.tags, es@) == merge_tags(self@.tags, es@.skip(i as int)),
            decreases es@.len() - i,
        {
            assert(es@.skip(i as int)[0] == es@[i as int]);
            assert(es@.skip(i as int).drop_first() =~= es@.skip(i + 1));
            match &es[i].1 {
                TagValue::Text(v) => {
                    self.tags.insert(es[i].0.clone(), v.clone());
                },
                TagValue::Other { raw, reason } => {
                    return Err(
                        TagError::TagValueDecodeFailure {
                            tag_name: es[i].0.clone(),
                            raw_value: raw.clone(),
                            reason: reason.clone(),
                        },
                    );
                },
            }
            i = i + 1;
        }
        assert(es@.skip(i as int).len() == 0);
        Ok(())
    }
}

} // verus!
